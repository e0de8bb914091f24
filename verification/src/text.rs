//! Deferred argument/environment text and its validation.
//!
//! A staged string is kept as the raw bytes or the host-native units it
//! arrived as; the costly, fallible decoding is performed exactly once, at
//! finalization.  Raw bytes must be strict UTF-8; host-native text is
//! either narrow (decoded as UTF-8) or wide (decoded as UTF-16 and
//! transcoded).  A further step rejects embedded NUL bytes.

use vstd::prelude::*;

use crate::error::WasiCtxBuilderError;

verus! {

broadcast use vstd::seq::group_seq_axioms;

// ---------------------------------------------------------------------
// UTF-8 validity
// ---------------------------------------------------------------------

/// Length of the well-formed UTF-8 scalar encoding that starts with the
/// byte `b`, or 0 when no well-formed encoding starts with `b`.
pub open spec fn utf8_len_of(b: u8) -> int {
    if b < 0x80 {
        1
    } else if 0xC2 <= b && b <= 0xDF {
        2
    } else if 0xE0 <= b && b <= 0xEF {
        3
    } else if 0xF0 <= b && b <= 0xF4 {
        4
    } else {
        0
    }
}

/// `b` is a UTF-8 continuation byte.
pub open spec fn is_utf8_cont(b: u8) -> bool {
    0x80 <= b && b <= 0xBF
}

/// A well-formed UTF-8 scalar encoding starts at index `i` of `s`:
/// shortest form, no surrogate code points, nothing above U+10FFFF.
pub open spec fn utf8_scalar_at(s: Seq<u8>, i: int) -> bool {
    let n = utf8_len_of(s[i]);
    &&& 1 <= n
    &&& i + n <= s.len()
    &&& (n >= 2 ==> is_utf8_cont(s[i + 1]))
    &&& (n >= 3 ==> is_utf8_cont(s[i + 2]))
    &&& (n >= 4 ==> is_utf8_cont(s[i + 3]))
    &&& (s[i] == 0xE0 ==> 0xA0 <= s[i + 1])
    &&& (s[i] == 0xED ==> s[i + 1] <= 0x9F)
    &&& (s[i] == 0xF0 ==> 0x90 <= s[i + 1])
    &&& (s[i] == 0xF4 ==> s[i + 1] <= 0x8F)
}

/// The suffix of `s` starting at `i` is a sequence of well-formed UTF-8
/// scalar encodings.
pub open spec fn utf8_valid_from(s: Seq<u8>, i: int) -> bool
    decreases s.len() - i
        when 0 <= i <= s.len()
{
    if i == s.len() {
        true
    } else if !utf8_scalar_at(s, i) {
        false
    } else {
        utf8_valid_from(s, i + utf8_len_of(s[i]))
    }
}

/// `s` is strict, well-formed UTF-8.
pub open spec fn is_valid_utf8(s: Seq<u8>) -> bool {
    utf8_valid_from(s, 0)
}

/// Decides strict UTF-8 validity of `v`.
pub fn check_utf8(v: &Vec<u8>) -> (r: bool)
    ensures
        r == is_valid_utf8(v@),
{
    let n = v.len();
    let mut i: usize = 0;
    while i < n
        invariant
            0 <= i <= n,
            n == v@.len(),
            is_valid_utf8(v@) == utf8_valid_from(v@, i as int),
        decreases n - i,
    {
        let b = v[i];
        let w: usize = if b < 0x80 {
            1
        } else if 0xC2 <= b && b <= 0xDF {
            2
        } else if 0xE0 <= b && b <= 0xEF {
            3
        } else if 0xF0 <= b && b <= 0xF4 {
            4
        } else {
            return false;
        };
        if w > n - i {
            return false;
        }
        if w >= 2 {
            let b1 = v[i + 1];
            if !(0x80 <= b1 && b1 <= 0xBF) {
                return false;
            }
            if b == 0xE0 && b1 < 0xA0 {
                return false;
            }
            if b == 0xED && b1 > 0x9F {
                return false;
            }
            if b == 0xF0 && b1 < 0x90 {
                return false;
            }
            if b == 0xF4 && b1 > 0x8F {
                return false;
            }
        }
        if w >= 3 {
            let b2 = v[i + 2];
            if !(0x80 <= b2 && b2 <= 0xBF) {
                return false;
            }
        }
        if w == 4 {
            let b3 = v[i + 3];
            if !(0x80 <= b3 && b3 <= 0xBF) {
                return false;
            }
        }
        proof {
            assert(utf8_scalar_at(v@, i as int));
        }
        i += w;
    }
    true
}

/// Decides whether `v` holds a NUL byte.
pub fn contains_nul(v: &Vec<u8>) -> (r: bool)
    ensures
        r == v@.contains(0u8),
{
    let n = v.len();
    let mut i: usize = 0;
    while i < n
        invariant
            0 <= i <= n,
            n == v@.len(),
            forall|j: int| 0 <= j < i ==> v@[j] != 0u8,
        decreases n - i,
    {
        if v[i] == 0 {
            proof {
                assert(v@[i as int] == 0u8);
            }
            return true;
        }
        i += 1;
    }
    proof {
        assert(forall|j: int| 0 <= j < v@.len() ==> v@[j] != 0u8);
    }
    false
}

/// Copies `v` into a fresh, owned byte vector.
pub fn copy_bytes(v: &Vec<u8>) -> (r: Vec<u8>)
    ensures
        r@ == v@,
{
    let n = v.len();
    let mut r: Vec<u8> = Vec::new();
    let mut i: usize = 0;
    while i < n
        invariant
            0 <= i <= n,
            n == v@.len(),
            r@ == v@.subrange(0, i as int),
        decreases n - i,
    {
        r.push(v[i]);
        proof {
            assert(r@ =~= v@.subrange(0, i + 1 as int));
        }
        i += 1;
    }
    proof {
        assert(r@ =~= v@);
    }
    r
}

// ---------------------------------------------------------------------
// UTF-16 validity and transcoding
// ---------------------------------------------------------------------

/// `u` is a high (leading) surrogate code unit.
pub open spec fn is_high_surrogate(u: u16) -> bool {
    0xD800 <= u && u <= 0xDBFF
}

/// `u` is a low (trailing) surrogate code unit.
pub open spec fn is_low_surrogate(u: u16) -> bool {
    0xDC00 <= u && u <= 0xDFFF
}

/// `u` is a well-formed UTF-16 code unit sequence: every high surrogate
/// is followed by a low surrogate, and no low surrogate stands alone.
pub open spec fn wide_ok(u: Seq<u16>) -> bool
    decreases u.len(),
{
    if u.len() == 0 {
        true
    } else if is_high_surrogate(u[0]) {
        if u.len() < 2 {
            false
        } else if !is_low_surrogate(u[1]) {
            false
        } else {
            wide_ok(u.skip(2))
        }
    } else if is_low_surrogate(u[0]) {
        false
    } else {
        wide_ok(u.skip(1))
    }
}

/// The scalar value encoded by the surrogate pair `(hi, lo)`.
pub open spec fn wide_scalar(hi: u16, lo: u16) -> int {
    0x10000 + (hi - 0xD800) * 0x400 + (lo - 0xDC00)
}

/// The UTF-8 encoding of the scalar value `c`.
pub open spec fn utf8_enc(c: int) -> Seq<u8> {
    if c < 0x80 {
        seq![c as u8]
    } else if c < 0x800 {
        seq![(0xC0 + c / 0x40) as u8, (0x80 + c % 0x40) as u8]
    } else if c < 0x10000 {
        seq![
            (0xE0 + c / 0x1000) as u8,
            (0x80 + (c / 0x40) % 0x40) as u8,
            (0x80 + c % 0x40) as u8,
        ]
    } else {
        seq![
            (0xF0 + c / 0x40000) as u8,
            (0x80 + (c / 0x1000) % 0x40) as u8,
            (0x80 + (c / 0x40) % 0x40) as u8,
            (0x80 + c % 0x40) as u8,
        ]
    }
}

/// The UTF-8 bytes that transcoding the UTF-16 units `u` produces;
/// meaningful where `wide_ok(u)` holds.
pub open spec fn wide_to_utf8(u: Seq<u16>) -> Seq<u8>
    decreases u.len(),
{
    if u.len() == 0 {
        Seq::empty()
    } else if is_high_surrogate(u[0]) && u.len() >= 2 && is_low_surrogate(u[1]) {
        utf8_enc(wide_scalar(u[0], u[1])) + wide_to_utf8(u.skip(2))
    } else {
        utf8_enc(u[0] as int) + wide_to_utf8(u.skip(1))
    }
}

/// Appends the UTF-8 encoding of the scalar value `c` to `out`.
fn push_utf8(out: &mut Vec<u8>, c: u32)
    requires
        c < 0x110000,
    ensures
        final(out)@ == old(out)@ + utf8_enc(c as int),
{
    if c < 0x80 {
        out.push(c as u8);
    } else if c < 0x800 {
        out.push((0xC0 + c / 0x40) as u8);
        out.push((0x80 + c % 0x40) as u8);
    } else if c < 0x10000 {
        out.push((0xE0 + c / 0x1000) as u8);
        out.push((0x80 + (c / 0x40) % 0x40) as u8);
        out.push((0x80 + c % 0x40) as u8);
    } else {
        out.push((0xF0 + c / 0x40000) as u8);
        out.push((0x80 + (c / 0x1000) % 0x40) as u8);
        out.push((0x80 + (c / 0x40) % 0x40) as u8);
        out.push((0x80 + c % 0x40) as u8);
    }
    proof {
        assert(out@ =~= old(out)@ + utf8_enc(c as int));
    }
}

/// Transcodes UTF-16 code units to UTF-8 bytes; `None` when the unit
/// sequence is ill-formed.
pub fn transcode_wide(u: &Vec<u16>) -> (r: Option<Vec<u8>>)
    ensures
        (r is Some) == wide_ok(u@),
        r matches Some(b) ==> b@ == wide_to_utf8(u@),
{
    let n = u.len();
    let mut out: Vec<u8> = Vec::new();
    let mut i: usize = 0;
    proof {
        assert(u@.skip(0) =~= u@);
        assert(out@ + wide_to_utf8(u@) =~= wide_to_utf8(u@));
    }
    while i < n
        invariant
            0 <= i <= n,
            n == u@.len(),
            wide_ok(u@) == wide_ok(u@.skip(i as int)),
            wide_to_utf8(u@) == out@ + wide_to_utf8(u@.skip(i as int)),
        decreases n - i,
    {
        let w = u[i];
        proof {
            assert(u@.skip(i as int)[0] == u@[i as int]);
        }
        if 0xD800 <= w && w <= 0xDBFF {
            if i + 1 == n {
                return None;
            }
            let w2 = u[i + 1];
            proof {
                assert(u@.skip(i as int)[1] == u@[i + 1 as int]);
            }
            if !(0xDC00 <= w2 && w2 <= 0xDFFF) {
                return None;
            }
            let c: u32 = 0x10000 + ((w - 0xD800) as u32) * 0x400 + ((w2 - 0xDC00) as u32);
            push_utf8(&mut out, c);
            proof {
                assert(u@.skip(i as int).skip(2) =~= u@.skip(i + 2 as int));
            }
            i += 2;
        } else if 0xDC00 <= w && w <= 0xDFFF {
            return None;
        } else {
            push_utf8(&mut out, w as u32);
            proof {
                assert(u@.skip(i as int).skip(1) =~= u@.skip(i + 1 as int));
            }
            i += 1;
        }
    }
    proof {
        assert(u@.skip(n as int) =~= Seq::<u16>::empty());
        assert(wide_to_utf8(u@) =~= out@);
    }
    Some(out)
}

// ---------------------------------------------------------------------
// Staged text values
// ---------------------------------------------------------------------

/// A host-native string, as the narrow bytes or wide units the host
/// handed over; which of the two a host produces is fixed by its family.
#[derive(Debug)]
pub enum HostString {
    /// Narrow host text, decoded as UTF-8.
    Narrow(Vec<u8>),
    /// Wide host text, decoded as UTF-16.
    Wide(Vec<u16>),
}

/// A staged argument or environment string; validation is deferred to
/// finalization.
#[derive(Debug)]
pub enum PendingCString {
    /// Raw bytes, to be validated as strict UTF-8.
    Bytes(Vec<u8>),
    /// A host-native string, to be decoded per the host family.
    Native(HostString),
}

/// The staged value decodes to valid text.
pub open spec fn decode_ok(t: PendingCString) -> bool {
    match t {
        PendingCString::Bytes(v) => is_valid_utf8(v@),
        PendingCString::Native(HostString::Narrow(v)) => is_valid_utf8(v@),
        PendingCString::Native(HostString::Wide(u)) => wide_ok(u@),
    }
}

/// The UTF-8 bytes the staged value decodes to; meaningful where
/// `decode_ok` holds.
pub open spec fn decoded_bytes(t: PendingCString) -> Seq<u8> {
    match t {
        PendingCString::Bytes(v) => v@,
        PendingCString::Native(HostString::Narrow(v)) => v@,
        PendingCString::Native(HostString::Wide(u)) => wide_to_utf8(u@),
    }
}

/// The error kind a failed decode of `t` reports.
pub open spec fn decode_failure(t: PendingCString) -> WasiCtxBuilderError {
    match t {
        PendingCString::Native(HostString::Wide(_)) => WasiCtxBuilderError::InvalidUtf16,
        _ => WasiCtxBuilderError::InvalidUtf8,
    }
}

/// The staged value decodes to valid text with no embedded NUL byte.
pub open spec fn cstring_ok(t: PendingCString) -> bool {
    decode_ok(t) && !decoded_bytes(t).contains(0u8)
}

/// The error kind resolving `t` to NUL-free text reports on failure.
pub open spec fn cstring_failure(t: PendingCString) -> WasiCtxBuilderError {
    if !decode_ok(t) {
        decode_failure(t)
    } else {
        WasiCtxBuilderError::UnexpectedNul
    }
}

impl PendingCString {
    /// Decodes the staged value to owned UTF-8 bytes, validating per its
    /// source representation.
    pub fn into_string(&self) -> (r: Result<Vec<u8>, WasiCtxBuilderError>)
        ensures
            (r is Ok) == decode_ok(*self),
            r matches Ok(v) ==> v@ == decoded_bytes(*self),
            r matches Err(e) ==> e == decode_failure(*self),
    {
        match self {
            PendingCString::Bytes(v) => {
                if check_utf8(v) {
                    Ok(copy_bytes(v))
                } else {
                    Err(WasiCtxBuilderError::InvalidUtf8)
                }
            },
            PendingCString::Native(HostString::Narrow(v)) => {
                if check_utf8(v) {
                    Ok(copy_bytes(v))
                } else {
                    Err(WasiCtxBuilderError::InvalidUtf8)
                }
            },
            PendingCString::Native(HostString::Wide(u)) => {
                match transcode_wide(u) {
                    Some(b) => Ok(b),
                    None => Err(WasiCtxBuilderError::InvalidUtf16),
                }
            },
        }
    }

    /// Decodes the staged value and additionally rejects embedded NUL
    /// bytes, as a null-terminated value must.
    pub fn into_utf8_cstring(&self) -> (r: Result<Vec<u8>, WasiCtxBuilderError>)
        ensures
            (r is Ok) == cstring_ok(*self),
            r matches Ok(v) ==> v@ == decoded_bytes(*self),
            r matches Err(e) ==> e == cstring_failure(*self),
    {
        match self.into_string() {
            Ok(v) => {
                if contains_nul(&v) {
                    Err(WasiCtxBuilderError::UnexpectedNul)
                } else {
                    Ok(v)
                }
            },
            Err(e) => Err(e),
        }
    }
}

/// Structural equality of two staged strings: same representation and
/// same content.  Environment keys are compared with it.
pub open spec fn pending_eq(a: PendingCString, b: PendingCString) -> bool {
    match (a, b) {
        (PendingCString::Bytes(x), PendingCString::Bytes(y)) => x@ == y@,
        (
            PendingCString::Native(HostString::Narrow(x)),
            PendingCString::Native(HostString::Narrow(y)),
        ) => x@ == y@,
        (
            PendingCString::Native(HostString::Wide(x)),
            PendingCString::Native(HostString::Wide(y)),
        ) => x@ == y@,
        _ => false,
    }
}

/// Decides byte-vector equality.
pub fn bytes_eq(a: &Vec<u8>, b: &Vec<u8>) -> (r: bool)
    ensures
        r == (a@ == b@),
{
    if a.len() != b.len() {
        proof {
            assert(a@ != b@);
        }
        return false;
    }
    let n = a.len();
    let mut i: usize = 0;
    while i < n
        invariant
            0 <= i <= n,
            n == a@.len(),
            n == b@.len(),
            forall|j: int| 0 <= j < i ==> a@[j] == b@[j],
        decreases n - i,
    {
        if a[i] != b[i] {
            proof {
                assert(a@[i as int] != b@[i as int]);
            }
            return false;
        }
        i += 1;
    }
    proof {
        assert(a@ =~= b@);
    }
    true
}

/// Decides wide-unit-vector equality.
pub fn wides_eq(a: &Vec<u16>, b: &Vec<u16>) -> (r: bool)
    ensures
        r == (a@ == b@),
{
    if a.len() != b.len() {
        proof {
            assert(a@ != b@);
        }
        return false;
    }
    let n = a.len();
    let mut i: usize = 0;
    while i < n
        invariant
            0 <= i <= n,
            n == a@.len(),
            n == b@.len(),
            forall|j: int| 0 <= j < i ==> a@[j] == b@[j],
        decreases n - i,
    {
        if a[i] != b[i] {
            proof {
                assert(a@[i as int] != b@[i as int]);
            }
            return false;
        }
        i += 1;
    }
    proof {
        assert(a@ =~= b@);
    }
    true
}

/// Decides `pending_eq` on two staged strings.
pub fn pending_cstring_eq(a: &PendingCString, b: &PendingCString) -> (r: bool)
    ensures
        r == pending_eq(*a, *b),
{
    match (a, b) {
        (PendingCString::Bytes(x), PendingCString::Bytes(y)) => bytes_eq(x, y),
        (
            PendingCString::Native(HostString::Narrow(x)),
            PendingCString::Native(HostString::Narrow(y)),
        ) => bytes_eq(x, y),
        (
            PendingCString::Native(HostString::Wide(x)),
            PendingCString::Native(HostString::Wide(y)),
        ) => wides_eq(x, y),
        _ => false,
    }
}

} // verus!
