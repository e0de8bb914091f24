use wasi_common::ctx::{WasiCtx, WasiCtxBuilder};
use wasi_common::error::WasiCtxBuilderError;
use wasi_common::fdentry::{Descriptor, Metadata, OsHandle};
use wasi_common::text::HostString;
use wasi_common::virtfs::VirtualDirEntry;

fn dir_handle() -> OsHandle {
    OsHandle { meta: Metadata::Directory }
}

fn file_handle() -> OsHandle {
    OsHandle { meta: Metadata::NotDirectory }
}

fn broken_handle() -> OsHandle {
    OsHandle { meta: Metadata::Unavailable }
}

fn is_null_device_entry(d: &Descriptor) -> bool {
    matches!(d, Descriptor::OsHandle(h) if h.meta == Metadata::NotDirectory)
}

#[test]
fn default_builder_finalizes_to_reserved_descriptors() {
    let b = WasiCtxBuilder::new();
    let ctx = b.build().unwrap();
    assert!(ctx.args.is_empty());
    assert!(ctx.env.is_empty());
    for fd in 0u32..3 {
        assert!(ctx.contains_fd_entry(fd));
        let e = ctx.get_fd_entry(fd).unwrap();
        assert!(is_null_device_entry(&e.descriptor));
        assert!(e.preopen_path.is_none());
    }
    assert!(!ctx.contains_fd_entry(3));
}

#[test]
fn valid_args_preserve_order_and_content() {
    let mut b = WasiCtxBuilder::new();
    b.arg(b"prog".to_vec());
    b.args(vec!["w\u{f6}rld".as_bytes().to_vec(), b"".to_vec()]);
    let ctx = b.build().unwrap();
    assert_eq!(ctx.args.len(), 3);
    assert_eq!(ctx.args[0], b"prog".to_vec());
    assert_eq!(ctx.args[1], "w\u{f6}rld".as_bytes().to_vec());
    assert_eq!(ctx.args[2], b"".to_vec());
}

#[test]
fn nul_arg_fails_with_unexpected_nul() {
    let mut b = WasiCtxBuilder::new();
    b.arg(b"a\0b".to_vec());
    assert!(matches!(b.build(), Err(WasiCtxBuilderError::UnexpectedNul)));
}

#[test]
fn invalid_utf8_arg_fails_with_invalid_utf8() {
    let mut b = WasiCtxBuilder::new();
    b.arg(vec![0xFF, 0xFE]);
    assert!(matches!(b.build(), Err(WasiCtxBuilderError::InvalidUtf8)));
}

#[test]
fn nul_inside_invalid_utf8_reports_invalid_utf8() {
    // The UTF-8 check runs before the NUL check, so a sequence that is
    // both NUL-bearing and ill-formed reports the encoding error.
    let mut b = WasiCtxBuilder::new();
    b.arg(vec![0x00, 0xFF]);
    assert!(matches!(b.build(), Err(WasiCtxBuilderError::InvalidUtf8)));
}

#[test]
fn env_same_key_twice_keeps_later_value() {
    let mut b = WasiCtxBuilder::new();
    b.env(b"K".to_vec(), b"V1".to_vec());
    b.env(b"K".to_vec(), b"V2".to_vec());
    let ctx = b.build().unwrap();
    assert_eq!(ctx.env, vec![b"K=V2".to_vec()]);
}

#[test]
fn envs_inserts_in_order_last_write_wins() {
    let mut b = WasiCtxBuilder::new();
    b.envs(vec![
        (b"A".to_vec(), b"1".to_vec()),
        (b"B".to_vec(), b"2".to_vec()),
        (b"A".to_vec(), b"3".to_vec()),
    ]);
    let ctx = b.build().unwrap();
    assert_eq!(ctx.env, vec![b"A=3".to_vec(), b"B=2".to_vec()]);
}

#[test]
fn env_nul_in_key_fails() {
    let mut b = WasiCtxBuilder::new();
    b.env(b"K\0".to_vec(), b"V".to_vec());
    assert!(matches!(b.build(), Err(WasiCtxBuilderError::UnexpectedNul)));
}

#[test]
fn env_invalid_utf8_value_fails() {
    let mut b = WasiCtxBuilder::new();
    b.env(b"K".to_vec(), vec![0xC0]);
    assert!(matches!(b.build(), Err(WasiCtxBuilderError::InvalidUtf8)));
}

#[test]
fn preopens_get_distinct_descriptors_outside_reserved_range() {
    let mut b = WasiCtxBuilder::new();
    b.preopened_dir(dir_handle(), b"/a".to_vec());
    b.preopened_dir(dir_handle(), b"/b".to_vec());
    b.preopened_dir(dir_handle(), b"/c".to_vec());
    let ctx = b.build().unwrap();
    let mut seen = Vec::new();
    for (fd, path) in [(3u32, b"/a".to_vec()), (4, b"/b".to_vec()), (5, b"/c".to_vec())] {
        assert!(fd > 2);
        assert!(!seen.contains(&fd));
        seen.push(fd);
        let e = ctx.get_fd_entry(fd).unwrap();
        assert_eq!(e.preopen_path.as_ref().unwrap(), &path);
        assert!(matches!(e.descriptor, Descriptor::OsHandle(h) if h.meta == Metadata::Directory));
    }
    assert!(!ctx.contains_fd_entry(6));
}

#[test]
fn preopen_non_directory_fails_with_its_guest_path() {
    let mut b = WasiCtxBuilder::new();
    b.preopened_dir(dir_handle(), b"/ok".to_vec());
    b.preopened_dir(file_handle(), b"/x".to_vec());
    match b.build() {
        Err(WasiCtxBuilderError::NotADirectory(p)) => assert_eq!(p, b"/x".to_vec()),
        other => panic!("expected the not-a-directory condition, got {:?}", other),
    }
    // A fresh builder attempted afterwards is unaffected.
    let b2 = WasiCtxBuilder::new();
    assert!(b2.build().is_ok());
}

#[test]
fn preopen_io_failure_reports_io() {
    let mut b = WasiCtxBuilder::new();
    b.preopened_dir(broken_handle(), b"/d".to_vec());
    assert!(matches!(b.build(), Err(WasiCtxBuilderError::Io)));
}

#[test]
fn supplied_stream_with_failing_metadata_reports_io() {
    let mut b = WasiCtxBuilder::new();
    b.stdin(broken_handle());
    assert!(matches!(b.build(), Err(WasiCtxBuilderError::Io)));
}

#[test]
fn supplied_streams_are_wrapped() {
    let mut b = WasiCtxBuilder::new();
    b.stdout(file_handle());
    let ctx = b.build().unwrap();
    let e = ctx.get_fd_entry(1).unwrap();
    assert!(matches!(e.descriptor, Descriptor::OsHandle(_)));
}

#[test]
fn inherit_stdio_aliases_the_host_streams() {
    let mut b = WasiCtxBuilder::new();
    b.inherit_stdio();
    let ctx = b.build().unwrap();
    assert!(matches!(ctx.get_fd_entry(0).unwrap().descriptor, Descriptor::Stdin));
    assert!(matches!(ctx.get_fd_entry(1).unwrap().descriptor, Descriptor::Stdout));
    assert!(matches!(ctx.get_fd_entry(2).unwrap().descriptor, Descriptor::Stderr));
}

#[test]
fn inherit_args_replaces_earlier_arguments() {
    let mut b = WasiCtxBuilder::new();
    b.arg(b"old".to_vec());
    b.inherit_args(vec![
        HostString::Narrow(b"prog".to_vec()),
        HostString::Narrow(b"x".to_vec()),
    ]);
    let ctx = b.build().unwrap();
    assert_eq!(ctx.args, vec![b"prog".to_vec(), b"x".to_vec()]);
}

#[test]
fn wide_host_args_are_transcoded() {
    // "K" then a supplementary-plane scalar via a surrogate pair.
    let mut b = WasiCtxBuilder::new();
    b.inherit_args(vec![HostString::Wide(vec![0x004B, 0xD83D, 0xDE00])]);
    let ctx = b.build().unwrap();
    assert_eq!(ctx.args, vec![vec![0x4B, 0xF0, 0x9F, 0x98, 0x80]]);
}

#[test]
fn lone_surrogate_fails_with_invalid_utf16() {
    let mut b = WasiCtxBuilder::new();
    b.inherit_args(vec![HostString::Wide(vec![0xD800])]);
    assert!(matches!(b.build(), Err(WasiCtxBuilderError::InvalidUtf16)));
}

#[test]
fn invalid_narrow_host_string_fails_with_invalid_utf8() {
    let mut b = WasiCtxBuilder::new();
    b.inherit_args(vec![HostString::Narrow(vec![0x80])]);
    assert!(matches!(b.build(), Err(WasiCtxBuilderError::InvalidUtf8)));
}

#[test]
fn inherit_env_snapshots_native_pairs() {
    let mut b = WasiCtxBuilder::new();
    b.env(b"OLD".to_vec(), b"1".to_vec());
    b.inherit_env(vec![(
        HostString::Narrow(b"HOME".to_vec()),
        HostString::Narrow(b"/root".to_vec()),
    )]);
    let ctx = b.build().unwrap();
    assert_eq!(ctx.env, vec![b"HOME=/root".to_vec()]);
}

#[test]
fn preopened_virt_flattens_the_tree() {
    let tree = VirtualDirEntry::Directory(vec![
        (
            b"data".to_vec(),
            VirtualDirEntry::Directory(vec![(
                b"inner.txt".to_vec(),
                VirtualDirEntry::File(b"abc".to_vec()),
            )]),
        ),
        (b"f.txt".to_vec(), VirtualDirEntry::File(b"hi".to_vec())),
    ]);
    let mut b = WasiCtxBuilder::new();
    b.preopened_virt(tree, b"/v".to_vec());
    let ctx = b.build().unwrap();
    let e = ctx.get_fd_entry(3).unwrap();
    assert_eq!(e.preopen_path.as_ref().unwrap(), &b"/v".to_vec());
    match &e.descriptor {
        Descriptor::VirtualFile(d) => {
            assert!(d.writable);
            assert_eq!(d.subdirs.len(), 1);
            assert_eq!(d.subdirs[0].0, b"data".to_vec());
            assert_eq!(d.subdirs[0].1.files.len(), 1);
            assert_eq!(d.subdirs[0].1.files[0].0, b"inner.txt".to_vec());
            assert_eq!(d.subdirs[0].1.files[0].1, b"abc".to_vec());
            assert_eq!(d.files.len(), 1);
            assert_eq!(d.files[0].0, b"f.txt".to_vec());
            assert_eq!(d.files[0].1, b"hi".to_vec());
        },
        other => panic!("expected a virtual directory origin, got {:?}", other),
    }
}

#[test]
fn full_scenario_prog_env_and_sandbox_preopen() {
    let mut b = WasiCtxBuilder::new();
    b.arg(b"prog".to_vec());
    b.env(b"K".to_vec(), b"V".to_vec());
    b.preopened_dir(dir_handle(), b"/sandbox".to_vec());
    let ctx = b.build().unwrap();
    assert_eq!(ctx.args, vec![b"prog".to_vec()]);
    assert_eq!(ctx.env, vec![b"K=V".to_vec()]);
    for fd in 0u32..3 {
        let e = ctx.get_fd_entry(fd).unwrap();
        assert!(is_null_device_entry(&e.descriptor));
    }
    let e = ctx.get_fd_entry(3).unwrap();
    assert_eq!(e.preopen_path.as_ref().unwrap(), &b"/sandbox".to_vec());
    assert!(!ctx.contains_fd_entry(4));
}

#[test]
fn wasi_ctx_new_uses_supplied_args_and_host_env() {
    let ctx = WasiCtx::new(
        vec![b"prog".to_vec()],
        vec![(
            HostString::Narrow(b"PATH".to_vec()),
            HostString::Narrow(b"/bin".to_vec()),
        )],
    )
    .unwrap();
    assert_eq!(ctx.args, vec![b"prog".to_vec()]);
    assert_eq!(ctx.env, vec![b"PATH=/bin".to_vec()]);
    assert!(matches!(ctx.get_fd_entry(0).unwrap().descriptor, Descriptor::Stdin));
    assert!(matches!(ctx.get_fd_entry(1).unwrap().descriptor, Descriptor::Stdout));
    assert!(matches!(ctx.get_fd_entry(2).unwrap().descriptor, Descriptor::Stderr));
}
