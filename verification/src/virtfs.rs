//! Virtual directory trees for preopens backed by in-memory content.
//!
//! A `VirtualDirEntry` is the tree literal a caller supplies; it is
//! consumed by recursively flattening it into a `VirtualDir` through the
//! add-subdirectory / add-file operations.  Only the shape of the
//! directory is modeled here; the content engine behind it is a separate
//! collaborator.

use vstd::prelude::*;

verus! {

broadcast use vstd::seq::group_seq_axioms, vstd::std_specs::vec::group_vec_axioms;

/// A virtual directory tree literal: a directory maps names to subtrees,
/// a file carries its content.
#[derive(Debug)]
pub enum VirtualDirEntry {
    /// A directory node: named children in insertion order.
    Directory(Vec<(Vec<u8>, VirtualDirEntry)>),
    /// A file node: its content.
    File(Vec<u8>),
}

/// The file type a descriptor origin reports.
#[derive(Clone, Copy, Debug, PartialEq, Eq, Structural)]
pub enum FileType {
    Directory,
    RegularFile,
}

/// An in-memory virtual directory, populated from a tree literal.
#[derive(Debug)]
pub struct VirtualDir {
    /// Whether the directory accepts modification.
    pub writable: bool,
    /// Named subdirectories, in insertion order.
    pub subdirs: Vec<(Vec<u8>, VirtualDir)>,
    /// Named files with their content, in insertion order.
    pub files: Vec<(Vec<u8>, Vec<u8>)>,
}

/// The mathematical shape of a virtual directory.
#[verifier::ext_equal]
pub struct VirtualDirView {
    pub writable: bool,
    pub subdirs: Seq<(Seq<u8>, VirtualDirView)>,
    pub files: Seq<(Seq<u8>, Seq<u8>)>,
}

/// View of a subdirectory list.
pub open spec fn subdirs_view(s: Seq<(Vec<u8>, VirtualDir)>) -> Seq<(Seq<u8>, VirtualDirView)>
    decreases s,
{
    if s.len() == 0 {
        Seq::empty()
    } else {
        seq![(s[0].0@, dir_view(s[0].1))] + subdirs_view(s.skip(1))
    }
}

/// View of a file list.
pub open spec fn files_view(s: Seq<(Vec<u8>, Vec<u8>)>) -> Seq<(Seq<u8>, Seq<u8>)> {
    Seq::new(s.len(), |i: int| (s[i].0@, s[i].1@))
}

/// View of a virtual directory.
pub open spec fn dir_view(d: VirtualDir) -> VirtualDirView
    decreases d,
{
    VirtualDirView {
        writable: d.writable,
        subdirs: subdirs_view(d.subdirs@),
        files: files_view(d.files@),
    }
}

impl View for VirtualDir {
    type V = VirtualDirView;

    open spec fn view(&self) -> VirtualDirView {
        dir_view(*self)
    }
}

/// An empty directory shape.
pub open spec fn empty_dir_view(writable: bool) -> VirtualDirView {
    VirtualDirView { writable, subdirs: Seq::empty(), files: Seq::empty() }
}

/// `d` with one more subdirectory `sub` under `name`.
pub open spec fn dir_with_subdir(
    d: VirtualDirView,
    name: Seq<u8>,
    sub: VirtualDirView,
) -> VirtualDirView {
    VirtualDirView { subdirs: d.subdirs.push((name, sub)), ..d }
}

/// `d` with one more file `content` under `name`.
pub open spec fn dir_with_file(d: VirtualDirView, name: Seq<u8>, content: Seq<u8>) -> VirtualDirView {
    VirtualDirView { files: d.files.push((name, content)), ..d }
}

proof fn lemma_subdirs_view_push(s: Seq<(Vec<u8>, VirtualDir)>, x: (Vec<u8>, VirtualDir))
    ensures
        subdirs_view(s.push(x)) =~= subdirs_view(s).push((x.0@, dir_view(x.1))),
    decreases s.len(),
{
    if s.len() == 0 {
        assert(s.push(x)[0] == x);
        assert(s.push(x).skip(1) =~= Seq::<(Vec<u8>, VirtualDir)>::empty());
        assert(subdirs_view(s.push(x).skip(1)) =~= Seq::<(Seq<u8>, VirtualDirView)>::empty());
        assert(subdirs_view(s.push(x)) =~= seq![(x.0@, dir_view(x.1))] + subdirs_view(
            s.push(x).skip(1),
        ));
        assert(subdirs_view(s) =~= Seq::<(Seq<u8>, VirtualDirView)>::empty());
        assert(subdirs_view(s.push(x)) =~= subdirs_view(s).push((x.0@, dir_view(x.1))));
    } else {
        assert(s.push(x)[0] == s[0]);
        assert(s.push(x).skip(1) =~= s.skip(1).push(x));
        lemma_subdirs_view_push(s.skip(1), x);
        assert(subdirs_view(s.push(x)) =~= subdirs_view(s).push((x.0@, dir_view(x.1))));
    }
}

impl VirtualDir {
    /// A fresh, empty virtual directory.
    pub fn new(writable: bool) -> (r: VirtualDir)
        ensures
            r@ == empty_dir_view(writable),
    {
        let r = VirtualDir { writable, subdirs: Vec::new(), files: Vec::new() };
        proof {
            assert(r@ =~= empty_dir_view(writable));
        }
        r
    }

    /// Adds the subdirectory `dir` under `name`.
    pub fn add_dir(&mut self, dir: VirtualDir, name: Vec<u8>)
        ensures
            final(self)@ == dir_with_subdir(old(self)@, name@, dir@),
    {
        let ghost pre = self.subdirs@;
        self.subdirs.push((name, dir));
        proof {
            lemma_subdirs_view_push(pre, (name, dir));
            assert(self@ =~= dir_with_subdir(old(self)@, name@, dir@));
        }
    }

    /// Adds a file with `content` under `name`.
    pub fn add_file(&mut self, content: Vec<u8>, name: Vec<u8>)
        ensures
            final(self)@ == dir_with_file(old(self)@, name@, content@),
    {
        let ghost pre = self.files@;
        self.files.push((name, content));
        proof {
            assert(files_view(pre.push((name, content))) =~= files_view(pre).push((
                name@,
                content@,
            )));
            assert(self@ =~= dir_with_file(old(self)@, name@, content@));
        }
    }

    /// The file type this origin reports: a virtual directory is always
    /// a directory.
    pub fn get_file_type(&self) -> (t: FileType)
        ensures
            t == FileType::Directory,
    {
        FileType::Directory
    }
}

/// The directory that flattening the tree-literal children `entries`
/// into `dir` produces: one subdirectory or one file per entry, in
/// entry order, subtrees flattened recursively into fresh writable
/// directories.
pub open spec fn populate_spec(
    dir: VirtualDirView,
    entries: Seq<(Vec<u8>, VirtualDirEntry)>,
) -> VirtualDirView
    decreases entries,
{
    if entries.len() == 0 {
        dir
    } else {
        let step = match entries[0].1 {
            VirtualDirEntry::Directory(sub) => dir_with_subdir(
                dir,
                entries[0].0@,
                populate_spec(empty_dir_view(true), sub@),
            ),
            VirtualDirEntry::File(content) => dir_with_file(dir, entries[0].0@, content@),
        };
        populate_spec(step, entries.skip(1))
    }
}

/// Recursively flattens tree-literal children into `dir` through the
/// add-subdirectory / add-file operations.
pub fn populate_directory(
    dir: VirtualDir,
    entries: Vec<(Vec<u8>, VirtualDirEntry)>,
    Ghost(m): Ghost<Seq<(Vec<u8>, VirtualDirEntry)>>,
) -> (r: VirtualDir)
    requires
        entries@ == m,
    ensures
        r@ == populate_spec(dir@, m),
    decreases m,
{
    let mut entries = entries;
    if entries.len() == 0 {
        return dir;
    }
    let (name, e) = entries.remove(0);
    proof {
        assert(entries@ =~= m.skip(1));
        assert(name == m[0].0 && e == m[0].1);
    }
    match e {
        VirtualDirEntry::Directory(sub) => {
            proof {
                assert(decreases_to!(m => m[0]));
                assert(decreases_to!(m[0] => m[0].1));
                assert(m[0].1 == VirtualDirEntry::Directory(sub));
                assert(decreases_to!(m[0].1 => sub));
                assert(decreases_to!(sub => sub@));
            }
            let sd = populate_directory(VirtualDir::new(true), sub, Ghost(sub@));
            let mut d = dir;
            d.add_dir(sd, name);
            populate_directory(d, entries, Ghost(m.skip(1)))
        },
        VirtualDirEntry::File(content) => {
            let mut d = dir;
            d.add_file(content, name);
            populate_directory(d, entries, Ghost(m.skip(1)))
        },
    }
}

} // verus!
