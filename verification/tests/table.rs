use wasi_common::ctx::WasiCtxBuilder;
use wasi_common::error::WasiError;
use wasi_common::fdentry::{Descriptor, FdEntry, Metadata, OsHandle};

fn plain_entry() -> FdEntry {
    FdEntry {
        descriptor: Descriptor::OsHandle(OsHandle { meta: Metadata::NotDirectory }),
        preopen_path: None,
    }
}

#[test]
fn auto_insert_returns_strictly_increasing_descriptors() {
    let mut ctx = WasiCtxBuilder::new().build().unwrap();
    // The reserved range 0..=2 is occupied; fill the first non-reserved
    // slot, then keep inserting.
    let fd1 = ctx.insert_fd_entry(plain_entry()).unwrap();
    assert_eq!(fd1, 3);
    let fd2 = ctx.insert_fd_entry(plain_entry()).unwrap();
    assert_eq!(fd2, 4);
    let fd3 = ctx.insert_fd_entry(plain_entry()).unwrap();
    assert_eq!(fd3, 5);
    assert!(fd1 < fd2 && fd2 < fd3);
    for fd in [fd1, fd2, fd3] {
        assert!(ctx.contains_fd_entry(fd));
    }
}

#[test]
fn auto_insert_skips_occupied_slots() {
    let mut ctx = WasiCtxBuilder::new().build().unwrap();
    assert!(ctx.insert_fd_entry_at(3, plain_entry()).is_none());
    assert!(ctx.insert_fd_entry_at(4, plain_entry()).is_none());
    let fd = ctx.insert_fd_entry(plain_entry()).unwrap();
    assert_eq!(fd, 5);
}

#[test]
fn auto_insert_never_reuses_the_reserved_range() {
    let mut ctx = WasiCtxBuilder::new().build().unwrap();
    let removed = ctx.remove_fd_entry(1).unwrap();
    assert!(matches!(removed.descriptor, Descriptor::OsHandle(_)));
    // Descriptor 1 is now vacant, but auto-assignment starts at 3.
    let fd = ctx.insert_fd_entry(plain_entry()).unwrap();
    assert_eq!(fd, 3);
}

#[test]
fn remove_unoccupied_descriptor_fails_with_bad_descriptor() {
    let mut ctx = WasiCtxBuilder::new().build().unwrap();
    assert_eq!(ctx.remove_fd_entry(7).unwrap_err(), WasiError::EBADF);
}

#[test]
fn lookup_right_after_insert_returns_the_entry() {
    let mut ctx = WasiCtxBuilder::new().build().unwrap();
    assert!(ctx.insert_fd_entry_at(9, plain_entry()).is_none());
    let e = ctx.get_fd_entry(9).unwrap();
    assert!(matches!(e.descriptor, Descriptor::OsHandle(h) if h.meta == Metadata::NotDirectory));
    let removed = ctx.remove_fd_entry(9).unwrap();
    assert!(matches!(removed.descriptor, Descriptor::OsHandle(_)));
    assert!(matches!(ctx.get_fd_entry(9), Err(WasiError::EBADF)));
}

#[test]
fn insert_at_returns_the_displaced_entry() {
    let mut ctx = WasiCtxBuilder::new().build().unwrap();
    let displaced = ctx.insert_fd_entry_at(
        0,
        FdEntry { descriptor: Descriptor::Stdin, preopen_path: None },
    );
    // Descriptor 0 held the default null-device entry.
    assert!(matches!(displaced.unwrap().descriptor, Descriptor::OsHandle(_)));
    assert!(matches!(ctx.get_fd_entry(0).unwrap().descriptor, Descriptor::Stdin));
}

#[test]
fn get_absent_descriptor_fails_with_bad_descriptor() {
    let ctx = WasiCtxBuilder::new().build().unwrap();
    assert!(matches!(ctx.get_fd_entry(42), Err(WasiError::EBADF)));
}
