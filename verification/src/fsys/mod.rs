//! Filesystem access behind one read-only trait.
//!
//! Drivers: ext2/3/4 and FAT12/16/32.
//! Detected-but-unsupported (XFS, btrfs, squashfs, NTFS, ReFS) get a precise
//! error so users know what they hit. XFS is the next milestone (RHEL 9 /boot).

pub mod detect;
pub mod names;

pub use crate::fsys::detect::{detect, driver_for, Driver};

use crate::error::{ErrorView, Result};
use vstd::prelude::*;

verus! {

#[derive(Debug, Clone, Copy, PartialEq, Eq, Structural)]
pub enum FileKind {
    File,
    Dir,
    Symlink,
    Other,
}

#[derive(Debug, Clone)]
pub struct DirEntry {
    pub name: String,
    pub kind: FileKind,
    pub size: u64,
}

/// What a [`DirEntry`] says.
pub struct DirEntryView {
    pub name: Seq<char>,
    pub kind: FileKind,
    pub size: u64,
}

impl View for DirEntry {
    type V = DirEntryView;

    open spec fn view(&self) -> DirEntryView {
        DirEntryView { name: self.name@, kind: self.kind, size: self.size }
    }
}

/// Read-only view of a filesystem. Paths are absolute, `/`-separated,
/// rooted at the filesystem (not the guest's mount tree).
///
/// The spec functions say what the filesystem holds; `stable` says that every
/// query is answered from that content. An implementation whose queries can
/// also fail in passing (a network behind it), or of which nothing is proved,
/// leaves `stable` false, and promises nothing.
pub trait FileSystem {
    /// Every query is answered from what the filesystem holds.
    open spec fn stable(&self) -> bool {
        false
    }

    /// The bytes of the regular file at `path`.
    open spec fn file(&self, path: Seq<char>) -> Option<Seq<u8>> {
        None
    }

    /// The entries of the directory at `path`, in the order they are listed.
    open spec fn listing(&self, path: Seq<char>) -> Option<Seq<DirEntryView>> {
        None
    }

    /// What is said where no regular file can be read at `path`.
    open spec fn file_error(&self, path: Seq<char>) -> ErrorView {
        ErrorView::NotFound(path)
    }

    /// What is said where no directory can be listed at `path`.
    open spec fn listing_error(&self, path: Seq<char>) -> ErrorView {
        ErrorView::NotFound(path)
    }

    /// There is something at `path`.
    open spec fn present(&self, path: Seq<char>) -> bool {
        false
    }

    /// The target of the symbolic link at `path`.
    open spec fn target(&self, path: Seq<char>) -> Option<Seq<char>> {
        None
    }

    /// What the filesystem is called: `"vfat"`, `"ext4"`, ...
    open spec fn fs_name(&self) -> Seq<char> {
        seq![]
    }

    /// The volume label.
    open spec fn fs_label(&self) -> Option<Seq<char>> {
        None
    }

    fn fs_type(&self) -> (r: &'static str)
        ensures
            self.stable() ==> r@ == self.fs_name(),
    ;

    fn label(&self) -> (r: Option<String>)
        ensures
            self.stable() ==> crate::text::opt(r) == self.fs_label(),
    ;

    fn read_dir(&self, path: &str) -> (r: Result<Vec<DirEntry>>)
        ensures
            self.stable() ==> match self.listing(path@) {
                Some(l) => r matches Ok(v) && crate::seqs::views(v@) == l,
                None => r matches Err(e) && e@ == self.listing_error(path@),
            },
    ;

    fn read_file(&self, path: &str) -> (r: Result<Vec<u8>>)
        ensures
            self.stable() ==> match self.file(path@) {
                Some(d) => r matches Ok(v) && v@ == d,
                None => r matches Err(e) && e@ == self.file_error(path@),
            },
    ;

    /// The first `max` bytes of a regular file, or all of it if it is shorter.
    fn read_prefix(&self, path: &str, max: usize) -> (r: Result<Vec<u8>>)
        ensures
            self.stable() ==> match self.file(path@) {
                Some(d) => r matches Ok(v) && v@ == (if max < d.len() {
                    d.take(max as int)
                } else {
                    d
                }),
                None => r matches Err(e) && e@ == self.file_error(path@),
            },
    {
        let mut data = self.read_file(path)?;
        data.truncate(max);
        Ok(data)
    }

    /// Whether there is something at `path`.
    fn has(&self, path: &str) -> (r: bool)
        ensures
            self.stable() ==> r == self.present(path@),
    ;

    /// Size in bytes of a regular file (symlinks followed), from inode /
    /// directory metadata only - no data is read. Callers use this as a
    /// cheap cache-validation key for files they extracted earlier.
    fn file_size(&self, path: &str) -> (r: Result<u64>)
        ensures
            self.stable() ==> match self.file(path@) {
                Some(d) => r matches Ok(n) && n == d.len(),
                None => r is Err,
            },
    ;

    /// Symlink target, for filesystems that have them (vfat doesn't).
    fn read_link(&self, path: &str) -> (r: Option<String>)
        ensures
            self.stable() ==> crate::text::opt(r) == self.target(path@),
    ;
}

/// `r` is an answer that `fs` may give when it is asked for the file at `path`:
/// one that its `read_file` may return.
pub open spec fn may_read<F: FileSystem + ?Sized>(
    fs: &F,
    path: Seq<char>,
    r: Result<Vec<u8>>,
) -> bool {
    exists|p: &str| p@ == path && #[trigger] call_ensures(F::read_file, (fs, p), r)
}

/// `r` is an answer that `fs` may give when it is asked for the directory at
/// `path`: one that its `read_dir` may return.
pub open spec fn may_list<F: FileSystem + ?Sized>(
    fs: &F,
    path: Seq<char>,
    r: Result<Vec<DirEntry>>,
) -> bool {
    exists|p: &str| p@ == path && #[trigger] call_ensures(F::read_dir, (fs, p), r)
}

} // verus!
