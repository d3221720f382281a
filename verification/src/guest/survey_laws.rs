//! What a partition adds to what is known of a disk.

use crate::blockdev::{ReadAt, Slice};
use crate::boot::{opt_str, scan_of};
use crate::fsys::detect::{detected, Probe};
use crate::fsys::FileSystem;
use crate::guest::survey::look;
use crate::guest::walk::{with_files, with_partition, with_type, with_volume, Found, Probed};
use crate::guest::{boot_record, loader_in};
use crate::part::PartitionView;
use std::sync::Arc;
use vstd::prelude::*;
use vstd::string::*;

verus! {

/// A partition is told by the bytes of its own window of the disk, and the boot
/// record is looked at only of an NTFS or ReFS volume.
pub proof fn law_how_a_partition_looks<D: ReadAt>(disk: Arc<D>, p: PartitionView)
    ensures
        ({
            let dev = Slice::window(disk, p.start_byte, p.size_bytes);
            let s = look(disk, p);
            &&& s.partition == p
            &&& detected(&dev) matches Probe::Hit(name) ==> s.fs_type == Some(name)
            &&& !(detected(&dev) is Hit) ==> s.fs_type is None && s.loader is None
            &&& s.fs_type == Some("ntfs"@) || s.fs_type == Some("refs"@) ==> (boot_record(
                &dev,
            ) matches Some(record) ==> s.loader == loader_in(record))
            &&& boot_record(&dev) is None ==> s.loader is None
            &&& s.fs_type != Some("ntfs"@) && s.fs_type != Some("refs"@) ==> s.loader is None
        }),
{
}

/// A partition adds what its type says, and then what its filesystem says: an
/// NTFS or ReFS volume as such, ext4 and FAT by their files where they could
/// be opened, and any other nothing.
pub proof fn law_what_a_partition_adds<F: FileSystem>(st: Found<F>, p: Probed<F>, want_entries: bool)
    ensures
        ({
            let typed = with_type(st, p.partition@);
            let after = with_partition(st, p, want_entries);
            &&& p.fs_type is None ==> after == typed
            &&& p.fs_type matches Some(t) ==> {
                &&& t@ == "ntfs"@ || t@ == "refs"@ ==> after == with_volume(
                    typed,
                    p.partition@,
                    t@,
                    opt_str(p.loader),
                )
                &&& (t@ == "ext4"@ || t@ == "vfat"@) && p.fs is None ==> after == typed
                &&& (t@ == "ext4"@ || t@ == "vfat"@) ==> (p.fs matches Some(fs) ==> after == with_files(
                    typed,
                    p.partition@,
                    t@,
                    fs,
                    want_entries,
                ))
                &&& t@ != "ntfs"@ && t@ != "refs"@ && t@ != "ext4"@ && t@ != "vfat"@ ==> after == typed
            }
        }),
{
    reveal_strlit("ntfs");
    reveal_strlit("refs");
    reveal_strlit("ext4");
    reveal_strlit("vfat");
    assert("ntfs"@[0] == 'n' && "refs"@[0] == 'r' && "ext4"@[0] == 'e' && "vfat"@[0] == 'v');
}

/// A filesystem that can be read is kept with what it boots, where that is
/// wanted.
pub proof fn law_readable_partitions_are_kept<F: FileSystem>(
    st: Found<F>,
    p: PartitionView,
    fs_type: Seq<char>,
    fs: F,
)
    ensures
        ({
            let after = with_files(st, p, fs_type, fs, true);
            let bare = with_files(st, p, fs_type, fs, false);
            &&& after.parts.len() == st.parts.len() + 1 && after.parts.drop_last() == st.parts
            &&& after.parts.last().partition == p && after.parts.last().fs_type == fs_type
                && after.parts.last().fs == Some(fs) && after.parts.last().scan == scan_of(&fs)
            &&& bare.parts.last().scan.entries.len() == 0 && bare.parts.last().fs == Some(fs)
            &&& after.ntfs_loader == st.ntfs_loader && after.volumes == st.volumes && after.win_type
                == st.win_type
        }),
{
    assert(with_files(st, p, fs_type, fs, true).parts.drop_last() =~= st.parts);
}

} // verus!
