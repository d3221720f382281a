//! What can be told of the partitions of a disk without opening their
//! filesystems.

use crate::blockdev::{ReadAt, Slice};
use crate::boot::opt_str;
use crate::error::Result;
use crate::fsys::detect::{detect, detected, is_known, Probe};
use crate::guest::{
    boot_record, bootstrapped, is_loader, loader_in, mbr_bootstrap, vbr_loader,
};
use crate::part::{self, table_of, Partition, PartitionView};
use crate::seqs::views;
use crate::text::eq;
use std::sync::Arc;
use vstd::prelude::*;
use vstd::string::*;

verus! {

broadcast use vstd::seq_lib::group_seq_properties;

/// A partition, as it looks from outside.
pub struct Survey {
    pub partition: Partition,
    /// Filesystem as detected: `"vfat"`, `"ext4"`, `"ntfs"`, ...
    pub fs_type: Option<&'static str>,
    /// What the boot record of an NTFS or ReFS volume chains to.
    pub loader: Option<&'static str>,
}

/// What a [`Survey`] says.
pub struct SurveyView {
    pub partition: PartitionView,
    pub fs_type: Option<Seq<char>>,
    pub loader: Option<Seq<char>>,
}

impl View for Survey {
    type V = SurveyView;

    open spec fn view(&self) -> SurveyView {
        SurveyView {
            partition: self.partition@,
            fs_type: opt_str(self.fs_type),
            loader: opt_str(self.loader),
        }
    }
}

/// The filesystem that a device looks like; none, if that cannot be told.
pub open spec fn looks_like<D: ReadAt>(dev: &D) -> Option<Seq<char>> {
    match detected(dev) {
        Probe::Hit(name) => Some(name),
        _ => None,
    }
}

/// How the partition `p` of `disk` looks from outside. Only the boot record of
/// a Windows volume is looked at.
pub open spec fn look<D: ReadAt>(disk: Arc<D>, p: PartitionView) -> SurveyView {
    let dev = Slice::window(disk, p.start_byte, p.size_bytes);
    let fs_type = looks_like(&dev);
    SurveyView {
        partition: p,
        fs_type,
        loader: if fs_type == Some("ntfs"@) || fs_type == Some("refs"@) {
            match boot_record(&dev) {
                Some(vbr) => loader_in(vbr),
                None => None,
            }
        } else {
            None
        },
    }
}

/// How the partitions of `disk` look from outside.
pub open spec fn looks<D: ReadAt>(disk: Arc<D>, parts: Seq<PartitionView>) -> Seq<SurveyView> {
    Seq::new(parts.len(), |i: int| look(disk, parts[i]))
}

/// What a survey says is of the kind it should be: a known filesystem, and a
/// loader only of a Windows volume.
pub open spec fn plausible(s: SurveyView) -> bool {
    &&& s.fs_type matches Some(name) ==> is_known(name)
    &&& s.loader matches Some(name) ==> is_loader(name) && (s.fs_type == Some("ntfs"@) || s.fs_type
        == Some("refs"@))
}

/// Look at a partition.
fn look_at<D: ReadAt>(disk: &Arc<D>, partition: Partition) -> (r: Survey)
    ensures
        disk.sound() ==> r@ == look(*disk, partition@),
        r.partition == partition,
        plausible(r@),
{
    let dev = partition.open(Arc::clone(disk));
    let fs_type: Option<&'static str> = match detect(&dev) {
        Ok(t) => t,
        Err(_) => None,
    };
    let loader: Option<&'static str> = match fs_type {
        Some(t) => {
            if eq(t, "ntfs") || eq(t, "refs") {
                vbr_loader(&dev)
            } else {
                None
            }
        },
        None => None,
    };
    Survey { partition, fs_type, loader }
}

/// Look at a disk: whether it starts with Windows' bootstrap code, and each of
/// its partitions.
pub fn survey<D: ReadAt>(disk: &Arc<D>) -> (r: Result<(bool, Vec<Survey>)>)
    ensures
        r matches Ok((_, list)) ==> forall|i: int|
            0 <= i < list@.len() ==> plausible((#[trigger] list@[i])@),
        disk.sound() ==> match table_of(disk) {
            Ok(t) => r matches Ok((bootstrap, list)) && bootstrap == bootstrapped(disk, t.kind)
                && views(list@) == looks(*disk, t.partitions),
            Err(Some(e)) => r matches Err(x) && x@ == e,
            Err(None) => r is Err,
        },
{
    let table = part::scan(disk)?;
    let bootstrap: bool = mbr_bootstrap(disk, table.kind);
    let ghost all = views(table.partitions@);
    let mut rest = table.partitions;
    let mut out: Vec<Survey> = Vec::new();
    assert(all.skip(0) =~= all);
    while rest.len() > 0
        invariant
            out@.len() <= all.len(),
            views(rest@) == all.skip(out@.len() as int),
            forall|i: int| 0 <= i < out@.len() ==> plausible((#[trigger] out@[i])@),
            disk.sound() ==> forall|i: int|
                0 <= i < out@.len() ==> (#[trigger] out@[i])@ == look(*disk, all[i]),
        decreases rest@.len(),
    {
        let ghost held = rest@;
        assert(views(held).len() == held.len());
        let p = rest.remove(0);
        assert(views(held)[0] == all[out@.len() as int]);
        out.push(look_at(disk, p));
        assert(views(rest@) =~= all.skip(out@.len() as int));
    }
    assert(views(rest@).len() == rest@.len());
    assert(disk.sound() ==> views(out@) =~= looks(*disk, all));
    Ok((bootstrap, out))
}

} // verus!
