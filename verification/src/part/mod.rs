//! Partition table parsing (MBR incl. extended partitions, GPT).
//!
//! LVM is deliberately a later milestone: /boot is almost always a plain
//! partition even on LVM installs. When added, it will slot in here as
//! another layer that turns PV slices into LV `ReadAt` devices.
//!
//! Byte offsets are computed in 64 bits and wrap around: a corrupt table can
//! name any sector.

pub mod gpt;
pub mod gpt_laws;
pub mod mbr;
pub mod mbr_laws;

use crate::blockdev::{reads, ReadAt, Slice};
use crate::bytes::{field, le};
use crate::error::{ErrorView, Result};
use crate::seqs::views;
use crate::text::opt;
use std::sync::Arc;
use vstd::prelude::*;
use vstd::string::*;

verus! {

broadcast use vstd::seq_lib::group_seq_properties;

pub const SECTOR: u64 = 512;

#[derive(Debug, Clone, Copy, PartialEq, Eq, Structural)]
pub enum TableKind {
    Gpt,
    Mbr,
    /// No table; the whole disk is (possibly) one filesystem.
    NoTable,
}

impl TableKind {
    /// How the kind is called in output.
    pub fn label(&self) -> (r: &'static str)
        ensures
            r@ == (match *self {
                TableKind::Gpt => "Gpt"@,
                TableKind::Mbr => "Mbr"@,
                TableKind::NoTable => "None"@,
            }),
    {
        match self {
            TableKind::Gpt => "Gpt",
            TableKind::Mbr => "Mbr",
            TableKind::NoTable => "None",
        }
    }
}

#[derive(Debug, Clone)]
pub struct Partition {
    /// 1-based index as a user would address it (GPT slot / MBR position).
    pub index: usize,
    pub start_byte: u64,
    pub size_bytes: u64,
    /// Human-readable type, e.g. "EFI System", "Linux filesystem", "0x83".
    pub kind: String,
    /// The type as the table stores it: a GUID, or `0x83` for MBR.
    pub type_id: String,
    /// GPT partition name, if any.
    pub name: Option<String>,
    /// True for types worth probing for boot files (ESP, Linux, XBOOTLDR).
    pub probe_worthy: bool,
    /// What Linux calls PARTUUID: the GPT unique partition GUID, or
    /// `<mbr-disk-signature>-<NN>` for MBR disks. `None` when the table
    /// provides neither (zeroed GUID, MBR without a signature).
    pub part_uuid: Option<String>,
}

/// What a [`Partition`] says.
pub struct PartitionView {
    pub index: int,
    pub start_byte: u64,
    pub size_bytes: u64,
    pub kind: Seq<char>,
    pub type_id: Seq<char>,
    pub name: Option<Seq<char>>,
    pub probe_worthy: bool,
    pub part_uuid: Option<Seq<char>>,
}

impl View for Partition {
    type V = PartitionView;

    open spec fn view(&self) -> PartitionView {
        PartitionView {
            index: self.index as int,
            start_byte: self.start_byte,
            size_bytes: self.size_bytes,
            kind: self.kind@,
            type_id: self.type_id@,
            name: opt(self.name),
            probe_worthy: self.probe_worthy,
            part_uuid: opt(self.part_uuid),
        }
    }
}

impl Partition {
    /// Expose this partition as its own read-only device.
    pub fn open<D: ReadAt>(&self, disk: Arc<D>) -> (r: Slice<Arc<D>>)
        ensures
            r == Slice::window(disk, self.start_byte, self.size_bytes),
            r.spec_parent() == disk,
            r.spec_start() == self.start_byte,
            r.spec_len() == self.size_bytes,
    {
        Slice::new(disk, self.start_byte, self.size_bytes)
    }
}

#[derive(Debug, Clone)]
pub struct PartitionTable {
    pub kind: TableKind,
    pub partitions: Vec<Partition>,
}

/// What looking for one kind of table yields.
pub enum Scanned {
    /// There is no such table.
    Absent,
    Table(Seq<PartitionView>),
    /// There is one, and it is not accepted.
    Refused(ErrorView),
    /// A part of it could not be read.
    Unreadable,
}

/// A number in 64 bits.
pub open spec fn wrap(n: int) -> u64 {
    (n % 0x1_0000_0000_0000_0000) as u64
}

/// The indices go up, so no two partitions have the same one.
pub open spec fn indices_ascend(p: Seq<PartitionView>) -> bool {
    forall|i: int, j: int|
        0 <= i < j < p.len() ==> (#[trigger] p[i]).index < (#[trigger] p[j]).index
}

/// The pseudo-partition that spans a disk without a table.
pub open spec fn whole_disk(size: u64) -> PartitionView {
    PartitionView {
        index: 1,
        start_byte: 0,
        size_bytes: size,
        kind: "whole disk"@,
        type_id: ""@,
        name: None,
        probe_worthy: true,
        part_uuid: None,
    }
}

/// What the partition table of a disk says.
pub struct TableView {
    pub kind: TableKind,
    pub partitions: Seq<PartitionView>,
}

impl View for PartitionTable {
    type V = TableView;

    open spec fn view(&self) -> TableView {
        TableView { kind: self.kind, partitions: views(self.partitions@) }
    }
}

/// What scanning a disk yields; nothing, where a part cannot be read.
pub open spec fn table_of<D: ReadAt>(disk: &D) -> core::result::Result<TableView, Option<ErrorView>> {
    match gpt::gpt_of(disk) {
        Scanned::Table(p) => Ok(TableView { kind: TableKind::Gpt, partitions: p }),
        Scanned::Refused(e) => Err(Some(e)),
        Scanned::Unreadable => Err(None),
        Scanned::Absent => match mbr::mbr_of(disk) {
            Scanned::Table(p) => Ok(TableView { kind: TableKind::Mbr, partitions: p }),
            Scanned::Refused(e) => Err(Some(e)),
            Scanned::Unreadable => Err(None),
            Scanned::Absent => Ok(
                TableView {
                    kind: TableKind::NoTable,
                    partitions: seq![whole_disk(disk.bytes().len() as u64)],
                },
            ),
        },
    }
}

/// Detect and parse the partition table. A disk with no recognizable table
/// returns `TableKind::NoTable` and a single pseudo-partition spanning the
/// disk, so callers can treat filesystem-on-bare-disk images uniformly.
pub fn scan<D: ReadAt>(disk: &D) -> (r: Result<PartitionTable>)
    ensures
        r matches Ok(t) ==> match t.kind {
            TableKind::NoTable => exists|size: u64| t@.partitions == seq![#[trigger] whole_disk(size)],
            TableKind::Mbr => t@.partitions.len() > 0,
            TableKind::Gpt => true,
        },
        disk.sound() ==> match table_of(disk) {
            Ok(t) => r matches Ok(x) && x@ == t,
            Err(Some(e)) => r matches Err(x) && x@ == e,
            Err(None) => r is Err,
        },
{
    if let Some(table) = gpt::scan(disk)? {
        return Ok(table);
    }
    if let Some(table) = mbr::scan(disk)? {
        return Ok(table);
    }
    let mut partitions: Vec<Partition> = Vec::new();
    partitions.push(
        Partition {
            index: 1,
            start_byte: 0,
            size_bytes: disk.size(),
            kind: "whole disk".to_owned(),
            type_id: "".to_owned(),
            name: None,
            probe_worthy: true,
            part_uuid: None,
        },
    );
    assert(views(partitions@) =~= seq![whole_disk(partitions@[0].size_bytes)]);
    Ok(PartitionTable { kind: TableKind::NoTable, partitions })
}

/// No two partitions of a disk have the same index.
pub proof fn law_indices_are_distinct<D: ReadAt>(disk: &D)
    ensures
        table_of(disk) matches Ok(t) ==> indices_ascend(t.partitions),
{
    if gpt::gpt_of(disk) is Table {
        let h = reads(disk, SECTOR as int, 92)->0;
        let size = le(field(h, 84, 4));
        let num = le(field(h, 80, 4));
        let table = reads(
            disk,
            wrap((le(field(h, 72, 8)) * 512) as int) as int,
            num * size,
        )->0;
        gpt::law_indices_ascend(table, size, num);
    } else if mbr::mbr_of(disk) is Table {
        mbr::law_indices_ascend(disk, reads(disk, 0, 512)->0);
    }
}

} // verus!
