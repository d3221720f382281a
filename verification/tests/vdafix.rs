//! Rewriting device names to PARTUUIDs.

use lbx::part::{Partition, PartitionTable, TableKind};
use lbx::vdafix::{fix_cmdline, partition_number};

fn table(parts: &[(usize, Option<&str>)]) -> PartitionTable {
    PartitionTable {
        kind: TableKind::Gpt,
        partitions: parts
            .iter()
            .map(|&(index, uuid)| Partition {
                index,
                start_byte: 0,
                size_bytes: 0,
                kind: "Linux filesystem".into(),
                type_id: "0fc63daf-8483-4772-8e79-3d69d8477de4".into(),
                name: None,
                probe_worthy: true,
                part_uuid: uuid.map(str::to_string),
            })
            .collect(),
    }
}

#[test]
fn partition_numbers() {
    assert_eq!(partition_number("/dev/sda2"), Some(2));
    assert_eq!(partition_number("/dev/vdb13"), Some(13));
    assert_eq!(partition_number("/dev/xvda1"), Some(1));
    assert_eq!(partition_number("/dev/nvme0n1p3"), Some(3));
    assert_eq!(partition_number("/dev/mmcblk0p2"), Some(2));
    assert_eq!(partition_number("/dev/sda"), None); // whole disk
    assert_eq!(partition_number("/dev/nvme0n1"), None); // whole disk
    assert_eq!(partition_number("/dev/dm-0"), None);
    assert_eq!(partition_number("UUID=abcd"), None);
    assert_eq!(partition_number("/dev/sd2"), None); // no disk letter
}

#[test]
fn rewrites_root_and_resume() {
    let t = table(&[(1, Some("aaaa-01")), (2, Some("bbbb-02"))]);
    let fixed = fix_cmdline("root=/dev/sda2 ro  resume=/dev/sda1 quiet", &t);
    assert_eq!(
        fixed.as_deref(),
        Some("root=PARTUUID=bbbb-02 ro  resume=PARTUUID=aaaa-01 quiet")
    );
}

#[test]
fn leaves_portable_and_unresolvable_alone() {
    let t = table(&[(2, Some("bbbb-02"))]);
    assert_eq!(fix_cmdline("root=UUID=1234 quiet", &t), None);
    assert_eq!(fix_cmdline("root=PARTUUID=bbbb-02", &t), None);
    assert_eq!(fix_cmdline("root=LABEL=cloudimg-rootfs", &t), None);
    // Partition 3 not in the table; partition 2 has no part_uuid.
    assert_eq!(fix_cmdline("root=/dev/sda3", &t), None);
    let no_uuid = table(&[(2, None)]);
    assert_eq!(fix_cmdline("root=/dev/sda2", &no_uuid), None);
    // rootfstype= must not be mistaken for root=.
    assert_eq!(fix_cmdline("rootfstype=ext4", &t), None);
}

#[test]
fn partial_fix_still_counts() {
    let t = table(&[(2, Some("bbbb-02"))]);
    let fixed = fix_cmdline("root=/dev/vda2 resume=/dev/vda9", &t);
    assert_eq!(fixed.as_deref(), Some("root=PARTUUID=bbbb-02 resume=/dev/vda9"));
}

#[test]
fn whitespace_around_words_is_kept() {
    let t = table(&[(2, Some("bbbb-02"))]);
    assert_eq!(
        fix_cmdline("\t quiet  root=/dev/sda2\n", &t).as_deref(),
        Some("\t quiet  root=PARTUUID=bbbb-02\n")
    );
}

#[test]
fn a_fixed_command_line_needs_no_more_fixing() {
    let t = table(&[(2, Some("bbbb-02"))]);
    let fixed = fix_cmdline("root=/dev/sda2 ro", &t).unwrap();
    assert_eq!(fix_cmdline(&fixed, &t), None);
}
