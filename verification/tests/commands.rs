//! The commands over whole images.

use flate2::write::GzEncoder;
use lbx::boot::{BootEntry, BootScan, Source};
use lbx::cli::commands::{
    boot_info, entries_json, entries_report, ls, output_data, plan_extraction,
};
use lbx::fsys::{DirEntry, FileKind, FileSystem};
use lbx::part::{Partition, PartitionTable, TableKind};
use lbx::{Error, Result};
use std::io::Write;

/// A filesystem of a few files.
struct Files(Vec<(&'static str, &'static str)>);

impl FileSystem for Files {
    fn fs_type(&self) -> &'static str {
        "ext4"
    }
    fn label(&self) -> Option<String> {
        None
    }
    fn read_dir(&self, path: &str) -> Result<Vec<DirEntry>> {
        let prefix = format!("{}/", path.trim_end_matches('/'));
        let mut out: Vec<DirEntry> = Vec::new();
        for (name, data) in &self.0 {
            let Some(rest) = name.strip_prefix(&prefix) else { continue };
            let first = rest.split('/').next().unwrap();
            if out.iter().all(|e| e.name != first) {
                out.push(DirEntry {
                    name: first.to_string(),
                    kind: if rest.contains('/') { FileKind::Dir } else { FileKind::File },
                    size: data.len() as u64,
                });
            }
        }
        if out.is_empty() {
            return Err(Error::NotADirectory(path.to_string()));
        }
        Ok(out)
    }
    fn read_file(&self, path: &str) -> Result<Vec<u8>> {
        match self.0.iter().find(|f| f.0 == path) {
            Some(f) => Ok(f.1.as_bytes().to_vec()),
            None => Err(Error::NotFound(path.to_string())),
        }
    }
    fn has(&self, path: &str) -> bool {
        let prefix = format!("{}/", path.trim_end_matches('/'));
        self.0.iter().any(|f| f.0 == path || f.0.starts_with(&prefix))
    }
    fn read_link(&self, _path: &str) -> Option<String> {
        None
    }
    fn file_size(&self, path: &str) -> Result<u64> {
        self.read_file(path).map(|d| d.len() as u64)
    }
}

fn partition(index: usize) -> Partition {
    Partition {
        index,
        start_byte: 0,
        size_bytes: 0,
        kind: "Linux".into(),
        type_id: "0x83".into(),
        name: None,
        probe_worthy: true,
        part_uuid: Some(format!("cafe-{index:02}")),
    }
}

fn table() -> PartitionTable {
    PartitionTable { kind: TableKind::Mbr, partitions: vec![partition(1), partition(2)] }
}

fn image() -> Vec<(Partition, Files)> {
    let empty = Files(vec![("/etc/motd", "hello")]);
    let boots = Files(vec![
        (
            "/boot/grub/grub.cfg",
            "menuentry 'One' {\n linux /boot/k1 root=/dev/sda2 ro\n initrd /boot/i1\n}\n\
             menuentry 'Two' {\n linux /boot/k2 quiet\n}\n",
        ),
        ("/boot/k1", "kernel"),
        ("/boot/i1", "initrd"),
        ("/boot/k2", "other"),
    ]);
    vec![(partition(1), empty), (partition(2), boots)]
}

#[test]
fn entries_are_reported_by_partition() {
    assert_eq!(
        entries_report(&image(), &table()).unwrap(),
        [
            "partition 2 (ext4):",
            "* [1] One (grub)",
            "      kernel:  p2:/boot/k1",
            "      initrd:  p2:/boot/i1",
            "      cmdline: root=/dev/sda2 ro",
            "      vdafix:  root=PARTUUID=cafe-02 ro",
            "  [2] Two (grub)",
            "      kernel:  p2:/boot/k2",
            "      cmdline: quiet",
        ]
    );
}

#[test]
fn an_image_without_entries_is_refused() {
    let mut fss = image();
    fss.truncate(1);
    assert_eq!(entries_report(&fss, &table()), Err("no boot entries found in any partition".into()));
    assert_eq!(entries_json(&fss, &table()), "[]");
    let none = "no boot artifacts (kernel/initramfs) found in any partition";
    assert_eq!(boot_info(&fss, &table(), false), Err(none.into()));
    assert_eq!(boot_info(&fss, &table(), true), Err(none.into()));
}

#[test]
fn entries_come_as_an_array() {
    let text = entries_json(&image(), &table());
    assert!(text.starts_with("[{") && text.ends_with("}]"));
    assert_eq!(text.matches("},{").count(), 1);
    assert!(text.contains("p2:/boot/k1") && text.contains("p2:/boot/k2"));
}

#[test]
fn the_default_entry_is_shown() {
    assert_eq!(
        boot_info(&image(), &table(), false).unwrap(),
        [
            "kernel:  p2:/boot/k1",
            "initrd:  p2:/boot/i1",
            "cmdline: root=/dev/sda2 ro",
            "vdafix:  root=PARTUUID=cafe-02 ro",
            "source:  grub",
        ]
    );
    let json = boot_info(&image(), &table(), true).unwrap();
    assert_eq!(json.len(), 1);
    assert!(json[0].contains("p2:/boot/grub/grub.cfg"));
}

fn boot_scan() -> BootScan {
    let one = BootEntry {
        title: Some("One".into()),
        kernel: Some("/k1".into()),
        initrd: vec!["/i1".into(), "/i2".into()],
        cmdline: Some("root=/dev/vda1".into()),
        source: Source::Grub,
        ..Default::default()
    };
    let two = BootEntry { source: Source::Bls, ..Default::default() };
    BootScan { entries: vec![one, two], default: Some(0), configs: vec!["/grub.cfg".into()] }
}

#[test]
fn an_extraction_is_planned() {
    let plan = plan_extraction(3, "vfat", &boot_scan(), None, true, &table()).ok().unwrap();
    assert_eq!(plan.index, 0);
    assert_eq!(
        plan.lines,
        [
            "partition 3 (vfat), entry 1 (grub):",
            "      kernel:  p3:/k1",
            "      initrd:  p3:/i1",
            "      initrd:  p3:/i2",
            "      cmdline: root=/dev/vda1",
            "      vdafix:  root=PARTUUID=cafe-01",
            "      config:  p3:/grub.cfg",
        ]
    );
    assert_eq!(plan.kernel, "/k1");
    assert_eq!(plan.copies, ["/i1", "/i2", "/grub.cfg"]);
    assert_eq!(plan.cmdline.as_deref(), Some("root=PARTUUID=cafe-01"));

    let plan = plan_extraction(3, "vfat", &boot_scan(), Some(1), false, &table()).ok().unwrap();
    assert_eq!(plan.cmdline.as_deref(), Some("root=/dev/vda1"));
}

#[test]
fn an_extraction_needs_an_entry_with_a_kernel() {
    let refused = |n| plan_extraction(1, "vfat", &boot_scan(), Some(n), false, &table()).err();
    assert_eq!(refused(0).as_deref(), Some("entry 0 out of range (1..=2)"));
    assert_eq!(refused(3).as_deref(), Some("entry 3 out of range (1..=2)"));
    assert_eq!(refused(2).as_deref(), Some("selected entry has no kernel path"));
}

#[test]
fn only_what_is_asked_for_is_unwrapped() {
    let mut image = vec![0u8; 64];
    image[56..60].copy_from_slice(b"ARMd");
    let mut encoder = GzEncoder::new(Vec::new(), flate2::Compression::default());
    encoder.write_all(&image).unwrap();
    let gz = encoder.finish().unwrap();
    assert_eq!(output_data(gz.clone(), false).ok(), Some(gz.clone()));
    assert_eq!(output_data(gz, true).ok(), Some(image));
    assert_eq!(output_data(b"plain".to_vec(), true).ok(), Some(b"plain".to_vec()));
}

#[test]
fn directories_are_listed_under_a_heading() {
    let fss = image();
    let grub = format!("{:>12}  grub/", fss[1].1 .0[0].1.len());
    assert_eq!(
        ls(&fss, "/boot", None),
        [
            "# partition 2 (ext4):/boot",
            grub.as_str(),
            "           6  i1",
            "           6  k1",
            "           5  k2",
        ]
    );
    assert_eq!(ls(&image(), "/etc", Some(1)), ["# partition 1 (ext4):/etc", "           5  motd"]);
    assert!(ls(&image(), "/none", None).is_empty());
}
