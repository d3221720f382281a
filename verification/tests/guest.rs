//! Windows installs, and the merged answer.

use lbx::boot::{Firmware, Source};
use lbx::fsys::{DirEntry, FileKind, FileSystem};
use lbx::guest::walk::{bootable, windows, Probed};
use lbx::guest::{
    find_path, is_windows_bootstrap, mbr_bootstrap, path_of, pe_arch, same_file, survey, uri,
    uri_partition, vbr_loader, Windows,
};
use lbx::part::{gpt, Partition, TableKind};
use lbx::{Error, Result};
use std::collections::{BTreeMap, BTreeSet};
use std::sync::Arc;

/// In-memory filesystem.
struct MockFs {
    files: BTreeMap<String, Vec<u8>>,
}

impl MockFs {
    fn new<const N: usize>(files: [(&str, &str); N]) -> MockFs {
        MockFs {
            files: files
                .into_iter()
                .map(|(k, v)| (k.to_string(), v.as_bytes().to_vec()))
                .collect(),
        }
    }

    fn with(mut self, path: &str, data: Vec<u8>) -> MockFs {
        self.files.insert(path.to_string(), data);
        self
    }
}

impl FileSystem for MockFs {
    fn fs_type(&self) -> &'static str {
        "mock"
    }
    fn label(&self) -> Option<String> {
        None
    }
    fn read_dir(&self, path: &str) -> Result<Vec<DirEntry>> {
        let prefix = format!("{}/", path.trim_end_matches('/'));
        let mut names = BTreeSet::new();
        let mut out = Vec::new();
        for (key, data) in &self.files {
            let Some(rest) = key.strip_prefix(&prefix) else { continue };
            let first = rest.split('/').next().unwrap();
            if !names.insert(first.to_string()) {
                continue;
            }
            out.push(DirEntry {
                name: first.to_string(),
                kind: if rest.contains('/') { FileKind::Dir } else { FileKind::File },
                size: data.len() as u64,
            });
        }
        Ok(out)
    }
    fn read_file(&self, path: &str) -> Result<Vec<u8>> {
        self.files.get(path).cloned().ok_or_else(|| Error::NotFound(path.to_string()))
    }
    fn has(&self, path: &str) -> bool {
        let prefix = format!("{}/", path.trim_end_matches('/'));
        path == "/"
            || self.files.contains_key(path)
            || self.files.keys().any(|k| k.starts_with(&prefix))
    }
    fn read_link(&self, _path: &str) -> Option<String> {
        None
    }
    fn file_size(&self, path: &str) -> Result<u64> {
        self.read_file(path).map(|d| d.len() as u64)
    }
}

const BOOT_MANAGER: &[&str] = &["EFI", "Microsoft", "Boot", "bootmgfw.efi"];
const BCD: &[&str] = &["EFI", "Microsoft", "Boot", "BCD"];

/// Minimal PE: "MZ", the header offset at 0x3c, then "PE\0\0" + machine.
fn pe(machine: u16) -> Vec<u8> {
    let pe_off = 0x80usize;
    let mut v = vec![0u8; pe_off + 8];
    v[0..2].copy_from_slice(b"MZ");
    v[0x3c..0x40].copy_from_slice(&(pe_off as u32).to_le_bytes());
    v[pe_off..pe_off + 4].copy_from_slice(b"PE\0\0");
    v[pe_off + 4..pe_off + 6].copy_from_slice(&machine.to_le_bytes());
    v
}

#[test]
fn pe_machine_types() {
    assert_eq!(pe_arch(&pe(0x8664)), Some("x86_64"));
    assert_eq!(pe_arch(&pe(0xaa64)), Some("aarch64"));
    assert_eq!(pe_arch(&pe(0x014c)), Some("i386"));
    assert_eq!(pe_arch(&pe(0x5678)), None); // unknown machine
    assert_eq!(pe_arch(b"not a PE at all"), None);
    assert_eq!(pe_arch(&pe(0x8664)[..0x20]), None); // truncated read
}

#[test]
fn windows_mbr_bootstrap_needs_two_messages() {
    let mut sector = [0u8; 512];
    sector[10..33].copy_from_slice(b"Invalid partition table");
    assert!(!is_windows_bootstrap(&sector), "one message is not enough");
    sector[40..64].copy_from_slice(b"Missing operating system");
    assert!(is_windows_bootstrap(&sector));

    // A message living outside the bootstrap area (in the partition
    // table or the 55aa marker region) must not count.
    let mut tail = [0u8; 512];
    tail[446..469].copy_from_slice(b"Invalid partition table");
    tail[470..494].copy_from_slice(b"Missing operating system");
    assert!(!is_windows_bootstrap(&tail));
}

#[test]
fn finds_boot_manager_whatever_the_case() {
    let fs = MockFs::new([
        ("/EFI/Microsoft/Boot/bootmgfw.efi", "MZ"),
        ("/EFI/Microsoft/Boot/BCD", "hive"),
    ]);
    assert_eq!(
        find_path(&fs, BOOT_MANAGER).as_deref(),
        Some("/EFI/Microsoft/Boot/bootmgfw.efi")
    );
    assert_eq!(find_path(&fs, BCD).as_deref(), Some("/EFI/Microsoft/Boot/BCD"));

    let lower = MockFs::new([("/efi/microsoft/boot/BOOTMGFW.EFI", "MZ")]);
    assert_eq!(
        find_path(&lower, BOOT_MANAGER).as_deref(),
        Some("/efi/microsoft/boot/BOOTMGFW.EFI")
    );
}

#[test]
fn linux_esp_has_no_boot_manager() {
    let fs = MockFs::new([
        ("/EFI/BOOT/BOOTAA64.EFI", "MZ"),
        ("/EFI/debian/grub.cfg", "menuentry 'Debian' {}"),
    ]);
    assert_eq!(find_path(&fs, BOOT_MANAGER), None);
    assert_eq!(find_path(&fs, BCD), None);
}

#[test]
fn chainloader_targets_match_the_boot_manager() {
    let found = "/EFI/Microsoft/Boot/bootmgfw.efi";
    assert!(same_file("/EFI/Microsoft/Boot/bootmgfw.efi", found));
    assert!(same_file("/efi/microsoft/boot/bootmgfw.efi", found)); // FAT case
    assert!(same_file("\\EFI\\Microsoft\\Boot\\bootmgfw.efi", found)); // BCD style
    assert!(same_file("/EFI/MICROSOFT/BOOT/BOOTMGFW.EFI", found));
    assert!(!same_file("/EFI/ubuntu/grubx64.efi", found));
    assert!(!same_file("+1", found)); // chainload a boot sector
}

#[test]
fn uri_parts() {
    assert_eq!(uri(2, "/EFI/x.efi"), "p2:/EFI/x.efi");
    assert_eq!(uri_partition("p12:/EFI/x.efi"), Some(12));
    assert_eq!(uri_partition("/EFI/x.efi"), None);
    assert_eq!(path_of("p1:/EFI/x.efi"), "/EFI/x.efi");
}

#[test]
fn summary_reports_what_is_known() {
    let w = Windows {
        firmware: Some(Firmware::Uefi),
        arch: Some("x86_64"),
        ..Default::default()
    };
    assert_eq!(w.summary(), "uefi, x86_64");
    assert_eq!(Windows::default().summary(), "no boot manager found");
}

fn partition(index: usize, kind: &str, type_id: &str) -> Partition {
    Partition {
        index,
        start_byte: 0,
        size_bytes: 0,
        kind: kind.into(),
        type_id: type_id.into(),
        name: None,
        probe_worthy: true,
        part_uuid: None,
    }
}

fn esp(fs: MockFs) -> Probed<MockFs> {
    Probed {
        partition: partition(1, "EFI System", "c12a7328-f81f-11d2-ba4b-00a0c93ec93b"),
        fs_type: Some("vfat"),
        loader: None,
        fs: Some(fs),
    }
}

fn ntfs(index: usize, loader: Option<&'static str>) -> Probed<MockFs> {
    Probed {
        partition: partition(index, "Microsoft basic data", gpt::MS_BASIC_DATA),
        fs_type: Some("ntfs"),
        loader,
        fs: None,
    }
}

#[test]
fn an_undeclared_windows_gets_an_entry() {
    let fs = MockFs::new([("/EFI/Microsoft/Boot/BCD", "hive")])
        .with("/EFI/Microsoft/Boot/bootmgfw.efi", pe(0x8664));
    let found = windows(false, vec![
        esp(MockFs::new([("/EFI/Microsoft/Boot/BCD", "hive")])
            .with("/EFI/Microsoft/Boot/bootmgfw.efi", pe(0x8664))),
        ntfs(3, None),
    ])
    .unwrap();
    assert_eq!(found.firmware, Some(Firmware::Uefi));
    assert_eq!(found.arch, Some("x86_64"));
    assert_eq!(found.boot_manager.as_deref(), Some("p1:/EFI/Microsoft/Boot/bootmgfw.efi"));
    assert_eq!(found.bcd.as_deref(), Some("p1:/EFI/Microsoft/Boot/BCD"));
    assert_eq!(found.summary(), "uefi, x86_64");
    assert!(found.evidence.contains(
        &"p1: Windows boot manager /EFI/Microsoft/Boot/bootmgfw.efi".to_string()
    ));

    let parts = bootable(false, vec![esp(fs), ntfs(3, None)]);
    assert_eq!(parts.len(), 1);
    assert_eq!(parts[0].partition.index, 1);
    let e = &parts[0].scan.entries[0];
    assert_eq!(e.source, Source::Windows);
    let w = e.windows.as_ref().unwrap();
    assert_eq!(w.firmware, Firmware::Uefi);
    assert_eq!(w.loader.as_deref(), Some("p1:/EFI/Microsoft/Boot/bootmgfw.efi"));
    assert_eq!(parts[0].scan.default, Some(0));
}

#[test]
fn a_data_disk_boots_nothing() {
    let found = windows(false, vec![ntfs(1, Some("bootmgr"))]).unwrap();
    assert_eq!(found.firmware, None);
    assert_eq!(found.summary(), "no boot manager found");
    assert!(bootable(false, vec![ntfs(1, Some("bootmgr"))]).is_empty());
    // Nothing of Windows, nothing to say.
    assert!(windows(false, vec![esp(MockFs::new([("/EFI/BOOT/BOOTX64.EFI", "MZ")]))]).is_none());
}

#[test]
fn a_bios_install_boots_from_its_volume() {
    let found = windows(true, vec![ntfs(2, Some("bootmgr"))]).unwrap();
    assert_eq!(found.firmware, Some(Firmware::Bios));
    let parts = bootable(true, vec![ntfs(2, Some("bootmgr"))]);
    assert_eq!(parts.len(), 1);
    assert_eq!(parts[0].partition.index, 2);
    assert_eq!(parts[0].scan.entries[0].source, Source::Windows);
}

#[test]
fn declared_windows_entries_are_resolved() {
    let boot = MockFs::new([
        (
            "/grub/grub.cfg",
            "set default=\"w\"\nmenuentry 'Linux' {\n linux /vmlinuz\n}\nmenuentry 'Windows' --id w {\n chainloader /efi/microsoft/boot/bootmgfw.efi\n}\nmenuentry 'Other' {\n chainloader +1\n}\n",
        ),
        ("/vmlinuz", "k"),
    ]);
    let parts = bootable(false, vec![
        esp(MockFs::new([]).with("/EFI/Microsoft/Boot/bootmgfw.efi", pe(0xaa64))),
        Probed {
            partition: partition(2, "Linux filesystem", "0fc63daf-8483-4772-8e79-3d69d8477de4"),
            fs_type: Some("ext4"),
            loader: None,
            fs: Some(boot),
        },
    ]);
    assert_eq!(parts.len(), 1);
    assert_eq!(parts[0].partition.index, 2);
    let entries = &parts[0].scan.entries;
    assert_eq!(entries.len(), 2);
    assert_eq!(entries[0].kernel.as_deref(), Some("/vmlinuz"));
    let w = entries[1].windows.as_ref().unwrap();
    assert_eq!(w.arch, Some("aarch64"));
    assert_eq!(parts[0].scan.default, Some(1));
}

#[test]
fn volume_boot_records_name_their_loader() {
    let mut dev = vec![0u8; 8192];
    assert_eq!(vbr_loader(&dev), None);
    dev[100..105].copy_from_slice(b"NTLDR");
    assert_eq!(vbr_loader(&dev), Some("ntldr")); // XP / 2003
    dev[1000..1007].copy_from_slice(b"BOOTMGR");
    assert_eq!(vbr_loader(&dev), Some("bootmgr"));
}

#[test]
fn only_an_mbr_has_a_bootstrap() {
    let mut disk = vec![0u8; 512];
    disk[10..33].copy_from_slice(b"Invalid partition table");
    disk[40..64].copy_from_slice(b"Missing operating system");
    assert!(mbr_bootstrap(&disk, TableKind::Mbr));
    assert!(!mbr_bootstrap(&disk, TableKind::Gpt));
}

#[test]
fn a_disk_is_surveyed_from_outside() {
    let mut disk = vec![0u8; 512 * 100];
    disk[10..33].copy_from_slice(b"Invalid partition table");
    disk[40..64].copy_from_slice(b"Missing operating system");
    disk[510..512].copy_from_slice(&[0x55, 0xaa]);
    for (slot, kind, start, sectors) in [(0, 7u8, 10u32, 20u32), (1, 0x0c, 40, 20), (2, 7, 90, 50)] {
        let e = 446 + slot * 16;
        disk[e + 4] = kind;
        disk[e + 8..e + 12].copy_from_slice(&start.to_le_bytes());
        disk[e + 12..e + 16].copy_from_slice(&sectors.to_le_bytes());
    }
    disk[5123..5131].copy_from_slice(b"NTFS    ");
    disk[5500..5507].copy_from_slice(b"BOOTMGR");
    // The boot record of a FAT volume is not asked for a loader.
    disk[512 * 40] = 0xeb;
    disk[512 * 40 + 82..512 * 40 + 90].copy_from_slice(b"FAT32   ");
    disk[512 * 40 + 200..512 * 40 + 207].copy_from_slice(b"BOOTMGR");
    let (bootstrap, list) = survey(&Arc::new(disk)).unwrap();
    assert!(bootstrap);
    let told: Vec<_> =
        list.iter().map(|s| (s.partition.index, s.fs_type, s.loader)).collect();
    assert_eq!(
        told,
        vec![(1, Some("ntfs"), Some("bootmgr")), (2, Some("vfat"), None), (3, None, None)]
    );
    let probed: Vec<Probed<MockFs>> = list
        .into_iter()
        .map(|s| Probed { partition: s.partition, fs_type: s.fs_type, loader: s.loader, fs: None })
        .collect();
    let parts = bootable(bootstrap, probed);
    assert_eq!(parts.len(), 1);
    assert_eq!(parts[0].partition.index, 1);
    assert_eq!(parts[0].scan.entries[0].source, Source::Windows);
}
