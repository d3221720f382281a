//! What the command line tool decides and writes.

use lbx::boot::{BootEntry, BootScan, Source};
use lbx::cli::json::{
    boot_info_json, entry_json, entry_object, join_texts, jopt, json_array, jsize, jstr, Facts,
};
use lbx::cli::listing::{listing, sort_by_name};
use lbx::cli::paths::resolve;
use lbx::cli::report::{
    block_lines, boot_info_lines, directory_line, entry_label, entry_lines, extract_line,
    info_line, part_line, partition_line, scan_lines,
};
use lbx::cli::select::{
    best_boot_scan, check_found, choose_entry, choose_part, chosen_cmdline, dest_name,
    fixed_cmdline, keep, list_by_uri, parse_uri, read_by_uri, wanted,
};
use lbx::cli::shell::{request, Outcome, Request, Shell, HELP};
use lbx::fsys::{DirEntry, FileKind, FileSystem};
use lbx::kernel::Compression;
use lbx::part::{Partition, PartitionTable, TableKind};
use lbx::{Error, Result};
use std::collections::{BTreeMap, BTreeSet};

/// In-memory filesystem.
struct MockFs {
    files: BTreeMap<String, Vec<u8>>,
}

impl MockFs {
    fn new<const N: usize>(files: [(&str, &str); N]) -> MockFs {
        MockFs {
            files: files
                .into_iter()
                .map(|(k, v)| (k.to_string(), v.as_bytes().to_vec()))
                .collect(),
        }
    }
}

impl FileSystem for MockFs {
    fn fs_type(&self) -> &'static str {
        "mock"
    }
    fn label(&self) -> Option<String> {
        None
    }
    fn read_dir(&self, path: &str) -> Result<Vec<DirEntry>> {
        if !self.has(path) || self.files.contains_key(path) {
            return Err(Error::NotADirectory(path.to_string()));
        }
        let prefix = format!("{}/", path.trim_end_matches('/'));
        let mut names = BTreeSet::new();
        let mut out = Vec::new();
        for (key, data) in &self.files {
            let Some(rest) = key.strip_prefix(&prefix) else { continue };
            let first = rest.split('/').next().unwrap();
            if !names.insert(first.to_string()) {
                continue;
            }
            out.push(DirEntry {
                name: first.to_string(),
                kind: if rest.contains('/') { FileKind::Dir } else { FileKind::File },
                size: data.len() as u64,
            });
        }
        Ok(out)
    }
    fn read_file(&self, path: &str) -> Result<Vec<u8>> {
        self.files.get(path).cloned().ok_or_else(|| Error::NotFound(path.to_string()))
    }
    fn has(&self, path: &str) -> bool {
        let prefix = format!("{}/", path.trim_end_matches('/'));
        path == "/"
            || self.files.contains_key(path)
            || self.files.keys().any(|k| k.starts_with(&prefix))
    }
    fn read_link(&self, _path: &str) -> Option<String> {
        None
    }
    fn file_size(&self, path: &str) -> Result<u64> {
        self.read_file(path).map(|d| d.len() as u64)
    }
}

fn partition(index: usize, probe_worthy: bool) -> Partition {
    Partition {
        index,
        start_byte: 0,
        size_bytes: 0,
        kind: "Linux".into(),
        type_id: "0x83".into(),
        name: None,
        probe_worthy,
        part_uuid: Some(format!("cafe-{index:02}")),
    }
}

fn entry() -> BootEntry {
    BootEntry {
        title: Some("A \"title\"".into()),
        kernel: Some("/vmlinuz".into()),
        initrd: vec!["/a.img".into(), "/b.img".into()],
        cmdline: Some("root=/dev/sda2 ro".into()),
        source: Source::Grub,
        ..Default::default()
    }
}

// --- URIs and selection ---

#[test]
fn uris_name_a_partition_or_none() {
    assert_eq!(parse_uri("p2:/boot/vmlinuz"), (Some(2), "/boot/vmlinuz".to_string()));
    assert_eq!(parse_uri("p2:boot"), (Some(2), "/boot".to_string()));
    assert_eq!(parse_uri("/boot/vmlinuz"), (None, "/boot/vmlinuz".to_string()));
    assert_eq!(parse_uri("px:/boot"), (None, "px:/boot".to_string()));
    assert_eq!(parse_uri("pfile"), (None, "pfile".to_string()));
    assert_eq!(parse_uri(&lbx::guest::uri(7, "/x")), (Some(7), "/x".to_string()));
    assert_eq!(choose_part(Some(1), Some(2)), Some(1));
    assert_eq!(choose_part(None, Some(2)), Some(2));
}

#[test]
fn unreadable_partitions_are_passed_over() {
    assert!(wanted(&partition(1, true), None));
    assert!(!wanted(&partition(1, false), None));
    assert!(wanted(&partition(1, false), Some(1)));
    assert!(!wanted(&partition(1, true), Some(2)));
    let mut found: Vec<(Partition, u8)> = Vec::new();
    keep(&mut found, None, partition(1, true), Ok(7)).unwrap();
    keep(&mut found, None, partition(2, true), Err(Error::UnknownFilesystem(None))).unwrap();
    assert_eq!(found.len(), 1);
    assert!(keep(&mut found, Some(2), partition(2, true), Err(Error::NoPartitions)).is_err());
    assert!(check_found(1, None).is_ok());
    assert_eq!(check_found(0, None).unwrap_err(), "no readable filesystem found");
    assert_eq!(check_found(0, Some(3)).unwrap_err(), "no readable filesystem found on partition 3");
}

#[test]
fn configs_beat_kernels_that_were_only_found() {
    let loose = || MockFs::new([("/boot/vmlinuz-6.1", "k"), ("/boot/initramfs-6.1.img", "i")]);
    let config = || {
        MockFs::new([
            ("/grub/grub.cfg", "menuentry 'x' {\n linux /vmlinuz\n}\n"),
            ("/vmlinuz", "k"),
        ])
    };
    let (i, s) =
        best_boot_scan(&vec![(partition(1, true), loose()), (partition(2, true), config())])
            .unwrap()
            .unwrap();
    assert_eq!(i, 1);
    assert_eq!(s.entries[0].source, Source::Grub);
    let (i, _) = best_boot_scan(&vec![
        (partition(1, true), MockFs::new([])),
        (partition(2, true), loose()),
        (partition(3, true), loose()),
    ])
    .unwrap()
    .unwrap();
    assert_eq!(i, 1);
    assert!(best_boot_scan(&vec![(partition(1, true), MockFs::new([]))]).unwrap().is_none());
}

#[test]
fn entries_are_chosen_by_number() {
    let scan = BootScan { entries: vec![entry(), entry()], default: Some(1), configs: vec![] };
    assert_eq!(choose_entry(&scan, None), Ok(1));
    assert_eq!(choose_entry(&scan, Some(1)), Ok(0));
    assert_eq!(choose_entry(&scan, Some(0)).unwrap_err(), "entry 0 out of range (1..=2)");
    assert_eq!(choose_entry(&scan, Some(3)).unwrap_err(), "entry 3 out of range (1..=2)");
}

#[test]
fn command_lines_are_rewritten_on_request() {
    let table = PartitionTable { kind: TableKind::Gpt, partitions: vec![partition(2, true)] };
    let fixed = fixed_cmdline(&entry(), &table);
    assert_eq!(fixed.as_deref(), Some("root=PARTUUID=cafe-02 ro"));
    assert_eq!(
        chosen_cmdline(true, &fixed, &entry()).as_deref(),
        Some("root=PARTUUID=cafe-02 ro")
    );
    assert_eq!(chosen_cmdline(false, &fixed, &entry()).as_deref(), Some("root=/dev/sda2 ro"));
    assert_eq!(chosen_cmdline(true, &None, &entry()).as_deref(), Some("root=/dev/sda2 ro"));
    assert_eq!(chosen_cmdline(true, &None, &BootEntry::default()), None);
}

#[test]
fn files_come_from_the_first_partition_that_has_them() {
    let fss = vec![
        (partition(1, true), MockFs::new([("/a", "one"), ("/d/x", "")])),
        (partition(2, true), MockFs::new([("/a", "two"), ("/b", "bee"), ("/d/y", "")])),
    ];
    assert_eq!(read_by_uri(&fss, "/a", None).unwrap(), b"one");
    assert_eq!(read_by_uri(&fss, "/b", None).unwrap(), b"bee");
    assert_eq!(
        read_by_uri(&fss, "/c", None).unwrap_err(),
        "/c: not found on any readable partition"
    );
    assert_eq!(read_by_uri(&fss, "/c", Some(2)).unwrap_err(), "/c: not found on partition 2");
    let lists = list_by_uri(&fss, "/d", None);
    assert_eq!(lists.len(), 1);
    assert_eq!(lists[0].0, 0);
    assert_eq!(lists[0].1[0].name, "x");
    assert_eq!(list_by_uri(&fss, "/d", Some(1)).len(), 2);
    assert!(list_by_uri(&fss, "/none", None).is_empty());
    assert_eq!(dest_name("/boot/vmlinuz"), "vmlinuz");
    assert_eq!(dest_name("vmlinuz"), "vmlinuz");
}

// --- JSON ---

#[test]
fn json_strings_are_escaped() {
    assert_eq!(jstr("a\"b\\c\nd\re\tf\u{1}g\u{1f}é"), "\"a\\\"b\\\\c\\nd\\re\\tf\\u0001g\\u001fé\"");
    assert_eq!(jopt(None), "null");
    assert_eq!(jopt(Some("x")), "\"x\"");
    assert_eq!(jsize(None), "null");
    assert_eq!(jsize(Some(42)), "42");
    assert_eq!(json_array(&vec![]), "[]");
    assert_eq!(json_array(&vec!["1".into(), "2".into()]), "[1,2]");
    assert_eq!(join_texts(&vec!["a".into(), "b".into()], ", "), "a, b");
}

#[test]
fn entries_as_json() {
    let facts = Facts {
        kernel_size: Some(10),
        initrd_size: vec![Some(3), None],
        dma_restricted_pool: Some(true),
        kernel_compression: Some(Compression::Zboot("zstd".into())),
    };
    assert_eq!(
        entry_object(2, true, &entry(), Some("root=PARTUUID=x ro"), &facts),
        "{\"partition\":2,\"default\":true,\"source\":\"grub\",\"title\":\"A \\\"title\\\"\",\
         \"version\":null,\"id\":null,\"kernel\":\"p2:/vmlinuz\",\"kernel_size\":10,\
         \"initrd\":[\"p2:/a.img\",\"p2:/b.img\"],\"initrd_size\":[3,null],\
         \"cmdline\":\"root=/dev/sda2 ro\",\"cmdline_fixed\":\"root=PARTUUID=x ro\",\
         \"dma_restricted_pool\":true,\"kernel_compression\":\"zboot+zstd\"}"
    );
    let fs = MockFs::new([("/vmlinuz", "kernel"), ("/a.img", "i")]);
    let mut plain = entry();
    plain.title = None;
    let e = "{\"partition\":1,\"default\":true,\"source\":\"grub\",\"title\":null,\
         \"version\":null,\"id\":null,\"kernel\":\"p1:/vmlinuz\",\"kernel_size\":6,\
         \"initrd\":[\"p1:/a.img\",\"p1:/b.img\"],\"initrd_size\":[1,null],\
         \"cmdline\":\"root=/dev/sda2 ro\",\"cmdline_fixed\":null,\
         \"dma_restricted_pool\":null,\"kernel_compression\":null}";
    assert_eq!(entry_json(1, true, &plain, None, &fs, None), e);
    assert_eq!(
        boot_info_json(1, &plain, None, &vec!["/grub/grub.cfg".into()], &fs, None),
        format!("{{\"entry\":{e},\"configs\":[\"p1:/grub/grub.cfg\"]}}")
    );
}

// --- reports ---

#[test]
fn entries_are_called_by_what_they_have() {
    let mut e = entry();
    assert_eq!(entry_label(&e), "A \"title\"");
    e.title = None;
    e.id = Some("id".into());
    assert_eq!(entry_label(&e), "id");
    e.version = Some("6.1".into());
    assert_eq!(entry_label(&e), "6.1");
    assert_eq!(entry_label(&BootEntry::default()), "(untitled)");
}

#[test]
fn entries_as_lines() {
    assert_eq!(
        entry_lines(2, &entry(), None),
        vec![
            "      kernel:  p2:/vmlinuz",
            "      initrd:  p2:/a.img",
            "      initrd:  p2:/b.img",
            "      cmdline: root=/dev/sda2 ro",
            "      note: root= names a physical device; under virtio this likely needs rewriting (e.g. /dev/vda)",
        ]
    );
    assert_eq!(
        entry_lines(2, &entry(), Some("root=PARTUUID=x ro")).last().unwrap(),
        "      vdafix:  root=PARTUUID=x ro"
    );
    let b = block_lines(2, 0, true, &entry(), None, &Some(Compression::Gzip), Some(false));
    assert_eq!(b[0], "* [1] A \"title\" (grub)");
    assert_eq!(
        b[b.len() - 2],
        "      note: compressed kernel (gzip); extract with --decompress for direct-kernel boot"
    );
    assert_eq!(
        b[b.len() - 1],
        "      note: kernel lacks CONFIG_DMA_RESTRICTED_POOL; virtio fails under a protected VM"
    );
    let scan = BootScan {
        entries: vec![BootEntry::default(), BootEntry::default()],
        default: Some(1),
        configs: vec![],
    };
    assert_eq!(
        scan_lines(1, &scan).unwrap(),
        vec!["  [1] (untitled) (fallback)", "* [2] (untitled) (fallback)"]
    );
    assert_eq!(
        scan_lines(4, &BootScan::default()).unwrap_err(),
        "no boot entries on partition 4"
    );
}

#[test]
fn boot_info_as_lines() {
    assert_eq!(
        boot_info_lines(2, &entry(), Some("fixed"), &Some(Compression::Uki)).unwrap(),
        vec![
            "kernel:  p2:/vmlinuz",
            "initrd:  p2:/a.img",
            "initrd:  p2:/b.img",
            "cmdline: root=/dev/sda2 ro",
            "vdafix:  fixed",
            "compression: uki (extract with --decompress for direct-kernel boot)",
            "source:  grub",
        ]
    );
    let mut e = entry();
    e.initrd.clear();
    e.cmdline = None;
    assert_eq!(
        boot_info_lines(1, &e, None, &None).unwrap(),
        vec![
            "kernel:  p1:/vmlinuz",
            "cmdline: (unknown — entry came from grub scan)",
            "source:  grub",
        ]
    );
    e.kernel = None;
    assert_eq!(boot_info_lines(1, &e, None, &None).unwrap_err(), "default entry has no kernel path");
}

#[test]
fn headings_and_columns() {
    assert_eq!(partition_line(2, "ext4"), "partition 2 (ext4):");
    assert_eq!(directory_line(2, "ext4", "/boot"), "# partition 2 (ext4):/boot");
    assert_eq!(extract_line(2, "ext4", 0, &entry()), "partition 2 (ext4), entry 1 (grub):");
    let p = partition(2, true);
    assert_eq!(
        info_line(&p, "1.0 GiB", None),
        format!(
            "  {:>3}  {:>10}  {:<22} {:<10} {:<38} {}",
            2, "1.0 GiB", "Linux", "-", "cafe-02", ""
        )
    );
    assert_eq!(
        part_line(&p, true, "1.0 GiB", "vfat", &Some("EFI".into())),
        "* p2     1.0 GiB  vfat     Linux label=EFI"
    );
    assert_eq!(part_line(&p, false, "5 B", "ext4", &None), "  p2         5 B  ext4     Linux");
}

#[test]
fn listings_are_sorted_by_name() {
    let e = |name: &str, kind: FileKind, size: u64| DirEntry { name: name.into(), kind, size };
    let lines = listing(vec![
        e("b", FileKind::File, 12),
        e("ab", FileKind::Dir, 4096),
        e("a", FileKind::Symlink, 1234567890123),
        e("B", FileKind::Other, 0),
    ]);
    assert_eq!(
        lines,
        vec!["           0  B", "1234567890123  a@", "        4096  ab/", "          12  b"]
    );
    let sorted = sort_by_name(vec![e("x", FileKind::File, 1), e("x", FileKind::File, 2)]);
    assert_eq!((sorted[0].size, sorted[1].size), (1, 2));
}

// --- the shell ---

#[test]
fn paths_resolve() {
    assert_eq!(resolve("/", "boot"), "/boot");
    assert_eq!(resolve("/boot", "grub/./x"), "/boot/grub/x");
    assert_eq!(resolve("/boot/grub", ".."), "/boot");
    assert_eq!(resolve("/boot", "../../.."), "/");
    assert_eq!(resolve("/boot", "/etc//fstab/"), "/etc/fstab");
    assert_eq!(resolve("/boot", ""), "/boot");
    let once = resolve("/a/b", "../c/./d");
    assert_eq!(resolve("/elsewhere", &once), once);
}

#[test]
fn lines_ask_for_something() {
    assert!(matches!(request("  "), Request::Nothing));
    assert!(matches!(request("?"), Request::Help));
    assert!(matches!(request("q"), Request::Quit));
    assert!(matches!(request("ls"), Request::Ls(p) if p == "."));
    assert!(matches!(request("cd"), Request::Cd(p) if p == "/"));
    assert!(matches!(request("cp a b"), Request::Cp(a, b) if a == "a" && b == "b"));
    assert!(matches!(request("cp a"), Request::Usage("usage: cp <path> <local dest>")));
    assert!(matches!(request("cat"), Request::Usage("usage: cat <path>")));
    assert!(matches!(request("use 1 2"), Request::Usage("usage: use <N|pN>")));
    assert!(matches!(request("rm -rf"), Request::Unknown(c) if c == "rm"));
    assert!(HELP.starts_with("commands:\n  parts "));
}

#[test]
fn a_session() {
    let fss = vec![
        (partition(2, true), MockFs::new([("/boot/grub/grub.cfg", "# empty"), ("/x", "bytes\n")])),
        (partition(5, true), MockFs::new([("/EFI/a", "efi")])),
    ];
    let mut sh = Shell::new();
    assert_eq!(sh.prompt(&fss), "lbx p2:/> ");
    assert!(matches!(sh.step(&fss, "cd boot"), Outcome::Silent));
    assert_eq!(sh.prompt(&fss), "lbx p2:/boot> ");
    assert!(matches!(sh.step(&fss, "pwd"), Outcome::Lines(l) if l == ["p2:/boot"]));
    assert!(matches!(sh.step(&fss, "ls"), Outcome::Lines(l) if l == ["           7  grub/"]));
    assert!(matches!(sh.step(&fss, "cat grub/grub.cfg"), Outcome::Bytes(b) if b == b"# empty\n"));
    assert!(matches!(sh.step(&fss, "cat /x"), Outcome::Bytes(b) if b == b"bytes\n"));
    assert!(matches!(sh.step(&fss, "cat nowhere"), Outcome::Refused(Error::NotFound(_))));
    assert!(matches!(
        sh.step(&fss, "cd /x"),
        Outcome::Failed(m) if m == "/x: not a directory"
    ));
    assert!(matches!(
        sh.step(&fss, "cp p5:/EFI/a /tmp/"),
        Outcome::Save { path, dest, data } if path == "/EFI/a" && dest == "/tmp/" && data == b"efi"
    ));
    assert!(matches!(
        sh.step(&fss, "ls p9:/"),
        Outcome::Broken(m) if m == "no readable filesystem on partition 9"
    ));
    assert!(matches!(
        sh.step(&fss, "boot"),
        Outcome::Failed(m) if m == "no boot entries on partition 2"
    ));
    assert!(matches!(sh.step(&fss, "use p5"), Outcome::Silent));
    assert_eq!(sh.prompt(&fss), "lbx p5:/> ");
    assert!(matches!(sh.step(&fss, "use pp"), Outcome::NotANumber(d) if d.is_empty()));
    assert!(matches!(
        sh.step(&fss, "use 7"),
        Outcome::Failed(m) if m == "no readable filesystem on partition 7"
    ));
    assert!(matches!(
        sh.step(&fss, "frobnicate"),
        Outcome::Failed(m) if m == "unknown command 'frobnicate' — try 'help'"
    ));
    assert!(matches!(sh.step(&fss, "parts"), Outcome::Parts));
    assert!(matches!(sh.step(&fss, "exit"), Outcome::Quit));
}
