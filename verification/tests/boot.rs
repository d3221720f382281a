//! Boot configs and what a filesystem boots.

use lbx::boot::bls::glob_match;
use lbx::boot::vercmp::vercmp;
use lbx::boot::{bls, expand, extlinux, grub, grubenv, retain, scan, BootEntry, Source};
use lbx::fsys::{DirEntry, FileKind, FileSystem};
use lbx::{Error, Result};
use std::cmp::Ordering;
use std::collections::{BTreeMap, BTreeSet};

/// In-memory filesystem for parser tests.
struct MockFs {
    files: BTreeMap<String, Vec<u8>>,
    links: BTreeMap<String, String>,
}

impl MockFs {
    fn new<const N: usize>(files: [(&str, &str); N]) -> MockFs {
        MockFs {
            files: files
                .into_iter()
                .map(|(k, v)| (k.to_string(), v.as_bytes().to_vec()))
                .collect(),
            links: BTreeMap::new(),
        }
    }

    fn link(mut self, from: &str, to: &str) -> MockFs {
        self.links.insert(from.to_string(), to.to_string());
        self
    }
}

impl FileSystem for MockFs {
    fn fs_type(&self) -> &'static str {
        "mock"
    }
    fn label(&self) -> Option<String> {
        None
    }
    fn read_dir(&self, path: &str) -> Result<Vec<DirEntry>> {
        let prefix = format!("{}/", path.trim_end_matches('/'));
        let mut names = BTreeSet::new();
        let mut out = Vec::new();
        for (key, data) in &self.files {
            let Some(rest) = key.strip_prefix(&prefix) else { continue };
            let first = rest.split('/').next().unwrap();
            if !names.insert(first.to_string()) {
                continue;
            }
            out.push(DirEntry {
                name: first.to_string(),
                kind: if rest.contains('/') { FileKind::Dir } else { FileKind::File },
                size: data.len() as u64,
            });
        }
        Ok(out)
    }
    fn read_file(&self, path: &str) -> Result<Vec<u8>> {
        self.files.get(path).cloned().ok_or_else(|| Error::NotFound(path.to_string()))
    }
    fn has(&self, path: &str) -> bool {
        let prefix = format!("{}/", path.trim_end_matches('/'));
        path == "/"
            || self.files.contains_key(path)
            || self.files.keys().any(|k| k.starts_with(&prefix))
    }
    fn read_link(&self, path: &str) -> Option<String> {
        self.links.get(path).cloned()
    }
    fn file_size(&self, path: &str) -> Result<u64> {
        self.read_file(path).map(|d| d.len() as u64)
    }
}

#[test]
fn glob_basics() {
    assert!(glob_match("*", "anything"));
    assert!(glob_match("6.6.*-200*", "6.6.30-200.fc39"));
    assert!(glob_match("entry-?.conf", "entry-1.conf"));
    assert!(!glob_match("6.7.*", "6.6.30"));
}

#[test]
fn alpine_style_with_initrd_in_append() {
    let cfg = r#"
DEFAULT virt
PROMPT 0
LABEL virt
  MENU LABEL Linux virt
  KERNEL /boot/vmlinuz-virt
  APPEND initrd=/boot/initramfs-virt root=UUID=abc modules=virtio console=hvc0
LABEL lts
  KERNEL /boot/vmlinuz-lts
  INITRD /boot/initramfs-lts
  APPEND root=UUID=abc
"#;
    let scan = extlinux::parse_str(cfg, "/extlinux");
    assert_eq!(scan.entries.len(), 2);
    assert_eq!(scan.default, Some(0));
    let virt = &scan.entries[0];
    assert_eq!(virt.kernel.as_deref(), Some("/boot/vmlinuz-virt"));
    assert_eq!(virt.initrd, vec!["/boot/initramfs-virt"]);
    assert_eq!(
        virt.cmdline.as_deref(),
        Some("root=UUID=abc modules=virtio console=hvc0")
    );
}

#[test]
fn relative_paths_resolve_against_config_dir() {
    let cfg = "label l\n kernel vmlinuz\n initrd a.img,b.img\n";
    let scan = extlinux::parse_str(cfg, "/extlinux");
    assert_eq!(scan.entries[0].kernel.as_deref(), Some("/extlinux/vmlinuz"));
    assert_eq!(scan.entries[0].initrd, vec!["/extlinux/a.img", "/extlinux/b.img"]);
}

const UBUNTU_STYLE: &str = r#"
# generated by grub-mkconfig
function gfxmode {
    set gfxpayload="${1}"
}
set default="${saved_entry}"
if [ x"${feature_menuentry_id}" = xy ]; then
  menuentry_id_option="--id"
fi
menuentry 'Ubuntu' --class ubuntu $menuentry_id_option 'gnulinux-simple-uuid1' {
    search --no-floppy --fs-uuid --set=root uuid1
    linux   /boot/vmlinuz-5.15.0-105-generic root=UUID=uuid1 ro console=ttyS0
    initrd  /boot/initrd.img-5.15.0-105-generic
}
submenu 'Advanced options for Ubuntu' $menuentry_id_option 'gnulinux-advanced-uuid1' {
    menuentry 'Ubuntu, with Linux 5.15.0-105-generic' $menuentry_id_option 'gnulinux-5.15.0-105-generic-advanced-uuid1' {
        linux   /boot/vmlinuz-5.15.0-105-generic root=UUID=uuid1 ro
        initrd  /boot/initrd.img-5.15.0-105-generic
    }
    menuentry 'Ubuntu, with Linux 5.15.0-91-generic' $menuentry_id_option 'gnulinux-5.15.0-91-generic-advanced-uuid1' {
        linux   /boot/vmlinuz-5.15.0-91-generic root=UUID=uuid1 ro
        initrd  /boot/initrd.img-5.15.0-91-generic
    }
}
"#;

/// os-prober's dual-boot item: no kernel, a `chainloader` target, and
/// `set default` pointing at it by id.
const OSPROBER: &str = r#"
set default="osprober-efi-1234-ABCD"
menuentry 'Debian GNU/Linux' $menuentry_id_option 'debian' {
    linux /vmlinuz-6.6.9 root=UUID=uuid1 ro
    initrd /initramfs-6.6.9.img
}
menuentry 'Windows Boot Manager (on /dev/sda1)' --class windows $menuentry_id_option 'osprober-efi-1234-ABCD' {
    insmod part_gpt
    search --no-floppy --fs-uuid --set=root 1234-ABCD
    chainloader /EFI/Microsoft/Boot/bootmgfw.efi
}
menuentry 'Older Windows (on /dev/sda3)' $menuentry_id_option 'osprober-chain-sda3' {
    chainloader +1
}
"#;

fn env(pairs: &[(&str, &str)]) -> grubenv::Env {
    let mut env = grubenv::Env::new();
    for (k, v) in pairs {
        env.insert(k.to_string(), v.to_string());
    }
    env
}

#[test]
fn parses_chainloader_entries() {
    let scan = grub::parse_str(OSPROBER, &grubenv::Env::new());
    assert_eq!(scan.entries.len(), 3);
    // The Linux entry is untouched...
    assert_eq!(scan.entries[0].kernel.as_deref(), Some("/vmlinuz-6.6.9"));
    assert_eq!(scan.entries[0].chainloader, None);
    // ...and the foreign ones carry their target instead of a kernel.
    assert_eq!(scan.entries[1].kernel, None);
    assert_eq!(
        scan.entries[1].chainloader.as_deref(),
        Some("/EFI/Microsoft/Boot/bootmgfw.efi")
    );
    assert_eq!(scan.entries[2].chainloader.as_deref(), Some("+1"));
    // `set default` names it by id: GRUB would boot Windows, not Linux.
    assert_eq!(scan.default, Some(1));
}

#[test]
fn parses_entries_and_submenu() {
    let scan = grub::parse_str(UBUNTU_STYLE, &grubenv::Env::new());
    assert_eq!(scan.entries.len(), 3);
    assert!(!scan.uses_bls);
    assert_eq!(scan.entries[0].title.as_deref(), Some("Ubuntu"));
    assert_eq!(
        scan.entries[0].kernel.as_deref(),
        Some("/boot/vmlinuz-5.15.0-105-generic")
    );
    assert_eq!(
        scan.entries[0].cmdline.as_deref(),
        Some("root=UUID=uuid1 ro console=ttyS0")
    );
    assert_eq!(
        scan.entries[0].initrd,
        vec!["/boot/initrd.img-5.15.0-105-generic"]
    );
    // saved_entry unset -> "" -> "0" -> first top-level entry
    assert_eq!(scan.default, Some(0));
}

#[test]
fn saved_entry_picks_submenu_child_by_index_path() {
    let env = env(&[("saved_entry", "1>1")]);
    let scan = grub::parse_str(UBUNTU_STYLE, &env);
    assert_eq!(scan.default, Some(2));
    assert_eq!(
        scan.entries[2].kernel.as_deref(),
        Some("/boot/vmlinuz-5.15.0-91-generic")
    );
}

#[test]
fn saved_entry_picks_submenu_child_by_id_path() {
    // What grub-mkconfig writes when GRUB_DEFAULT names an entry inside a
    // submenu (and what grub-set-default/grub-reboot store): the components
    // are ids, not indices. GRUB resolves them one menu level at a time.
    let env = env(&[(
        "saved_entry",
        "gnulinux-advanced-uuid1>gnulinux-5.15.0-91-generic-advanced-uuid1",
    )]);
    let scan = grub::parse_str(UBUNTU_STYLE, &env);
    assert_eq!(scan.default, Some(2));
    assert_eq!(
        scan.entries[2].kernel.as_deref(),
        Some("/boot/vmlinuz-5.15.0-91-generic")
    );
}

#[test]
fn saved_entry_id_path_by_title() {
    let env = env(&[(
        "saved_entry",
        "Advanced options for Ubuntu>Ubuntu, with Linux 5.15.0-105-generic",
    )]);
    let scan = grub::parse_str(UBUNTU_STYLE, &env);
    assert_eq!(scan.default, Some(1));
}

#[test]
fn saved_entry_submenu_alone_falls_through_to_first_child() {
    let env = env(&[("saved_entry", "gnulinux-advanced-uuid1")]);
    let scan = grub::parse_str(UBUNTU_STYLE, &env);
    assert_eq!(scan.default, Some(1));
}

#[test]
fn saved_entry_mixed_id_and_index_path() {
    let env = env(&[("saved_entry", "gnulinux-advanced-uuid1>1")]);
    let scan = grub::parse_str(UBUNTU_STYLE, &env);
    assert_eq!(scan.default, Some(2));
}

#[test]
fn saved_entry_matches_id() {
    let env = env(&[("saved_entry", "gnulinux-5.15.0-91-generic-advanced-uuid1")]);
    let scan = grub::parse_str(UBUNTU_STYLE, &env);
    assert_eq!(scan.default, Some(2));
}

#[test]
fn detects_blscfg_and_expands_kernelopts() {
    let cfg = r#"
insmod blscfg
blscfg
"#;
    let scan = grub::parse_str(cfg, &grubenv::Env::new());
    assert!(scan.uses_bls);
    assert!(scan.entries.is_empty());

    let env = env(&[("kernelopts", "root=UUID=x ro")]);
    let cfg = "menuentry 'F' {\n  linux ($root)/vmlinuz-6.6 $kernelopts quiet\n}\n";
    let scan = grub::parse_str(cfg, &env);
    assert_eq!(scan.entries[0].kernel.as_deref(), Some("/vmlinuz-6.6"));
    assert_eq!(
        scan.entries[0].cmdline.as_deref(),
        Some("root=UUID=x ro quiet")
    );
}

#[test]
fn parses_block_with_padding() {
    let mut text = String::from(
        "# GRUB Environment Block\nsaved_entry=1>2\nkernelopts=root=UUID=abc ro\n",
    );
    while text.len() < 1024 {
        text.push('#');
    }
    let env = grubenv::parse(&text);
    assert_eq!(env.get("saved_entry").unwrap(), "1>2");
    assert_eq!(env.get("kernelopts").unwrap(), "root=UUID=abc ro");
}

const GRUBENV: &str =
    "# GRUB Environment Block\nsaved_entry=fedora-6.6.9\nkernelopts=root=UUID=abc ro\n";

#[test]
fn bls_with_grubenv_default_and_kernelopts() {
    let fs = MockFs::new([
        ("/grub2/grub.cfg", "insmod blscfg\nblscfg\n"),
        ("/grub2/grubenv", GRUBENV),
        (
            "/loader/entries/fedora-6.6.30.conf",
            "title Fedora 6.6.30\nversion 6.6.30-200.fc39\nlinux /vmlinuz-6.6.30\ninitrd /initramfs-6.6.30.img\noptions $kernelopts quiet\n",
        ),
        (
            "/loader/entries/fedora-6.6.9.conf",
            "title Fedora 6.6.9\nversion 6.6.9-100.fc39\nlinux /vmlinuz-6.6.9\ninitrd /initramfs-6.6.9.img\noptions $kernelopts\n",
        ),
        ("/vmlinuz-6.6.30", "k"),
        ("/vmlinuz-6.6.9", "k"),
        ("/initramfs-6.6.30.img", "i"),
        ("/initramfs-6.6.9.img", "i"),
    ]);
    let scan = scan(&fs).unwrap();
    assert_eq!(scan.entries.len(), 2);
    // Sorted newest first...
    assert_eq!(scan.entries[0].kernel.as_deref(), Some("/vmlinuz-6.6.30"));
    // ...but grubenv saved_entry pins the older one as default.
    assert_eq!(scan.default, Some(1));
    let def = scan.default_entry().unwrap();
    assert_eq!(def.cmdline.as_deref(), Some("root=UUID=abc ro"));
    assert_eq!(def.source, Source::Bls);
}

#[test]
fn stale_grub_entries_are_dropped() {
    let fs = MockFs::new([
        (
            "/boot/grub/grub.cfg",
            "set default=\"1\"\nmenuentry 'gone' {\n linux /boot/vmlinuz-old\n}\nmenuentry 'here' {\n linux /boot/vmlinuz-new\n initrd /boot/initrd.img-new\n}\n",
        ),
        ("/boot/vmlinuz-new", "k"),
        ("/boot/initrd.img-new", "i"),
    ]);
    let scan = scan(&fs).unwrap();
    assert_eq!(scan.entries.len(), 1);
    assert_eq!(scan.entries[0].kernel.as_deref(), Some("/boot/vmlinuz-new"));
    assert_eq!(scan.default, Some(0));
}

#[test]
fn fallback_sorts_by_version_and_honors_symlink() {
    let fs = MockFs::new([
        ("/boot/vmlinuz-6.6.9-100.fc39", "k"),
        ("/boot/vmlinuz-6.6.30-200.fc39", "k"),
        ("/boot/vmlinuz-0-rescue-deadbeef", "k"),
        ("/boot/initramfs-6.6.9-100.fc39.img", "i"),
        ("/boot/initramfs-6.6.30-200.fc39.img", "i"),
    ])
    .link("/boot/vmlinuz", "vmlinuz-6.6.9-100.fc39");
    let scan = scan(&fs).unwrap();
    // rescue excluded, newest first
    assert_eq!(scan.entries.len(), 2);
    assert_eq!(
        scan.entries[0].kernel.as_deref(),
        Some("/boot/vmlinuz-6.6.30-200.fc39")
    );
    // but the symlink pins the default to 6.6.9
    assert_eq!(scan.default, Some(1));
    assert_eq!(scan.entries[1].initrd, vec!["/boot/initramfs-6.6.9-100.fc39.img"]);
}

#[test]
fn extlinux_default_label() {
    let fs = MockFs::new([
        (
            "/boot/extlinux/extlinux.conf",
            "default lts\nlabel virt\n kernel /boot/vmlinuz-virt\nlabel lts\n kernel /boot/vmlinuz-lts\n append root=/dev/vda1\n",
        ),
        ("/boot/vmlinuz-virt", "k"),
        ("/boot/vmlinuz-lts", "k"),
    ]);
    let scan = scan(&fs).unwrap();
    assert_eq!(scan.default, Some(1));
    assert_eq!(scan.default_entry().unwrap().cmdline.as_deref(), Some("root=/dev/vda1"));
}

#[test]
fn numeric_segments_compare_numerically() {
    assert_eq!(vercmp("6.6.9", "6.6.30"), Ordering::Less);
    assert_eq!(vercmp("6.6.30", "6.6.30"), Ordering::Equal);
    assert_eq!(vercmp("6.10.1", "6.9.9"), Ordering::Greater);
}

#[test]
fn distro_release_suffixes() {
    assert_eq!(vercmp("6.6.30-200.fc39", "6.6.30-100.fc39"), Ordering::Greater);
    assert_eq!(vercmp("5.15.0-105-generic", "5.15.0-91-generic"), Ordering::Greater);
    assert_eq!(vercmp("5.14.0-362.el9", "5.14.0-70.el9"), Ordering::Greater);
}

#[test]
fn rescue_sorts_below_real_kernels() {
    // "0-rescue-<machineid>" starts with 0, naturally lowest.
    assert_eq!(vercmp("0-rescue-abc123", "6.6.30-200.fc39"), Ordering::Less);
}

#[test]
fn numeric_beats_alpha_and_length_breaks_ties() {
    assert_eq!(vercmp("6.6.1", "6.6.rc1"), Ordering::Greater);
    assert_eq!(vercmp("6.6.30.1", "6.6.30"), Ordering::Greater);
}

#[test]
fn stars_match_anything_and_plain_patterns_themselves() {
    assert!(glob_match("*", ""));
    assert!(glob_match("abc", "abc"));
    assert!(!glob_match("abc", "abcd"));
    assert!(!glob_match("a?c", "ac"));
    assert!(glob_match("*.conf", "x.conf"));
}

#[test]
fn variables_expand_where_they_are_known() {
    let env = env(&[("kernelopts", "ro quiet"), ("a_1", "x")]);
    let e = |s: &str| expand(&s.chars().collect::<Vec<char>>(), &env);
    assert_eq!(e("plain text"), "plain text");
    assert_eq!(e("$kernelopts!"), "ro quiet!");
    assert_eq!(e("${a_1}y"), "xy");
    assert_eq!(e("[$unknown]"), "[]");
}

#[test]
fn a_bls_file_is_an_entry() {
    let e = bls::parse_entry(
        "fedora-6.6",
        "title  Fedora\nversion 6.6\nlinux /vmlinuz\ninitrd /a /b\noptions ro $x\n# comment\n",
        &env(&[("x", "quiet")]),
    );
    assert_eq!(e.title.as_deref(), Some("Fedora"));
    assert_eq!(e.id.as_deref(), Some("fedora-6.6"));
    assert_eq!(e.version.as_deref(), Some("6.6"));
    assert_eq!(e.kernel.as_deref(), Some("/vmlinuz"));
    assert_eq!(e.cmdline.as_deref(), Some("ro quiet"));
    assert_eq!(e.source, Source::Bls);
}

#[test]
fn dropping_entries_moves_the_default_along() {
    let named = |n: &str| BootEntry { title: Some(n.into()), ..Default::default() };
    let three = || vec![named("a"), named("b"), named("c")];
    let (left, default) = retain(three(), Some(2), &vec![true, false, true]);
    assert_eq!(left.len(), 2);
    assert_eq!(default, Some(1));
    assert_eq!(left[1].title.as_deref(), Some("c"));
    // A default that is dropped falls back to the first that is left.
    let (_, default) = retain(three(), Some(1), &vec![true, false, true]);
    assert_eq!(default, Some(0));
    let (left, default) = retain(three(), Some(1), &vec![false, false, false]);
    assert!(left.is_empty());
    assert_eq!(default, None);
}

#[test]
fn an_empty_filesystem_boots_nothing() {
    let scan = scan(&MockFs::new([])).unwrap();
    assert!(scan.entries.is_empty());
    assert_eq!(scan.default, None);
    assert!(scan.default_entry().is_none());
    assert!(scan.configs.is_empty());
}

#[test]
fn ids_may_be_given_outright() {
    let cfg = "set default=b\nmenuentry 'A' --id a {\n linux /a\n}\nmenuentry 'B' --id 'b' {\n linux /b\n}\n";
    let scan = grub::parse_str(cfg, &grubenv::Env::new());
    assert_eq!(scan.entries[0].id.as_deref(), Some("a"));
    assert_eq!(scan.default, Some(1));
}

#[test]
fn extlinux_keywords_ignore_case_and_labels_pick() {
    let lower = "default b\nlabel a\nkernel k1\nlabel b\nkernel k2\nappend quiet\n";
    let upper = "DEFAULT b\nLabel a\nKERNEL k1\nLABEL b\nLinux k2\nAppend quiet\n";
    for cfg in [lower, upper] {
        let scan = extlinux::parse_str(cfg, "/boot");
        assert_eq!(scan.default, Some(1));
        assert_eq!(scan.entries[0].kernel.as_deref(), Some("/boot/k1"));
        assert_eq!(scan.entries[1].kernel.as_deref(), Some("/boot/k2"));
        assert_eq!(scan.entries[1].cmdline.as_deref(), Some("quiet"));
    }
}

#[test]
fn entries_of_a_scan_have_one_source() {
    let fs = MockFs::new([
        ("/grub/grub.cfg", "menuentry 'a' {\n linux /vmlinuz-1\n}\nmenuentry 'b' {\n linux /vmlinuz-2\n}\n"),
        ("/loader/entries/x.conf", "title X\nlinux /vmlinuz-1\n"),
        ("/extlinux/extlinux.conf", "LABEL l\n KERNEL /vmlinuz-2\n"),
        ("/vmlinuz-1", "k"),
        ("/vmlinuz-2", "k"),
    ]);
    let found = scan(&fs).unwrap();
    assert_eq!(found.entries.len(), 2);
    assert!(found.entries.iter().all(|e| e.source == Source::Grub));
    let fs = MockFs::new([
        ("/loader/entries/x.conf", "title X\nlinux /vmlinuz-1\n"),
        ("/extlinux/extlinux.conf", "LABEL l\n KERNEL /vmlinuz-2\n"),
        ("/vmlinuz-1", "k"),
        ("/vmlinuz-2", "k"),
    ]);
    let found = scan(&fs).unwrap();
    assert_eq!(found.entries.len(), 1);
    assert_eq!(found.entries[0].source, Source::Bls);
}
