//! Minimal JSON emission (output only).

use crate::boot::{opt_str, BootEntry, EntryView};
use crate::fsys::FileSystem;
use crate::guest::{uri, uri_of};
use crate::kernel::{compression, wrapping, Compression, SNIFF_LEN, Wrapper};
use crate::seqs::views;
use crate::text::number::{dec, digit_char, digit_value, hex_pad, push_dec, push_hex_pad};
use crate::text::split::join;
use crate::text::{chars, opt};
use vstd::prelude::*;
use vstd::string::*;

verus! {

broadcast use vstd::seq_lib::group_seq_properties;

// ---------------------------------------------------------------------
// Values
// ---------------------------------------------------------------------

/// A character as a JSON string writes it.
pub open spec fn json_char(c: char) -> Seq<char> {
    if c == '"' {
        seq!['\\', '"']
    } else if c == '\\' {
        seq!['\\', '\\']
    } else if c == '\n' {
        seq!['\\', 'n']
    } else if c == '\r' {
        seq!['\\', 'r']
    } else if c == '\t' {
        seq!['\\', 't']
    } else if (c as int) < 0x20 {
        seq!['\\', 'u'] + hex_pad(c as nat, 4)
    } else {
        seq![c]
    }
}

/// A text as it stands between the quotes of a JSON string.
pub open spec fn json_body(s: Seq<char>) -> Seq<char>
    decreases s.len(),
{
    if s.len() == 0 {
        seq![]
    } else {
        json_char(s[0]) + json_body(s.drop_first())
    }
}

/// A text as a JSON string.
pub open spec fn json_string(s: Seq<char>) -> Seq<char> {
    seq!['"'] + json_body(s) + seq!['"']
}

/// A text that may be missing.
pub open spec fn json_opt(s: Option<Seq<char>>) -> Seq<char> {
    match s {
        Some(s) => json_string(s),
        None => "null"@,
    }
}

/// A number that may be missing.
pub open spec fn json_size(n: Option<nat>) -> Seq<char> {
    match n {
        Some(n) => dec(n),
        None => "null"@,
    }
}

/// A truth value.
pub open spec fn json_bool(b: bool) -> Seq<char> {
    if b {
        "true"@
    } else {
        "false"@
    }
}

/// A truth value that may be missing.
pub open spec fn json_opt_bool(b: Option<bool>) -> Seq<char> {
    match b {
        Some(b) => json_bool(b),
        None => "null"@,
    }
}

/// Append a character as a JSON string writes it.
fn push_json_char(out: &mut String, c: char)
    ensures
        final(out)@ == old(out)@ + json_char(c),
{
    let ghost before = out@;
    if c == '"' {
        out.push('\\');
        out.push('"');
    } else if c == '\\' {
        out.push('\\');
        out.push('\\');
    } else if c == '\n' {
        out.push('\\');
        out.push('n');
    } else if c == '\r' {
        out.push('\\');
        out.push('r');
    } else if c == '\t' {
        out.push('\\');
        out.push('t');
    } else if (c as u32) < 0x20 {
        out.push('\\');
        out.push('u');
        push_hex_pad(out, c as u64, 4);
    } else {
        out.push(c);
    }
    assert(out@ =~= before + json_char(c));
}

/// A text as a JSON string.
pub fn jstr(s: &str) -> (r: String)
    ensures
        r@ == json_string(s@),
{
    let c = chars(s);
    let mut out: String = String::new();
    out.push('"');
    let mut i: usize = 0;
    let ghost q = seq!['"'];
    assert(out@ =~= q);
    assert(s@.skip(0) =~= s@);
    while i < c.len()
        invariant
            i <= c@.len(),
            c@ == s@,
            q + json_body(s@) == out@ + json_body(s@.skip(i as int)),
        decreases c@.len() - i,
    {
        let ghost before = out@;
        push_json_char(&mut out, c[i]);
        proof {
            let t = s@.skip(i as int);
            assert(t[0] == c@[i as int]);
            assert(t.drop_first() =~= s@.skip(i + 1));
            assert(before + (json_char(t[0]) + json_body(t.drop_first())) =~= (before + json_char(
                t[0],
            )) + json_body(t.drop_first()));
        }
        i = i + 1;
    }
    assert(s@.skip(i as int).len() == 0);
    assert(out@ =~= q + json_body(s@));
    out.push('"');
    assert(out@ =~= json_string(s@));
    out
}

/// A text that may be missing.
pub fn jopt(s: Option<&str>) -> (r: String)
    ensures
        r@ == json_opt(opt_str(s)),
{
    match s {
        Some(s) => jstr(s),
        None => "null".to_owned(),
    }
}

/// A text that may be missing.
fn jopt_string(s: &Option<String>) -> (r: String)
    ensures
        r@ == json_opt(opt(*s)),
{
    match s {
        Some(s) => jstr(s.as_str()),
        None => "null".to_owned(),
    }
}

/// What an optional number is.
pub open spec fn opt_nat(n: Option<u64>) -> Option<nat> {
    match n {
        Some(n) => Some(n as nat),
        None => None,
    }
}

/// A number that may be missing.
pub fn jsize(n: Option<u64>) -> (r: String)
    ensures
        r@ == json_size(opt_nat(n)),
{
    match n {
        Some(n) => {
            let mut out: String = String::new();
            push_dec(&mut out, n);
            assert(out@ =~= dec(n as nat));
            out
        },
        None => "null".to_owned(),
    }
}

fn jbool(b: bool) -> (r: &'static str)
    ensures
        r@ == json_bool(b),
{
    if b {
        "true"
    } else {
        "false"
    }
}

/// `parts` one after another with `sep` between each two.
pub fn join_texts(parts: &Vec<String>, sep: &str) -> (r: String)
    ensures
        r@ == join(views(parts@), sep@),
{
    let mut out: String = String::new();
    let mut i: usize = 0;
    assert(views(parts@).take(0) =~= Seq::<Seq<char>>::empty());
    assert(out@ =~= Seq::<char>::empty());
    while i < parts.len()
        invariant
            i <= parts@.len(),
            out@ == join(views(parts@).take(i as int), sep@),
        decreases parts@.len() - i,
    {
        if i > 0 {
            out.append(sep);
        }
        out.append(parts[i].as_str());
        proof {
            let t = views(parts@).take(i + 1);
            assert(t.drop_last() =~= views(parts@).take(i as int));
            assert(t.last() == parts@[i as int]@);
            if i == 0 {
                assert(out@ =~= t[0]);
            }
        }
        i = i + 1;
    }
    assert(views(parts@).take(i as int) =~= views(parts@));
    out
}

/// An array of values that are already written.
pub fn json_array(items: &Vec<String>) -> (r: String)
    ensures
        r@ == "["@ + join(views(items@), ","@) + "]"@,
{
    let mut out: String = "[".to_owned();
    out.append(join_texts(items, ",").as_str());
    out.append("]");
    out
}

// ---------------------------------------------------------------------
// Boot entries
// ---------------------------------------------------------------------

/// What is known of the files of an entry. Sizes come from metadata only; a
/// VMM caching extracted files keys on URI + size to skip re-extraction.
pub struct Facts {
    pub kernel_size: Option<u64>,
    pub initrd_size: Vec<Option<u64>>,
    /// Whether this kernel can do virtio in a gunyah protected VM (needs
    /// CONFIG_DMA_RESTRICTED_POOL); `None` = could not determine.
    pub dma_restricted_pool: Option<bool>,
    /// Compression wrapping the kernel (gzip/zboot), so a direct-boot caller
    /// knows to extract it with `--decompress`; `None` = already raw.
    pub kernel_compression: Option<Compression>,
}

/// What [`Facts`] say.
#[verifier::ext_equal]
pub struct FactsView {
    pub kernel_size: Option<nat>,
    pub initrd_size: Seq<Option<nat>>,
    pub dma_restricted_pool: Option<bool>,
    pub kernel_compression: Option<Wrapper>,
}

impl View for Facts {
    type V = FactsView;

    open spec fn view(&self) -> FactsView {
        FactsView {
            kernel_size: opt_nat(self.kernel_size),
            initrd_size: Seq::new(self.initrd_size@.len(), |i: int| opt_nat(self.initrd_size@[i])),
            dma_restricted_pool: self.dma_restricted_pool,
            kernel_compression: crate::kernel::wrapper(self.kernel_compression),
        }
    }
}

/// The URI of a path, as a JSON string.
pub open spec fn json_uri(part: nat, path: Option<Seq<char>>) -> Seq<char> {
    match path {
        Some(p) => json_string(uri_of(part, p)),
        None => "null"@,
    }
}

/// URIs as JSON strings.
pub open spec fn json_uris(part: nat, paths: Seq<Seq<char>>) -> Seq<Seq<char>> {
    Seq::new(paths.len(), |i: int| json_string(uri_of(part, paths[i])))
}

/// Numbers that may be missing.
pub open spec fn json_sizes(sizes: Seq<Option<nat>>) -> Seq<Seq<char>> {
    Seq::new(sizes.len(), |i: int| json_size(sizes[i]))
}

/// A boot entry as a JSON object.
pub open spec fn json_entry(
    part: nat,
    is_default: bool,
    e: EntryView,
    fixed: Option<Seq<char>>,
    f: FactsView,
) -> Seq<char> {
    "{\"partition\":"@ + dec(part) + ",\"default\":"@ + json_bool(is_default) + ",\"source\":"@
        + json_string(e.source.name()) + ",\"title\":"@ + json_opt(e.title) + ",\"version\":"@
        + json_opt(e.version) + ",\"id\":"@ + json_opt(e.id) + ",\"kernel\":"@ + json_uri(
        part,
        e.kernel,
    ) + ",\"kernel_size\":"@ + json_size(f.kernel_size) + ",\"initrd\":["@ + join(
        json_uris(part, e.initrd),
        ","@,
    ) + "],\"initrd_size\":["@ + join(json_sizes(f.initrd_size), ","@) + "],\"cmdline\":"@
        + json_opt(e.cmdline) + ",\"cmdline_fixed\":"@ + json_opt(fixed)
        + ",\"dma_restricted_pool\":"@ + json_opt_bool(f.dma_restricted_pool)
        + ",\"kernel_compression\":"@ + json_opt(
        match f.kernel_compression {
            Some(w) => Some(w.name()),
            None => None,
        },
    ) + "}"@
}

/// URIs as JSON strings.
fn juris(part: usize, paths: &Vec<String>) -> (r: Vec<String>)
    ensures
        views(r@) == json_uris(part as nat, views(paths@)),
{
    let mut out: Vec<String> = Vec::new();
    let mut i: usize = 0;
    while i < paths.len()
        invariant
            i <= paths@.len(),
            out@.len() == i,
            forall|j: int|
                0 <= j < i ==> (#[trigger] out@[j])@ == json_string(
                    uri_of(part as nat, views(paths@)[j]),
                ),
        decreases paths@.len() - i,
    {
        let u = uri(part, paths[i].as_str());
        assert(views(paths@)[i as int] == paths@[i as int]@);
        out.push(jstr(u.as_str()));
        i = i + 1;
    }
    assert(views(out@) =~= json_uris(part as nat, views(paths@)));
    out
}

/// Numbers that may be missing.
fn jsizes(sizes: &Vec<Option<u64>>) -> (r: Vec<String>)
    ensures
        views(r@) == json_sizes(Seq::new(sizes@.len(), |i: int| opt_nat(sizes@[i]))),
{
    let mut out: Vec<String> = Vec::new();
    let mut i: usize = 0;
    while i < sizes.len()
        invariant
            i <= sizes@.len(),
            out@.len() == i,
            forall|j: int| 0 <= j < i ==> (#[trigger] out@[j])@ == json_size(opt_nat(sizes@[j])),
        decreases sizes@.len() - i,
    {
        out.push(jsize(sizes[i]));
        i = i + 1;
    }
    assert(views(out@) =~= json_sizes(Seq::new(sizes@.len(), |i: int| opt_nat(sizes@[i]))));
    out
}

/// A boot entry as a JSON object, with what is known of its files.
pub fn entry_object(
    part: usize,
    is_default: bool,
    e: &BootEntry,
    fixed: Option<&str>,
    facts: &Facts,
) -> (r: String)
    ensures
        r@ == json_entry(part as nat, is_default, e@, opt_str(fixed), facts@),
{
    let mut out: String = "{\"partition\":".to_owned();
    push_dec(&mut out, part as u64);
    out.append(",\"default\":");
    out.append(jbool(is_default));
    out.append(",\"source\":");
    out.append(jstr(e.source.label()).as_str());
    out.append(",\"title\":");
    out.append(jopt_string(&e.title).as_str());
    out.append(",\"version\":");
    out.append(jopt_string(&e.version).as_str());
    out.append(",\"id\":");
    out.append(jopt_string(&e.id).as_str());
    out.append(",\"kernel\":");
    match &e.kernel {
        Some(k) => {
            let u = uri(part, k.as_str());
            out.append(jstr(u.as_str()).as_str());
        },
        None => {
            out.append("null");
        },
    }
    out.append(",\"kernel_size\":");
    out.append(jsize(facts.kernel_size).as_str());
    out.append(",\"initrd\":[");
    let uris = juris(part, &e.initrd);
    out.append(join_texts(&uris, ",").as_str());
    out.append("],\"initrd_size\":[");
    let sizes = jsizes(&facts.initrd_size);
    out.append(join_texts(&sizes, ",").as_str());
    out.append("],\"cmdline\":");
    out.append(jopt_string(&e.cmdline).as_str());
    out.append(",\"cmdline_fixed\":");
    out.append(jopt(fixed).as_str());
    out.append(",\"dma_restricted_pool\":");
    match facts.dma_restricted_pool {
        Some(b) => {
            out.append(jbool(b));
        },
        None => {
            out.append("null");
        },
    }
    out.append(",\"kernel_compression\":");
    match &facts.kernel_compression {
        Some(c) => {
            let label = c.label();
            out.append(jstr(label.as_str()).as_str());
        },
        None => {
            out.append("null");
        },
    }
    out.append("}");
    out
}

/// The size of a file, if there is one.
pub open spec fn size_of_file<F: FileSystem + ?Sized>(fs: &F, path: Seq<char>) -> Option<nat> {
    match fs.file(path) {
        Some(d) => Some(d.len()),
        None => None,
    }
}

/// The start of a file that tells how a kernel is wrapped.
pub open spec fn sniffed(d: Seq<u8>) -> Seq<u8> {
    if SNIFF_LEN < d.len() {
        d.take(SNIFF_LEN as int)
    } else {
        d
    }
}

/// The compression wrapping the kernel of an entry.
pub open spec fn compression_of<F: FileSystem + ?Sized>(fs: &F, e: EntryView) -> Option<Wrapper> {
    match e.kernel {
        Some(k) => match fs.file(k) {
            Some(d) => wrapping(sniffed(d)),
            None => None,
        },
        None => None,
    }
}

/// The compression wrapping this entry's kernel (gzip `Image.gz` or EFI
/// zboot), sniffed from a header prefix, or `None` for an already-raw
/// kernel / x86 bzImage. A direct-kernel-boot caller uses it to decide
/// whether to extract the kernel with `--decompress`.
pub fn kernel_compression<F: FileSystem + ?Sized>(fs: &F, e: &BootEntry) -> (r: Option<Compression>)
    ensures
        fs.stable() ==> crate::kernel::wrapper(r) == compression_of(fs, e@),
        e@.kernel is None ==> r is None,
{
    match &e.kernel {
        Some(k) => match fs.read_prefix(k.as_str(), SNIFF_LEN) {
            Ok(head) => compression(head.as_slice()),
            Err(_) => None,
        },
        None => None,
    }
}

/// What a filesystem tells of the files of an entry.
pub open spec fn facts_of<F: FileSystem + ?Sized>(
    fs: &F,
    e: EntryView,
    dma_restricted_pool: Option<bool>,
) -> FactsView {
    FactsView {
        kernel_size: match e.kernel {
            Some(k) => size_of_file(fs, k),
            None => None,
        },
        initrd_size: Seq::new(e.initrd.len(), |i: int| size_of_file(fs, e.initrd[i])),
        dma_restricted_pool,
        kernel_compression: compression_of(fs, e),
    }
}

/// The size of a file, if there is one.
fn file_size<F: FileSystem + ?Sized>(fs: &F, path: &str) -> (r: Option<u64>)
    ensures
        fs.stable() ==> opt_nat(r) == size_of_file(fs, path@),
{
    match fs.file_size(path) {
        Ok(n) => Some(n),
        Err(_) => None,
    }
}

/// Ask a filesystem about the files of an entry.
pub fn facts<F: FileSystem + ?Sized>(
    fs: &F,
    e: &BootEntry,
    dma_restricted_pool: Option<bool>,
) -> (r: Facts)
    ensures
        fs.stable() ==> r@ == facts_of(fs, e@, dma_restricted_pool),
        r.initrd_size@.len() == e.initrd@.len(),
        r.dma_restricted_pool == dma_restricted_pool,
        e@.kernel is None ==> r.kernel_size is None && r.kernel_compression is None,
{
    let kernel_size: Option<u64> = match &e.kernel {
        Some(k) => file_size(fs, k.as_str()),
        None => None,
    };
    let mut initrd_size: Vec<Option<u64>> = Vec::new();
    let mut i: usize = 0;
    while i < e.initrd.len()
        invariant
            i <= e.initrd@.len(),
            initrd_size@.len() == i,
            fs.stable() ==> forall|j: int|
                0 <= j < i ==> opt_nat(#[trigger] initrd_size@[j]) == size_of_file(
                    fs,
                    e@.initrd[j],
                ),
        decreases e.initrd@.len() - i,
    {
        assert(e@.initrd[i as int] == e.initrd@[i as int]@);
        initrd_size.push(file_size(fs, e.initrd[i].as_str()));
        i = i + 1;
    }
    let r = Facts {
        kernel_size,
        initrd_size,
        dma_restricted_pool,
        kernel_compression: kernel_compression(fs, e),
    };
    assert(fs.stable() ==> r@ =~= facts_of(fs, e@, dma_restricted_pool));
    r
}

/// A boot entry as a JSON object, with what the filesystem tells of its files.
pub fn entry_json<F: FileSystem + ?Sized>(
    part: usize,
    is_default: bool,
    e: &BootEntry,
    fixed: Option<&str>,
    fs: &F,
    dma_restricted_pool: Option<bool>,
) -> (r: String)
    ensures
        fs.stable() ==> r@ == json_entry(
            part as nat,
            is_default,
            e@,
            opt_str(fixed),
            facts_of(fs, e@, dma_restricted_pool),
        ),
        exists|f: FactsView|
            f.dma_restricted_pool == dma_restricted_pool && r@ == #[trigger] json_entry(
                part as nat,
                is_default,
                e@,
                opt_str(fixed),
                f,
            ),
{
    let f = facts(fs, e, dma_restricted_pool);
    assert(f@.dma_restricted_pool == dma_restricted_pool);
    entry_object(part, is_default, e, fixed, &f)
}

/// What boots by default, with the configs that say so, as a JSON object.
pub open spec fn json_boot_info(entry: Seq<char>, part: nat, configs: Seq<Seq<char>>) -> Seq<char> {
    "{\"entry\":"@ + entry + ",\"configs\":["@ + join(json_uris(part, configs), ","@) + "]}"@
}

/// What boots by default, with the configs that say so, as a JSON object.
pub fn boot_info_json<F: FileSystem + ?Sized>(
    part: usize,
    e: &BootEntry,
    fixed: Option<&str>,
    configs: &Vec<String>,
    fs: &F,
    dma_restricted_pool: Option<bool>,
) -> (r: String)
    ensures
        fs.stable() ==> r@ == json_boot_info(
            json_entry(
                part as nat,
                true,
                e@,
                opt_str(fixed),
                facts_of(fs, e@, dma_restricted_pool),
            ),
            part as nat,
            views(configs@),
        ),
        exists|f: FactsView|
            f.dma_restricted_pool == dma_restricted_pool && r@ == json_boot_info(
                #[trigger] json_entry(part as nat, true, e@, opt_str(fixed), f),
                part as nat,
                views(configs@),
            ),
{
    let mut out: String = "{\"entry\":".to_owned();
    out.append(entry_json(part, true, e, fixed, fs, dma_restricted_pool).as_str());
    out.append(",\"configs\":[");
    let uris = juris(part, configs);
    out.append(join_texts(&uris, ",").as_str());
    out.append("]}");
    out
}

// ---------------------------------------------------------------------
// Reading back
// ---------------------------------------------------------------------

/// What a reader makes of the text between the quotes of a JSON string;
/// nothing, where it is not such a text.
pub open spec fn json_read(t: Seq<char>) -> Option<Seq<char>>
    decreases t.len(),
{
    if t.len() == 0 {
        Some(seq![])
    } else if t[0] == '"' || (t[0] as int) < 0x20 {
        None
    } else if t[0] != '\\' {
        match json_read(t.skip(1)) {
            Some(s) => Some(seq![t[0]] + s),
            None => None,
        }
    } else if t.len() < 2 {
        None
    } else if t[1] == 'u' {
        if t.len() < 6 {
            None
        } else {
            match json_read(t.skip(6)) {
                Some(s) => Some(seq![unicode_escape(t)] + s),
                None => None,
            }
        }
    } else {
        match (escaped(t[1]), json_read(t.skip(2))) {
            (Some(c), Some(s)) => Some(seq![c] + s),
            _ => None,
        }
    }
}

/// What the letter behind a backslash stands for.
pub open spec fn escaped(c: char) -> Option<char> {
    if c == '"' || c == '\\' || c == '/' {
        Some(c)
    } else if c == 'n' {
        Some('\n')
    } else if c == 'r' {
        Some('\r')
    } else if c == 't' {
        Some('\t')
    } else {
        None
    }
}

/// What `\uXXXX` at the start of `t` stands for.
pub open spec fn unicode_escape(t: Seq<char>) -> char {
    (((digit_value(t[2]) * 16 + digit_value(t[3])) * 16 + digit_value(t[4])) * 16 + digit_value(
        t[5],
    )) as char
}

proof fn lemma_control_escape(c: char)
    requires
        (c as int) < 0x20,
    ensures
        hex_pad(c as nat, 4).len() == 4,
        hex_pad(c as nat, 4) == seq!['0', '0', digit_char(c as int / 16), digit_char(c as int % 16)],
        digit_value(digit_char(c as int / 16)) == c as int / 16,
        digit_value(digit_char(c as int % 16)) == c as int % 16,
        digit_value('0') == 0,
        0 <= c as int,
        (c as int) as char == c,
{
    reveal_with_fuel(crate::text::number::digits, 3);
    assert(hex_pad(c as nat, 4) =~= seq![
        '0',
        '0',
        digit_char(c as int / 16),
        digit_char(c as int % 16),
    ]);
}

/// A JSON string says what it was made of: a reader gets the same text back,
/// and finds no quote and no control character that is not escaped.
pub proof fn law_json_string_reads_back(s: Seq<char>)
    ensures
        json_read(json_body(s)) == Some(s),
        json_string(s) == seq!['"'] + json_body(s) + seq!['"'],
    decreases s.len(),
{
    if s.len() > 0 {
        let c = s[0];
        let rest = s.drop_first();
        law_json_string_reads_back(rest);
        let t = json_body(s);
        let n = json_char(c).len() as int;
        if (c as int) < 0x20 {
            lemma_control_escape(c);
        }
        assert(t.skip(n) =~= json_body(rest));
        assert(seq![c] + rest =~= s);
        assert forall|i: int| 0 <= i < n implies t[i] == json_char(c)[i] by {}
        if c == '"' || c == '\\' || c == '\n' || c == '\r' || c == '\t' {
            assert(n == 2);
            assert(t[0] == '\\');
            assert(escaped(t[1]) == Some(c));
        } else if (c as int) < 0x20 {
            assert(n == 6);
            assert(t[0] == '\\' && t[1] == 'u');
            assert(json_char(c)[2] == hex_pad(c as nat, 4)[0]);
            assert(json_char(c)[3] == hex_pad(c as nat, 4)[1]);
            assert(json_char(c)[4] == hex_pad(c as nat, 4)[2]);
            assert(json_char(c)[5] == hex_pad(c as nat, 4)[3]);
            assert(unicode_escape(t) == c);
        } else {
            assert(n == 1);
            assert(t[0] == c);
        }
    } else {
        assert(s =~= Seq::<char>::empty());
    }
}

} // verus!
