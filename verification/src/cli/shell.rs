//! The commands of the interactive read-only shell over an image's
//! filesystems, for debugging:
//!
//! ```text
//! lbx p2:/> ls boot
//! lbx p2:/> cd boot/grub
//! lbx p2:/boot/grub> cat grub.cfg
//! lbx p2:/boot/grub> cp p1:/STARTUP.CFG /tmp/
//! ```

use crate::boot::{one_source, scan, scan_of, ScanView};
use crate::cli::listing::{listing, listing_lines};
use crate::cli::paths::{
    is_resolved, law_resolving_again_changes_nothing, law_root_is_resolved, resolve, resolved,
};
use crate::cli::report::{scan_lines, scan_text};
use crate::cli::select::{all_stable, parse_uri, uri_target};
use crate::error::{Error, ErrorView, Result};
use crate::fsys::{may_list, may_read, DirEntry, FileSystem};
use crate::guest::{uri, uri_of};
use crate::part::Partition;
use crate::seqs::{index, lemma_position, position, views};
use crate::text::number::{dec, parse_unsigned, parse_usize, push_dec};
use crate::text::split::{text_words, trim_start_char, trimmed_start_char, words};
use crate::text::{chars, is_str, string, texts};
use vstd::prelude::*;
use vstd::string::*;

verus! {

pub const HELP: &'static str = "commands:
  parts                 list partitions ('*' = current)
  use <N|pN>            switch to partition N
  pwd / cd [path]       show / change directory
  ls [path]             list directory
  cat <path>            write file to stdout (raw bytes)
  cp <path> <local>     copy file out of the image
  boot                  show boot entries on the current partition
  help                  this text
  exit                  quit (also Ctrl-D)
paths may be relative, absolute, or pN:/... URIs (any partition)";

// ---------------------------------------------------------------------
// Commands
// ---------------------------------------------------------------------

/// What a line asks for.
pub enum Request {
    Nothing,
    Help,
    Quit,
    Parts,
    Use(String),
    Pwd,
    Cd(String),
    Ls(String),
    Cat(String),
    Cp(String, String),
    Boot,
    /// A command with the wrong number of arguments; how it is used.
    Usage(&'static str),
    Unknown(String),
}

/// What a [`Request`] says.
pub enum RequestView {
    Nothing,
    Help,
    Quit,
    Parts,
    Use(Seq<char>),
    Pwd,
    Cd(Seq<char>),
    Ls(Seq<char>),
    Cat(Seq<char>),
    Cp(Seq<char>, Seq<char>),
    Boot,
    Usage(Seq<char>),
    Unknown(Seq<char>),
}

impl View for Request {
    type V = RequestView;

    open spec fn view(&self) -> RequestView {
        match *self {
            Request::Nothing => RequestView::Nothing,
            Request::Help => RequestView::Help,
            Request::Quit => RequestView::Quit,
            Request::Parts => RequestView::Parts,
            Request::Use(s) => RequestView::Use(s@),
            Request::Pwd => RequestView::Pwd,
            Request::Cd(s) => RequestView::Cd(s@),
            Request::Ls(s) => RequestView::Ls(s@),
            Request::Cat(s) => RequestView::Cat(s@),
            Request::Cp(s, d) => RequestView::Cp(s@, d@),
            Request::Boot => RequestView::Boot,
            Request::Usage(s) => RequestView::Usage(s@),
            Request::Unknown(s) => RequestView::Unknown(s@),
        }
    }
}

/// The `i`th of `ws`, or what stands in its place.
pub open spec fn word_or(ws: Seq<Seq<char>>, i: int, otherwise: Seq<char>) -> Seq<char> {
    if i < ws.len() {
        ws[i]
    } else {
        otherwise
    }
}

/// What the words of a line ask for.
pub open spec fn asked(ws: Seq<Seq<char>>) -> RequestView {
    if ws.len() == 0 {
        RequestView::Nothing
    } else {
        let cmd = ws[0];
        if cmd == "help"@ || cmd == "?"@ {
            RequestView::Help
        } else if cmd == "exit"@ || cmd == "quit"@ || cmd == "q"@ {
            RequestView::Quit
        } else if cmd == "parts"@ {
            RequestView::Parts
        } else if cmd == "use"@ {
            if ws.len() == 2 {
                RequestView::Use(ws[1])
            } else {
                RequestView::Usage("usage: use <N|pN>"@)
            }
        } else if cmd == "pwd"@ {
            RequestView::Pwd
        } else if cmd == "cd"@ {
            RequestView::Cd(word_or(ws, 1, "/"@))
        } else if cmd == "ls"@ {
            RequestView::Ls(word_or(ws, 1, "."@))
        } else if cmd == "cat"@ {
            if ws.len() == 2 {
                RequestView::Cat(ws[1])
            } else {
                RequestView::Usage("usage: cat <path>"@)
            }
        } else if cmd == "cp"@ {
            if ws.len() == 3 {
                RequestView::Cp(ws[1], ws[2])
            } else {
                RequestView::Usage("usage: cp <path> <local dest>"@)
            }
        } else if cmd == "boot"@ || cmd == "entries"@ {
            RequestView::Boot
        } else {
            RequestView::Unknown(cmd)
        }
    }
}

/// The `i`th word, or what stands in its place.
fn argument(ws: &Vec<&[char]>, i: usize, otherwise: &str) -> (r: String)
    ensures
        r@ == word_or(texts(ws@), i as int, otherwise@),
{
    if i < ws.len() {
        assert(texts(ws@)[i as int] == ws@[i as int]@);
        string(ws[i])
    } else {
        otherwise.to_owned()
    }
}

/// What a line asks for.
pub fn request(line: &str) -> (r: Request)
    ensures
        r@ == asked(words(line@)),
{
    let c = chars(line);
    let ws = text_words(c.as_slice());
    assert(texts(ws@).len() == ws@.len());
    if ws.len() == 0 {
        return Request::Nothing;
    }
    let cmd = ws[0];
    assert(texts(ws@)[0] == cmd@);
    if is_str(cmd, "help") || is_str(cmd, "?") {
        Request::Help
    } else if is_str(cmd, "exit") || is_str(cmd, "quit") || is_str(cmd, "q") {
        Request::Quit
    } else if is_str(cmd, "parts") {
        Request::Parts
    } else if is_str(cmd, "use") {
        if ws.len() == 2 {
            Request::Use(argument(&ws, 1, ""))
        } else {
            Request::Usage("usage: use <N|pN>")
        }
    } else if is_str(cmd, "pwd") {
        Request::Pwd
    } else if is_str(cmd, "cd") {
        Request::Cd(argument(&ws, 1, "/"))
    } else if is_str(cmd, "ls") {
        Request::Ls(argument(&ws, 1, "."))
    } else if is_str(cmd, "cat") {
        if ws.len() == 2 {
            Request::Cat(argument(&ws, 1, ""))
        } else {
            Request::Usage("usage: cat <path>")
        }
    } else if is_str(cmd, "cp") {
        if ws.len() == 3 {
            Request::Cp(argument(&ws, 1, ""), argument(&ws, 2, ""))
        } else {
            Request::Usage("usage: cp <path> <local dest>")
        }
    } else if is_str(cmd, "boot") || is_str(cmd, "entries") {
        Request::Boot
    } else {
        Request::Unknown(string(cmd))
    }
}

// ---------------------------------------------------------------------
// Partitions
// ---------------------------------------------------------------------

/// The numbers of the partitions.
pub open spec fn numbers<F>(fss: Seq<(Partition, F)>) -> Seq<int> {
    Seq::new(fss.len(), |i: int| fss[i].0.index as int)
}

/// The predicate "is `n`".
pub open spec fn is_number(n: int) -> spec_fn(int) -> bool {
    |x: int| x == n
}

/// Where the filesystem of partition `n` stands.
pub open spec fn place_of<F>(fss: Seq<(Partition, F)>, n: int) -> Option<int> {
    position(numbers(fss), is_number(n))
}

/// Where the filesystem of partition `n` stands.
pub fn find_part<F>(fss: &Vec<(Partition, F)>, n: usize) -> (r: Option<usize>)
    ensures
        index(r) == place_of(fss@, n as int),
        r matches Some(i) ==> i < fss@.len(),
{
    let mut i: usize = 0;
    let ghost ns = numbers(fss@);
    while i < fss.len()
        invariant
            i <= fss@.len(),
            ns == numbers(fss@),
            forall|j: int| 0 <= j < i ==> !is_number(n as int)(#[trigger] ns[j]),
        decreases fss@.len() - i,
    {
        if fss[i].0.index == n {
            proof {
                lemma_position(ns, is_number(n as int));
                assert(is_number(n as int)(ns[i as int]));
            }
            return Some(i);
        }
        i = i + 1;
    }
    proof {
        lemma_position(ns, is_number(n as int));
    }
    None
}

/// What is said where a partition has no filesystem to read.
pub open spec fn no_filesystem(n: int) -> Seq<char> {
    "no readable filesystem on partition "@ + dec(n as nat)
}

fn no_filesystem_on(n: usize) -> (r: String)
    ensures
        r@ == no_filesystem(n as int),
{
    let mut msg: String = "no readable filesystem on partition ".to_owned();
    push_dec(&mut msg, n as u64);
    msg
}

/// Where a user path (relative, absolute, or `pN:` URI) leads: the filesystem
/// to read from, and an absolute path; or what is wrong with it.
pub open spec fn located<F>(
    fss: Seq<(Partition, F)>,
    st: ShellView,
    input: Seq<char>,
) -> core::result::Result<(int, Seq<char>), Seq<char>> {
    match uri_target(input) {
        (Some(n), path) => match place_of(fss, n) {
            Some(i) => Ok((i, resolved("/"@, path))),
            None => Err(no_filesystem(n)),
        },
        (None, _) => Ok((st.current, resolved(st.cwd, input))),
    }
}

// ---------------------------------------------------------------------
// The shell
// ---------------------------------------------------------------------

/// Where the shell is.
pub struct Shell {
    /// Which of the filesystems is current.
    pub current: usize,
    pub cwd: String,
}

/// Where the shell is.
pub struct ShellView {
    pub current: int,
    pub cwd: Seq<char>,
}

impl View for Shell {
    type V = ShellView;

    open spec fn view(&self) -> ShellView {
        ShellView { current: self.current as int, cwd: self.cwd@ }
    }
}

/// What came of a line.
pub enum Outcome {
    /// Nothing to say.
    Silent,
    Quit,
    Help,
    /// The partitions are to be listed.
    Parts,
    Lines(Vec<String>),
    /// What to write to the terminal as it is.
    Bytes(Vec<u8>),
    /// The contents of the file at `path`, to be written to `dest`.
    Save { path: String, dest: String, data: Vec<u8> },
    /// What to complain about; the shell goes on.
    Failed(String),
    /// What should be a partition number is none; the shell goes on.
    NotANumber(String),
    /// What the filesystem complains about; the shell goes on.
    Refused(Error),
    /// What ends the shell.
    Broken(String),
}

/// What an [`Outcome`] says.
pub enum OutcomeView {
    Silent,
    Quit,
    Help,
    Parts,
    Lines(Seq<Seq<char>>),
    Bytes(Seq<u8>),
    Save { path: Seq<char>, dest: Seq<char>, data: Seq<u8> },
    Failed(Seq<char>),
    NotANumber(Seq<char>),
    Refused(ErrorView),
    Broken(Seq<char>),
}

impl View for Outcome {
    type V = OutcomeView;

    open spec fn view(&self) -> OutcomeView {
        match *self {
            Outcome::Silent => OutcomeView::Silent,
            Outcome::Quit => OutcomeView::Quit,
            Outcome::Help => OutcomeView::Help,
            Outcome::Parts => OutcomeView::Parts,
            Outcome::Lines(l) => OutcomeView::Lines(views(l@)),
            Outcome::Bytes(b) => OutcomeView::Bytes(b@),
            Outcome::Save { path, dest, data } => OutcomeView::Save {
                path: path@,
                dest: dest@,
                data: data@,
            },
            Outcome::Failed(s) => OutcomeView::Failed(s@),
            Outcome::NotANumber(s) => OutcomeView::NotANumber(s@),
            Outcome::Refused(e) => OutcomeView::Refused(e@),
            Outcome::Broken(s) => OutcomeView::Broken(s@),
        }
    }
}

/// `b`, with a newline at its end.
pub open spec fn with_newline(b: Seq<u8>) -> Seq<u8> {
    if b.len() > 0 && b.last() == 10 {
        b
    } else {
        b.push(10)
    }
}

/// Switching to another partition.
pub open spec fn used<F>(fss: Seq<(Partition, F)>, st: ShellView, which: Seq<char>) -> (
    ShellView,
    OutcomeView,
) {
    let digits = trim_start_char(which, 'p');
    match parse_unsigned(digits, 10, usize::MAX as int) {
        None => (st, OutcomeView::NotANumber(digits)),
        Some(n) => match place_of(fss, n) {
            Some(i) => (ShellView { current: i, cwd: "/"@ }, OutcomeView::Silent),
            None => (st, OutcomeView::Failed(no_filesystem(n))),
        },
    }
}

/// Going to `path`, given whether it is a directory.
pub open spec fn arrived(st: ShellView, path: Seq<char>, is_dir: bool) -> (ShellView, OutcomeView) {
    if is_dir {
        (ShellView { current: st.current, cwd: path }, OutcomeView::Silent)
    } else {
        (st, OutcomeView::Failed(path + ": not a directory"@))
    }
}

/// What is said of a directory, given the answer of its filesystem.
pub open spec fn told_of_dir(r: Result<Vec<DirEntry>>) -> OutcomeView {
    match r {
        Ok(l) => OutcomeView::Lines(listing_lines(views(l@))),
        Err(e) => OutcomeView::Refused(e@),
    }
}

/// What is shown of a file, given the answer of its filesystem.
pub open spec fn told_of_file(r: Result<Vec<u8>>) -> OutcomeView {
    match r {
        Ok(d) => OutcomeView::Bytes(with_newline(d@)),
        Err(e) => OutcomeView::Refused(e@),
    }
}

/// What is to be written to `dest` of the file at `path`, given the answer of
/// its filesystem.
pub open spec fn to_be_saved(path: Seq<char>, dest: Seq<char>, r: Result<Vec<u8>>) -> OutcomeView {
    match r {
        Ok(d) => OutcomeView::Save { path, dest, data: d@ },
        Err(e) => OutcomeView::Refused(e@),
    }
}

/// What is said of a partition, given what it boots.
pub open spec fn told_of_boot(p: Partition, found: ScanView) -> OutcomeView {
    let part = p.index as nat;
    if found.entries.len() == 0 {
        OutcomeView::Failed("no boot entries on partition "@ + dec(part))
    } else {
        OutcomeView::Lines(scan_text(part, found, found.entries.len()))
    }
}

/// Going to another directory of the current filesystem.
pub open spec fn gone<F: FileSystem>(fs: F, st: ShellView, input: Seq<char>) -> (
    ShellView,
    OutcomeView,
) {
    let path = resolved(st.cwd, input);
    arrived(st, path, fs.listing(path) is Some)
}

/// Listing a directory.
pub open spec fn listed<F: FileSystem>(
    fss: Seq<(Partition, F)>,
    st: ShellView,
    input: Seq<char>,
) -> OutcomeView {
    match located(fss, st, input) {
        Err(e) => OutcomeView::Broken(e),
        Ok((i, path)) => match fss[i].1.listing(path) {
            Some(l) => OutcomeView::Lines(listing_lines(l)),
            None => OutcomeView::Refused(fss[i].1.listing_error(path)),
        },
    }
}

/// Showing a file.
pub open spec fn shown<F: FileSystem>(
    fss: Seq<(Partition, F)>,
    st: ShellView,
    input: Seq<char>,
) -> OutcomeView {
    match located(fss, st, input) {
        Err(e) => OutcomeView::Broken(e),
        Ok((i, path)) => match fss[i].1.file(path) {
            Some(d) => OutcomeView::Bytes(with_newline(d)),
            None => OutcomeView::Refused(fss[i].1.file_error(path)),
        },
    }
}

/// Copying a file out.
pub open spec fn saved<F: FileSystem>(
    fss: Seq<(Partition, F)>,
    st: ShellView,
    input: Seq<char>,
    dest: Seq<char>,
) -> OutcomeView {
    match located(fss, st, input) {
        Err(e) => OutcomeView::Broken(e),
        Ok((i, path)) => match fss[i].1.file(path) {
            Some(d) => OutcomeView::Save { path, dest, data: d },
            None => OutcomeView::Refused(fss[i].1.file_error(path)),
        },
    }
}

/// Showing what a partition boots.
pub open spec fn booted<F: FileSystem>(p: Partition, fs: F) -> OutcomeView {
    told_of_boot(p, scan_of(&fs))
}

/// What a request does, where every filesystem answers from what it holds: where the shell is then, and what comes of it.
pub open spec fn effect<F: FileSystem>(
    fss: Seq<(Partition, F)>,
    st: ShellView,
    req: RequestView,
) -> (ShellView, OutcomeView) {
    match req {
        RequestView::Nothing => (st, OutcomeView::Silent),
        RequestView::Help => (st, OutcomeView::Help),
        RequestView::Quit => (st, OutcomeView::Quit),
        RequestView::Parts => (st, OutcomeView::Parts),
        RequestView::Use(which) => used(fss, st, which),
        RequestView::Pwd => (
            st,
            OutcomeView::Lines(seq![uri_of(fss[st.current].0.index as nat, st.cwd)]),
        ),
        RequestView::Cd(input) => gone(fss[st.current].1, st, input),
        RequestView::Ls(input) => (st, listed(fss, st, input)),
        RequestView::Cat(input) => (st, shown(fss, st, input)),
        RequestView::Cp(input, dest) => (st, saved(fss, st, input, dest)),
        RequestView::Boot => (st, booted(fss[st.current].0, fss[st.current].1)),
        RequestView::Usage(how) => (st, OutcomeView::Failed(how)),
        RequestView::Unknown(cmd) => (
            st,
            OutcomeView::Failed("unknown command '"@ + cmd + "' — try 'help'"@),
        ),
    }
}

/// The effect is that the shell is at `st`, and that `out` comes of it.
pub open spec fn does(effect: (ShellView, OutcomeView), st: ShellView, out: OutcomeView) -> bool {
    effect.0 == st && effect.1 == out
}

/// Going to another directory of `fs`, whatever it answers.
pub open spec fn may_go<F: FileSystem>(
    fs: &F,
    st: ShellView,
    input: Seq<char>,
    after: ShellView,
    out: OutcomeView,
) -> bool {
    exists|l: Result<Vec<DirEntry>>| #[trigger]
        may_list(fs, resolved(st.cwd, input), l) && does(
            arrived(st, resolved(st.cwd, input), l is Ok),
            after,
            out,
        )
}

/// What a request can do, whatever the filesystems answer: from `st` the shell
/// gets to `after`, and `out` comes of it.
pub open spec fn came_of<F: FileSystem>(
    fss: Seq<(Partition, F)>,
    st: ShellView,
    req: RequestView,
    after: ShellView,
    out: OutcomeView,
) -> bool {
    match req {
        RequestView::Cd(input) => may_go(&fss[st.current].1, st, input, after, out),
        RequestView::Ls(input) => after == st && match located(fss, st, input) {
            Err(e) => out == OutcomeView::Broken(e),
            Ok((i, path)) => exists|l: Result<Vec<DirEntry>>| #[trigger]
                may_list(&fss[i].1, path, l) && out == told_of_dir(l),
        },
        RequestView::Cat(input) => after == st && match located(fss, st, input) {
            Err(e) => out == OutcomeView::Broken(e),
            Ok((i, path)) => exists|d: Result<Vec<u8>>| #[trigger]
                may_read(&fss[i].1, path, d) && out == told_of_file(d),
        },
        RequestView::Cp(input, dest) => after == st && match located(fss, st, input) {
            Err(e) => out == OutcomeView::Broken(e),
            Ok((i, path)) => exists|d: Result<Vec<u8>>| #[trigger]
                may_read(&fss[i].1, path, d) && out == to_be_saved(path, dest, d),
        },
        RequestView::Boot => after == st && exists|found: ScanView|
            one_source(found.entries) && out == #[trigger] told_of_boot(fss[st.current].0, found),
        _ => does(effect(fss, st, req), after, out),
    }
}

impl Shell {
    /// A shell on the first filesystem, at its root.
    pub fn new() -> (r: Shell)
        ensures
            r@ == (ShellView { current: 0, cwd: "/"@ }),
    {
        Shell { current: 0, cwd: "/".to_owned() }
    }

    /// What stands in front of the input.
    pub fn prompt<F>(&self, fss: &Vec<(Partition, F)>) -> (r: String)
        requires
            self.current < fss@.len(),
        ensures
            r@ == "lbx "@ + uri_of(fss@[self.current as int].0.index as nat, self.cwd@) + "> "@,
    {
        let mut out: String = "lbx ".to_owned();
        let u = uri(fss[self.current].0.index, self.cwd.as_str());
        out.append(u.as_str());
        out.append("> ");
        out
    }

    /// Turn a user path (relative, absolute, or pN: URI) into the filesystem
    /// to read from plus a normalized absolute path.
    pub fn locate<F>(&self, fss: &Vec<(Partition, F)>, input: &str) -> (r: core::result::Result<
        (usize, String),
        String,
    >)
        requires
            self.current < fss@.len(),
        ensures
            match located(fss@, self@, input@) {
                Ok((i, path)) => r matches Ok(x) && x.0 == i && x.1@ == path,
                Err(e) => r matches Err(x) && x@ == e,
            },
            r matches Ok(x) ==> x.0 < fss@.len(),
    {
        let (part, path) = parse_uri(input);
        match part {
            Some(n) => match find_part(fss, n) {
                Some(i) => Ok((i, resolve("/", path.as_str()))),
                None => Err(no_filesystem_on(n)),
            },
            None => Ok((self.current, resolve(self.cwd.as_str(), input))),
        }
    }

    /// Switch to another partition.
    fn switch_part<F>(&mut self, fss: &Vec<(Partition, F)>, which: &str) -> (r: Outcome)
        requires
            old(self).current < fss@.len(),
        ensures
            final(self).current < fss@.len(),
            does(used(fss@, old(self)@, which@), final(self)@, r@),
    {
        let c = chars(which);
        let digits = trimmed_start_char(c.as_slice(), 'p');
        match parse_usize(digits) {
            None => Outcome::NotANumber(string(digits)),
            Some(n) => match find_part(fss, n) {
                None => Outcome::Failed(no_filesystem_on(n)),
                Some(i) => {
                    self.current = i;
                    self.cwd = "/".to_owned();
                    Outcome::Silent
                },
            },
        }
    }

    /// Go to another directory.
    fn change_dir<F: FileSystem>(&mut self, fs: &F, input: &str) -> (r: Outcome)
        ensures
            final(self).current == old(self).current,
            fs.stable() ==> does(gone(*fs, old(self)@, input@), final(self)@, r@),
            may_go(fs, old(self)@, input@, final(self)@, r@),
    {
        let path = resolve(self.cwd.as_str(), input);
        let answer = fs.read_dir(path.as_str());
        assert(may_list(fs, path@, answer));
        match answer {
            Ok(_) => {
                self.cwd = path;
                Outcome::Silent
            },
            Err(_) => {
                let mut msg = path;
                msg.append(": not a directory");
                Outcome::Failed(msg)
            },
        }
    }

    /// List a directory.
    fn list<F: FileSystem>(&self, fss: &Vec<(Partition, F)>, input: &str) -> (r: Outcome)
        requires
            self.current < fss@.len(),
        ensures
            all_stable(fss@) ==> r@ == listed(fss@, self@, input@),
            came_of(fss@, self@, RequestView::Ls(input@), self@, r@),
    {
        match self.locate(fss, input) {
            Err(e) => Outcome::Broken(e),
            Ok((i, path)) => {
                assert(all_stable(fss@) ==> fss@[i as int].1.stable());
                let answer = fss[i].1.read_dir(path.as_str());
                assert(may_list(&fss@[i as int].1, path@, answer));
                match answer {
                    Ok(entries) => Outcome::Lines(listing(entries)),
                    Err(e) => Outcome::Refused(e),
                }
            },
        }
    }

    /// Show a file.
    fn cat<F: FileSystem>(&self, fss: &Vec<(Partition, F)>, input: &str) -> (r: Outcome)
        requires
            self.current < fss@.len(),
        ensures
            all_stable(fss@) ==> r@ == shown(fss@, self@, input@),
            came_of(fss@, self@, RequestView::Cat(input@), self@, r@),
    {
        match self.locate(fss, input) {
            Err(e) => Outcome::Broken(e),
            Ok((i, path)) => {
                assert(all_stable(fss@) ==> fss@[i as int].1.stable());
                let answer = fss[i].1.read_file(path.as_str());
                assert(may_read(&fss@[i as int].1, path@, answer));
                match answer {
                    Ok(data) => {
                        let mut data = data;
                        let n: usize = data.len();
                        if n == 0 || data[n - 1] != 10 {
                            data.push(10);
                        }
                        Outcome::Bytes(data)
                    },
                    Err(e) => Outcome::Refused(e),
                }
            },
        }
    }

    /// Copy a file out.
    fn copy_out<F: FileSystem>(&self, fss: &Vec<(Partition, F)>, input: &str, dest: String) -> (r:
        Outcome)
        requires
            self.current < fss@.len(),
        ensures
            all_stable(fss@) ==> r@ == saved(fss@, self@, input@, dest@),
            came_of(fss@, self@, RequestView::Cp(input@, dest@), self@, r@),
    {
        match self.locate(fss, input) {
            Err(e) => Outcome::Broken(e),
            Ok((i, path)) => {
                assert(all_stable(fss@) ==> fss@[i as int].1.stable());
                let answer = fss[i].1.read_file(path.as_str());
                assert(may_read(&fss@[i as int].1, path@, answer));
                match answer {
                    Ok(data) => Outcome::Save { path, dest, data },
                    Err(e) => Outcome::Refused(e),
                }
            },
        }
    }

    /// Show what the current partition boots.
    fn show_boot<F: FileSystem>(&self, p: &Partition, fs: &F) -> (r: Outcome)
        ensures
            fs.stable() ==> r@ == booted(*p, *fs),
            exists|found: ScanView|
                one_source(found.entries) && r@ == #[trigger] told_of_boot(*p, found),
    {
        match scan(fs) {
            Err(e) => Outcome::Refused(e),
            Ok(found) => {
                assert(found@.entries.len() == found.entries@.len());
                let out = match scan_lines(p.index, &found) {
                    Ok(lines) => Outcome::Lines(lines),
                    Err(e) => Outcome::Failed(e),
                };
                assert(out@ == told_of_boot(*p, found@));
                out
            },
        }
    }

    /// Show where the shell is.
    fn show_place<F>(&self, fss: &Vec<(Partition, F)>) -> (r: Outcome)
        requires
            self.current < fss@.len(),
        ensures
            r@ == OutcomeView::Lines(
                seq![uri_of(fss@[self.current as int].0.index as nat, self.cwd@)],
            ),
    {
        let mut out: Vec<String> = Vec::new();
        out.push(uri(fss[self.current].0.index, self.cwd.as_str()));
        assert(views(out@) =~= seq![
            uri_of(fss@[self.current as int].0.index as nat, self.cwd@),
        ]);
        Outcome::Lines(out)
    }

    /// Do what is asked for. Only `use` and `cd` move the shell.
    pub fn obey<F: FileSystem>(&mut self, fss: &Vec<(Partition, F)>, req: Request) -> (r: Outcome)
        requires
            old(self).current < fss@.len(),
        ensures
            final(self).current < fss@.len(),
            all_stable(fss@) ==> does(effect(fss@, old(self)@, req@), final(self)@, r@),
            came_of(fss@, old(self)@, req@, final(self)@, r@),
            !(req@ is Use) && !(req@ is Cd) ==> final(self)@ == old(self)@,
    {
        let current: usize = self.current;
        assert(all_stable(fss@) ==> fss@[current as int].1.stable());
        match req {
            Request::Nothing => Outcome::Silent,
            Request::Help => Outcome::Help,
            Request::Quit => Outcome::Quit,
            Request::Parts => Outcome::Parts,
            Request::Use(which) => self.switch_part(fss, which.as_str()),
            Request::Pwd => self.show_place(fss),
            Request::Cd(input) => self.change_dir(&fss[current].1, input.as_str()),
            Request::Ls(input) => self.list(fss, input.as_str()),
            Request::Cat(input) => self.cat(fss, input.as_str()),
            Request::Cp(input, dest) => self.copy_out(fss, input.as_str(), dest),
            Request::Boot => self.show_boot(&fss[current].0, &fss[current].1),
            Request::Usage(how) => Outcome::Failed(how.to_owned()),
            Request::Unknown(cmd) => {
                let mut msg: String = "unknown command '".to_owned();
                msg.append(cmd.as_str());
                msg.append("' — try 'help'");
                Outcome::Failed(msg)
            },
        }
    }

    /// Do what a line asks for.
    pub fn step<F: FileSystem>(&mut self, fss: &Vec<(Partition, F)>, line: &str) -> (r: Outcome)
        requires
            old(self).current < fss@.len(),
        ensures
            final(self).current < fss@.len(),
            all_stable(fss@) ==> does(
                effect(fss@, old(self)@, asked(words(line@))),
                final(self)@,
                r@,
            ),
            came_of(fss@, old(self)@, asked(words(line@)), final(self)@, r@),
            !(asked(words(line@)) is Use) && !(asked(words(line@)) is Cd) ==> final(self)@ == old(
                self,
            )@,
    {
        self.obey(fss, request(line))
    }
}

/// Whatever is asked and answered, the shell stays on a filesystem that there is,
/// and in a directory whose path is resolved.
pub proof fn law_the_shell_stays_somewhere<F: FileSystem>(
    fss: Seq<(Partition, F)>,
    st: ShellView,
    req: RequestView,
    after: ShellView,
    out: OutcomeView,
)
    requires
        0 <= st.current < fss.len(),
        is_resolved(st.cwd),
        came_of(fss, st, req, after, out),
    ensures
        0 <= after.current < fss.len(),
        is_resolved(after.cwd),
{
    law_root_is_resolved();
    match req {
        RequestView::Use(which) => {
            let n = parse_unsigned(trim_start_char(which, 'p'), 10, usize::MAX as int);
            if n is Some {
                lemma_position(numbers(fss), is_number(n->0));
            }
        },
        RequestView::Cd(input) => {
            law_resolving_again_changes_nothing(st.cwd, input, "/"@);
        },
        _ => {},
    }
}

/// Only `use` and `cd` move the shell.
pub proof fn law_other_commands_stay<F: FileSystem>(
    fss: Seq<(Partition, F)>,
    st: ShellView,
    req: RequestView,
    after: ShellView,
    out: OutcomeView,
)
    requires
        req !is Use,
        req !is Cd,
        came_of(fss, st, req, after, out),
    ensures
        after == st,
{
}

} // verus!
