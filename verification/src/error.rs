//! What can go wrong, and how it is reported.

use crate::text::number::{dec, push_dec};
use vstd::prelude::*;
use vstd::string::*;

verus! {

pub type Result<T> = core::result::Result<T, Error>;

/// Why an operation failed.
#[derive(Debug)]
pub enum Error {
    /// The operating system refused; what it said.
    Io(String),
    OutOfBounds { offset: u64, len: usize, size: u64 },
    UnknownImageFormat(String),
    Qcow2(String),
    Qcow2Unsupported(String),
    Gpt(String),
    NoPartitions,
    NoSuchPartition(usize),
    UnknownFilesystem(Option<&'static str>),
    Ext4(String),
    Vfat(String),
    NotFound(String),
    NotADirectory(String),
    NoBootArtifacts,
    Http(String),
    KernelDecompress(String),
}

/// What an [`Error`] says.
pub enum ErrorView {
    Io(Seq<char>),
    OutOfBounds { offset: u64, len: usize, size: u64 },
    UnknownImageFormat(Seq<char>),
    Qcow2(Seq<char>),
    Qcow2Unsupported(Seq<char>),
    Gpt(Seq<char>),
    NoPartitions,
    NoSuchPartition(usize),
    UnknownFilesystem(Option<Seq<char>>),
    Ext4(Seq<char>),
    Vfat(Seq<char>),
    NotFound(Seq<char>),
    NotADirectory(Seq<char>),
    NoBootArtifacts,
    Http(Seq<char>),
    KernelDecompress(Seq<char>),
}

impl View for Error {
    type V = ErrorView;

    open spec fn view(&self) -> ErrorView {
        match *self {
            Error::Io(s) => ErrorView::Io(s@),
            Error::OutOfBounds { offset, len, size } => ErrorView::OutOfBounds { offset, len, size },
            Error::UnknownImageFormat(s) => ErrorView::UnknownImageFormat(s@),
            Error::Qcow2(s) => ErrorView::Qcow2(s@),
            Error::Qcow2Unsupported(s) => ErrorView::Qcow2Unsupported(s@),
            Error::Gpt(s) => ErrorView::Gpt(s@),
            Error::NoPartitions => ErrorView::NoPartitions,
            Error::NoSuchPartition(n) => ErrorView::NoSuchPartition(n),
            Error::UnknownFilesystem(n) => ErrorView::UnknownFilesystem(
                match n {
                    Some(s) => Some(s@),
                    None => None,
                },
            ),
            Error::Ext4(s) => ErrorView::Ext4(s@),
            Error::Vfat(s) => ErrorView::Vfat(s@),
            Error::NotFound(s) => ErrorView::NotFound(s@),
            Error::NotADirectory(s) => ErrorView::NotADirectory(s@),
            Error::NoBootArtifacts => ErrorView::NoBootArtifacts,
            Error::Http(s) => ErrorView::Http(s@),
            Error::KernelDecompress(s) => ErrorView::KernelDecompress(s@),
        }
    }
}

impl ErrorView {
    /// The message shown to a user.
    pub open spec fn message(self) -> Seq<char> {
        match self {
            ErrorView::Io(s) => "I/O error: "@ + s,
            ErrorView::OutOfBounds { offset, len, size } => "read out of bounds: offset "@ + dec(
                offset as nat,
            ) + " + len "@ + dec(len as nat) + " > size "@ + dec(size as nat),
            ErrorView::UnknownImageFormat(s) => "not a supported disk image: "@ + s,
            ErrorView::Qcow2(s) => "qcow2: "@ + s,
            ErrorView::Qcow2Unsupported(s) => "qcow2 feature not supported yet: "@ + s,
            ErrorView::Gpt(s) => "gpt: "@ + s,
            ErrorView::NoPartitions =>
                "no partition table found and whole disk is not a filesystem"@,
            ErrorView::NoSuchPartition(n) => "partition "@ + dec(n as nat) + " does not exist"@,
            ErrorView::UnknownFilesystem(n) => match n {
                Some(name) => "unrecognized filesystem (detected "@ + name
                    + ", not supported yet)"@,
                None => "unrecognized filesystem"@,
            },
            ErrorView::Ext4(s) => "ext4: "@ + s,
            ErrorView::Vfat(s) => "vfat: "@ + s,
            ErrorView::NotFound(s) => "file not found: "@ + s,
            ErrorView::NotADirectory(s) => "not a directory: "@ + s,
            ErrorView::NoBootArtifacts =>
                "no boot artifacts (kernel/initramfs) found in any partition"@,
            ErrorView::Http(s) => "http: "@ + s,
            ErrorView::KernelDecompress(s) => "kernel decompression: "@ + s,
        }
    }
}

impl Error {
    /// The message shown to a user.
    pub fn message(&self) -> (r: String)
        ensures
            r@ == self@.message(),
    {
        let mut out: String = String::new();
        match self {
            Error::Io(s) => {
                out.append("I/O error: ");
                out.append(s.as_str());
            },
            Error::OutOfBounds { offset, len, size } => {
                out.append("read out of bounds: offset ");
                push_dec(&mut out, *offset);
                out.append(" + len ");
                push_dec(&mut out, *len as u64);
                out.append(" > size ");
                push_dec(&mut out, *size);
            },
            Error::UnknownImageFormat(s) => {
                out.append("not a supported disk image: ");
                out.append(s.as_str());
            },
            Error::Qcow2(s) => {
                out.append("qcow2: ");
                out.append(s.as_str());
            },
            Error::Qcow2Unsupported(s) => {
                out.append("qcow2 feature not supported yet: ");
                out.append(s.as_str());
            },
            Error::Gpt(s) => {
                out.append("gpt: ");
                out.append(s.as_str());
            },
            Error::NoPartitions => {
                out.append("no partition table found and whole disk is not a filesystem");
            },
            Error::NoSuchPartition(n) => {
                out.append("partition ");
                push_dec(&mut out, *n as u64);
                out.append(" does not exist");
            },
            Error::UnknownFilesystem(n) => match n {
                Some(name) => {
                    out.append("unrecognized filesystem (detected ");
                    out.append(name);
                    out.append(", not supported yet)");
                },
                None => {
                    out.append("unrecognized filesystem");
                },
            },
            Error::Ext4(s) => {
                out.append("ext4: ");
                out.append(s.as_str());
            },
            Error::Vfat(s) => {
                out.append("vfat: ");
                out.append(s.as_str());
            },
            Error::NotFound(s) => {
                out.append("file not found: ");
                out.append(s.as_str());
            },
            Error::NotADirectory(s) => {
                out.append("not a directory: ");
                out.append(s.as_str());
            },
            Error::NoBootArtifacts => {
                out.append("no boot artifacts (kernel/initramfs) found in any partition");
            },
            Error::Http(s) => {
                out.append("http: ");
                out.append(s.as_str());
            },
            Error::KernelDecompress(s) => {
                out.append("kernel decompression: ");
                out.append(s.as_str());
            },
        }
        assert(out@ =~= self@.message());
        out
    }
}

/// What each error says.
pub proof fn law_messages(s: Seq<char>, n: usize, a: u64, b: usize, c: u64)
    ensures
        ErrorView::Io(s).message() == "I/O error: "@ + s,
        (ErrorView::OutOfBounds { offset: a, len: b, size: c }).message()
            == "read out of bounds: offset "@ + dec(a as nat) + " + len "@ + dec(b as nat)
            + " > size "@ + dec(c as nat),
        ErrorView::UnknownImageFormat(s).message() == "not a supported disk image: "@ + s,
        ErrorView::Qcow2(s).message() == "qcow2: "@ + s,
        ErrorView::Qcow2Unsupported(s).message() == "qcow2 feature not supported yet: "@ + s,
        ErrorView::Gpt(s).message() == "gpt: "@ + s,
        ErrorView::NoPartitions.message()
            == "no partition table found and whole disk is not a filesystem"@,
        ErrorView::NoSuchPartition(n).message() == "partition "@ + dec(n as nat) + " does not exist"@,
        ErrorView::UnknownFilesystem(Some(s)).message() == "unrecognized filesystem (detected "@ + s
            + ", not supported yet)"@,
        ErrorView::UnknownFilesystem(None).message() == "unrecognized filesystem"@,
        ErrorView::Ext4(s).message() == "ext4: "@ + s,
        ErrorView::Vfat(s).message() == "vfat: "@ + s,
        ErrorView::NotFound(s).message() == "file not found: "@ + s,
        ErrorView::NotADirectory(s).message() == "not a directory: "@ + s,
        ErrorView::NoBootArtifacts.message()
            == "no boot artifacts (kernel/initramfs) found in any partition"@,
        ErrorView::Http(s).message() == "http: "@ + s,
        ErrorView::KernelDecompress(s).message() == "kernel decompression: "@ + s,
{
}

} // verus!
