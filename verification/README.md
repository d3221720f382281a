# lbx

Read kernels, initramfs images and boot configs out of VM disk images (raw or
qcow2, local or remote) without mounting anything - as a verified library.

Every layer stacks on one trait, `blockdev::ReadAt`, a byte-addressed read-only
device:

```
disk image (qcow2 / raw / remote)   disk, source
  └─ partition table (GPT / MBR)    part
       └─ partition slice           blockdev
            └─ filesystem           fsys
                 └─ boot entries    boot, guest
                      └─ kernel     kernel
```

| Directory | What it holds |
|---|---|
| `src/` | the library; all of it is verified by Verus |
| `tests/` | what runs it |
| `app/` | the command line tool: files, sockets, TLS, and the filesystem drivers |

## Reading the contracts

* A device says what it holds (`ReadAt::bytes`), a filesystem what it stores
  (`FileSystem::file`, `FileSystem::listing`, ...). Functions over them are
  specified in those terms wherever the device is `sound` or the filesystem is
  `stable`; an implementation whose reads can fail in passing leaves that false,
  and then only what holds of every outcome is promised.
* A fetcher says what it reaches (`RangeFetcher::server`) and what it was asked
  for (`RangeFetcher::calls`), so that `ChunkCache` can promise not only the bytes
  of a read but also which chunks are fetched for it, and that none is twice.
* Each parser has a spec function that says what a text means
  (`boot::grub::grub_scan`, `part::gpt::gpt_of`, ...); the executable code is
  proved to return exactly that, errors included.
* Public proof functions named `law_...` state what holds across functions: that
  a fixed command line stays as it is when fixed again, that the default entry is
  one of the entries, that URIs read back, and so on.
* What comes from outside crates (inflating, gunzip, zstd, MD5) is behind a few
  small trusted functions, each with a comment that says what is believed of it.
