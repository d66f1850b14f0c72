# fr_engine

A file-recovery engine whose logic is written in Verus and proved against
its contracts: boot-sector and superblock parsers (NTFS, FAT32/exFAT, ext,
HFS+, APFS, ReFS, UFS), deleted-entry scans, USN journal and `$LogFile`
parsing, signature carving, RAID layout detection and virtual assembly,
recovery planning (which bytes of the volume go where in the output), scan
sessions, and the confidence scoring that ranks candidates.

## Layout

- `src/` is the verified library. Each module states what its functions
  return over spec functions and views, and proves it; laws that relate
  several functions are public proof functions named `law_*`.
- `tests/` runs the library on concrete volumes and buffers.
- `app/` is the unverified shell around it: reading and writing files,
  the session registry, the clock, and the serde copies of the library's
  types.

Verify with Verus; the tests run with `cargo test`.
