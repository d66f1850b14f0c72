use vstd::prelude::*;

pub mod bytes;
pub mod text;
pub mod types;
pub mod scoring;
pub mod ntfs;
pub mod usn;
pub mod tombstone;
pub mod apfs;
pub mod hfs;
pub mod ufs;
pub mod refs;
pub mod raid;
pub mod mft;
pub mod session;
pub mod ext;
pub mod fat;
pub mod records;
pub mod logfile;
pub mod carving;
pub mod recovery;
pub mod ext_recovery;
pub mod ntfs_recovery;
pub mod fat_recovery;
pub mod payload_recovery;
pub mod virtual_raid;
pub mod source_reads;
pub mod volume_scans;

verus! {

} // verus!
