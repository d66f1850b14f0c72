use fr_engine::source_reads::{
    aligned_read, carve_window_len, destination_separation_status, prefix_scan_len, round_up, AlignedRead,
};

const MIB: u64 = 1024 * 1024;

#[test]
fn prefix_scan_takes_at_most_256_mib() {
    assert_eq!(prefix_scan_len(Some(4096)), 4096);
    assert_eq!(prefix_scan_len(Some(1 << 40)), 256 * MIB as usize);
    assert_eq!(prefix_scan_len(None), 64 * MIB as usize);
    assert_eq!(prefix_scan_len(Some(0)), 0);
}

#[test]
fn carve_window_is_cut_at_the_source_end() {
    assert_eq!(carve_window_len(Some(10 * MIB), 0, 0), 10 * MIB as usize);
    assert_eq!(carve_window_len(Some(100 * MIB), 0, 0), 64 * MIB as usize);
    assert_eq!(carve_window_len(Some(10 * MIB), 4 * MIB, 8 * MIB), 6 * MIB as usize);
    assert_eq!(carve_window_len(Some(10 * MIB), 10 * MIB, 8 * MIB), 0);
    assert_eq!(carve_window_len(None, 0, 0), 8 * MIB as usize);
    assert_eq!(carve_window_len(None, 0, 4096), 4096);
}

#[test]
fn round_up_to_alignment() {
    assert_eq!(round_up(0, 512), Some(0));
    assert_eq!(round_up(1, 512), Some(512));
    assert_eq!(round_up(1024, 512), Some(1024));
    assert_eq!(round_up(usize::MAX, 512), None);
}

#[test]
fn aligned_reads_cover_the_wanted_bytes() {
    assert_eq!(aligned_read(1000, 100, 512), Some(AlignedRead { aligned_offset: 512, prefix_len: 488, aligned_len: 1024 }));
    assert_eq!(aligned_read(1024, 512, 512), Some(AlignedRead { aligned_offset: 1024, prefix_len: 0, aligned_len: 512 }));
    assert_eq!(aligned_read(0, usize::MAX, 4096), None);
}

#[test]
fn destination_on_the_source_volume_is_flagged() {
    assert_eq!(destination_separation_status("C:", "c:"), 1);
    assert_eq!(destination_separation_status("\\\\?\\Volume{ABC}", "\\\\?\\volume{abc}"), 1);
    assert_eq!(destination_separation_status("C:", "D:"), 0);
    assert_eq!(destination_separation_status("C:", "C:\\"), 0);
    // Only ASCII letters fold.
    assert_eq!(destination_separation_status("Ä", "ä"), 0);
}
