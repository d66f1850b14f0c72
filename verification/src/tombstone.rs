//! Fixed-size deletion tombstone records shared by the APFS, HFS+ and UFS
//! scanners: an eight-byte marker, an object id, a size, flags, and
//! fixed-capacity name and path fields.
use vstd::prelude::*;
use crate::bytes::{bytes_match_at, le32, le64, read_u32_le, read_u64_le};
use crate::text::{
    ascii_lower, ascii_lowercase, chars_equal, decode_metadata_text, metadata_text,
    normalize_candidate_path, normalized_path, relative_path, relative_path_of,
};

verus! {

/// Capacity of the name field.
pub const TOMBSTONE_NAME_CAPACITY: usize = 96;
/// Capacity of the path field.
pub const TOMBSTONE_PATH_CAPACITY: usize = 192;

/// Size of a record whose id is 64-bit (`wide`) or 32-bit.
pub open spec fn record_size(wide: bool) -> int {
    if wide {
        316
    } else {
        312
    }
}

/// Offset of the flags byte.
pub open spec fn flags_offset(wide: bool) -> int {
    if wide {
        24
    } else {
        20
    }
}

/// A decoded tombstone.
pub struct TombstoneView {
    pub id: u64,
    pub size_bytes: u64,
    pub name: Seq<char>,
    pub path: Seq<char>,
    pub is_directory: bool,
}

/// A decoded tombstone, executable form.
pub struct TombstoneEntry {
    pub id: u64,
    pub size_bytes: u64,
    pub name: Vec<char>,
    pub path: Vec<char>,
    pub is_directory: bool,
}

impl View for TombstoneEntry {
    type V = TombstoneView;

    open spec fn view(&self) -> TombstoneView {
        TombstoneView {
            id: self.id,
            size_bytes: self.size_bytes,
            name: self.name@,
            path: self.path@,
            is_directory: self.is_directory,
        }
    }
}

/// The views of a sequence of entries.
pub open spec fn entry_views(v: Seq<TombstoneEntry>) -> Seq<TombstoneView> {
    Seq::new(v.len(), |i: int| v[i]@)
}

/// The tombstone held by record `r` (of `record_size(wide)` bytes), if it is
/// well formed: a non-zero id, a name of 1..=96 bytes, a path of at most 192
/// bytes, both decodable as metadata text.
pub open spec fn tombstone_of(r: Seq<u8>, wide: bool) -> Option<TombstoneView> {
    let id = if wide { le64(r, 8) } else { le32(r, 8) };
    let size = if wide { le64(r, 16) } else { le64(r, 12) };
    let fo = flags_offset(wide);
    let name_len = r[fo + 1] as int;
    let path_len = r[fo + 2] as int;
    let name_start = fo + 4;
    let path_start = name_start + 96;
    if id == 0 || name_len == 0 || name_len > 96 || path_len > 192 {
        None
    } else {
        match metadata_text(r.subrange(name_start, name_start + name_len)) {
            None => None,
            Some(name) => {
                if path_len == 0 {
                    Some(
                        TombstoneView {
                            id: id as u64,
                            size_bytes: size as u64,
                            name,
                            path: relative_path(name),
                            is_directory: r[fo] & 1 != 0,
                        },
                    )
                } else {
                    match metadata_text(r.subrange(path_start, path_start + path_len)) {
                        None => None,
                        Some(p) => Some(
                            TombstoneView {
                                id: id as u64,
                                size_bytes: size as u64,
                                name,
                                path: normalized_path(p),
                                is_directory: r[fo] & 1 != 0,
                            },
                        ),
                    }
                }
            },
        }
    }
}

/// Some earlier tombstone has the same id and the same path up to ASCII case.
pub open spec fn tombstone_seen(acc: Seq<TombstoneView>, c: TombstoneView) -> bool {
    exists|i: int|
        0 <= i < acc.len() && acc[i].id == c.id && ascii_lower(acc[i].path) == ascii_lower(c.path)
}

/// The scan from `off` on, having collected `acc`: at a marker the record is
/// decoded (and kept unless seen before) and skipped whole; elsewhere the scan
/// advances by eight bytes; it stops at the end or once `max` are collected.
pub open spec fn tombstone_scan(
    img: Seq<u8>,
    marker: Seq<u8>,
    wide: bool,
    max: int,
    off: int,
    acc: Seq<TombstoneView>,
) -> Seq<TombstoneView>
    decreases img.len() - off,
{
    let rs = record_size(wide);
    if off < 0 || off + rs > img.len() || acc.len() >= max {
        acc
    } else if img.subrange(off, off + 8) == marker {
        let acc2 = match tombstone_of(img.subrange(off, off + rs), wide) {
            Some(c) => if tombstone_seen(acc, c) {
                acc
            } else {
                acc.push(c)
            },
            None => acc,
        };
        tombstone_scan(img, marker, wide, max, off + rs, acc2)
    } else {
        tombstone_scan(img, marker, wide, max, off + 8, acc)
    }
}

/// Ids of narrow records fit in 32 bits.
pub open spec fn ids_fit_u32(acc: Seq<TombstoneView>) -> bool {
    forall|i: int| 0 <= i < acc.len() ==> acc[i].id <= u32::MAX
}

/// Scanning narrow records only ever collects 32-bit ids.
pub proof fn lemma_narrow_scan_ids(
    img: Seq<u8>,
    marker: Seq<u8>,
    max: int,
    off: int,
    acc: Seq<TombstoneView>,
)
    requires
        ids_fit_u32(acc),
    ensures
        ids_fit_u32(tombstone_scan(img, marker, false, max, off, acc)),
    decreases img.len() - off,
{
    let rs = record_size(false);
    if off < 0 || off + rs > img.len() || acc.len() >= max {
    } else if img.subrange(off, off + 8) == marker {
        let r = img.subrange(off, off + rs);
        let acc2 = match tombstone_of(r, false) {
            Some(c) => if tombstone_seen(acc, c) {
                acc
            } else {
                acc.push(c)
            },
            None => acc,
        };
        assert(le32(r, 8) <= u32::MAX);
        assert(ids_fit_u32(acc2));
        lemma_narrow_scan_ids(img, marker, max, off + rs, acc2);
    } else {
        lemma_narrow_scan_ids(img, marker, max, off + 8, acc);
    }
}

/// Decodes the tombstone at `start`.
pub fn parse_tombstone_record(image: &[u8], start: usize, wide: bool) -> (r: Option<TombstoneEntry>)
    requires
        start + record_size(wide) <= image@.len(),
    ensures
        match (r, tombstone_of(image@.subrange(start as int, start + record_size(wide)), wide)) {
            (Some(e), Some(v)) => e@ == v,
            (None, None) => true,
            _ => false,
        },
{
    let rs: usize = if wide { 316 } else { 312 };
    let _n = image.len();
    let record = &image[start..start + rs];
    let id: u64 = if wide { read_u64_le(record, 8) } else { read_u32_le(record, 8) as u64 };
    let size_bytes = if wide { read_u64_le(record, 16) } else { read_u64_le(record, 12) };
    let fo: usize = if wide { 24 } else { 20 };
    let flags = record[fo];
    let name_len = record[fo + 1] as usize;
    let path_len = record[fo + 2] as usize;
    if id == 0 || name_len == 0 || name_len > TOMBSTONE_NAME_CAPACITY || path_len
        > TOMBSTONE_PATH_CAPACITY {
        return None;
    }
    let name_start = fo + 4;
    let path_start = name_start + TOMBSTONE_NAME_CAPACITY;
    let name = match decode_metadata_text(&record[name_start..name_start + name_len]) {
        Some(n) => n,
        None => return None,
    };
    let path = if path_len == 0 {
        relative_path_of(&name)
    } else {
        match decode_metadata_text(&record[path_start..path_start + path_len]) {
            Some(p) => normalize_candidate_path(&p),
            None => return None,
        }
    };
    Some(TombstoneEntry { id, size_bytes, name, path, is_directory: flags & 1 != 0 })
}

/// Whether `keys` holds `(id, text)`.
pub fn contains_key(keys: &Vec<(u64, Vec<char>)>, id: u64, text: &Vec<char>) -> (b: bool)
    ensures
        b == exists|i: int| 0 <= i < keys@.len() && keys@[i].0 == id && keys@[i].1@ == text@,
{
    let mut k: usize = 0;
    while k < keys.len()
        invariant
            k <= keys@.len(),
            forall|i: int| 0 <= i < k ==> !(keys@[i].0 == id && keys@[i].1@ == text@),
        decreases keys@.len() - k,
    {
        if keys[k].0 == id && chars_equal(&keys[k].1, text) {
            return true;
        }
        k = k + 1;
    }
    false
}

/// Scans `image` for tombstones that start with `marker`.
pub fn scan_tombstones(image: &[u8], marker: &[u8], wide: bool, max_entries: usize) -> (out: Vec<
    TombstoneEntry,
>)
    requires
        marker@.len() == 8,
    ensures
        entry_views(out@) == tombstone_scan(
            image@,
            marker@,
            wide,
            max_entries as int,
            0,
            Seq::empty(),
        ),
        !wide ==> ids_fit_u32(entry_views(out@)),
{
    proof {
        if !wide {
            lemma_narrow_scan_ids(image@, marker@, max_entries as int, 0, Seq::empty());
        }
    }
    let rs: usize = if wide { 316 } else { 312 };
    let n = image.len();
    let mut out: Vec<TombstoneEntry> = Vec::new();
    let mut keys: Vec<(u64, Vec<char>)> = Vec::new();
    let mut offset: usize = 0;
    assert(entry_views(out@) =~= Seq::<TombstoneView>::empty());
    while offset <= n && rs <= n - offset && out.len() < max_entries
        invariant
            n == image@.len(),
            rs == record_size(wide),
            marker@.len() == 8,
            keys@.len() == out@.len(),
            forall|i: int|
                #![trigger keys@[i]]
                0 <= i < keys@.len() ==> keys@[i].0 == out@[i].id && keys@[i].1@ == ascii_lower(
                    out@[i].path@,
                ),
            tombstone_scan(image@, marker@, wide, max_entries as int, 0, Seq::empty())
                == tombstone_scan(
                image@,
                marker@,
                wide,
                max_entries as int,
                offset as int,
                entry_views(out@),
            ),
        decreases n + 8 - offset,
    {
        if bytes_match_at(image, offset, marker) {
            let ghost acc = entry_views(out@);
            if let Some(candidate) = parse_tombstone_record(image, offset, wide) {
                let key_path = ascii_lowercase(&candidate.path);
                let seen = contains_key(&keys, candidate.id, &key_path);
                proof {
                    if seen {
                        let i = choose|i: int|
                            0 <= i < keys@.len() && keys@[i].0 == candidate.id && keys@[i].1@
                                == key_path@;
                        assert(acc[i].id == candidate@.id);
                    } else {
                        assert forall|i: int| 0 <= i < acc.len() implies !(acc[i].id
                            == candidate@.id && ascii_lower(acc[i].path) == ascii_lower(
                            candidate@.path,
                        )) by {
                            assert(keys@[i].0 == out@[i].id);
                        }
                    }
                }
                if !seen {
                    let ghost cv = candidate@;
                    let cid = candidate.id;
                    let ghost old_keys = keys@;
                    out.push(candidate);
                    keys.push((cid, key_path));
                    assert forall|i: int| 0 <= i < keys@.len() implies keys@[i].0 == out@[i].id
                        && keys@[i].1@ == ascii_lower(out@[i].path@) by {
                        if i < keys@.len() - 1 {
                            assert(keys@[i] == old_keys[i]);
                        }
                    }
                    assert(entry_views(out@) =~= acc.push(cv));
                }
            }
            offset = offset + rs;
        } else {
            offset = offset + 8;
        }
    }
    out
}

} // verus!
