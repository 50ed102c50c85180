//! Parser for the FreeArc DIRECTORY block.
//!
//! A DIR block sits immediately after the solid blocks it describes
//! and is split into three struct-of-arrays sections:
//!
//!   1. Solid-block table: how many files, compressor, position,
//!      compressed size — one column per field.
//!   2. Directory name list: parent directory paths the file entries
//!      will reference by index.
//!   3. File table: base name, dir index, size, mtime, is-dir flag,
//!      CRC — one column per field.
//!
//! All numeric fields are varint except for `time` and `crc`, which
//! the format pins to 4 bytes each.

use vstd::prelude::*;

use crate::bytes::{cstring_at, nul_free, nul_from, read_cstring, read_u32_le, slice_range, u32_at};
use crate::error::ArcError;
use crate::varint::{read_varint, trailing_ones, varint_at, varint_decode};

verus! {

#[derive(Debug, Clone)]
pub struct SolidBlock {
    pub n_files: u64,
    pub compressor: String,
    /// Offset relative to the start of the DIR block. Subtract from
    /// the DIR block's absolute position to get the solid block's
    /// absolute file offset (DIR sits AFTER its solid blocks).
    pub rel_pos: u64,
    pub compsize: u64,
}

#[derive(Debug, Clone)]
pub struct FileEntry {
    pub basename: String,
    /// Index into the parent DIR's `dirs` list. Out-of-range values
    /// mark root-level entries.
    pub dir_index: u64,
    pub size: u64,
    /// 32-bit timestamp as FreeArc writes it, passed through.
    pub time: u32,
    pub is_dir: bool,
    pub crc: u32,
}

#[derive(Debug, Clone)]
pub struct DirBlock {
    pub solid_blocks: Vec<SolidBlock>,
    pub dirs: Vec<String>,
    pub files: Vec<FileEntry>,
}

pub struct SolidBlockView {
    pub n_files: u64,
    pub compressor: Seq<char>,
    pub rel_pos: u64,
    pub compsize: u64,
}

pub struct FileEntryView {
    pub basename: Seq<char>,
    pub dir_index: u64,
    pub size: u64,
    pub time: u32,
    pub is_dir: bool,
    pub crc: u32,
}

pub struct DirBlockView {
    pub solid_blocks: Seq<SolidBlockView>,
    pub dirs: Seq<Seq<char>>,
    pub files: Seq<FileEntryView>,
}

impl View for SolidBlock {
    type V = SolidBlockView;

    open spec fn view(&self) -> SolidBlockView {
        SolidBlockView {
            n_files: self.n_files,
            compressor: self.compressor@,
            rel_pos: self.rel_pos,
            compsize: self.compsize,
        }
    }
}

impl View for FileEntry {
    type V = FileEntryView;

    open spec fn view(&self) -> FileEntryView {
        FileEntryView {
            basename: self.basename@,
            dir_index: self.dir_index,
            size: self.size,
            time: self.time,
            is_dir: self.is_dir,
            crc: self.crc,
        }
    }
}

impl View for DirBlock {
    type V = DirBlockView;

    open spec fn view(&self) -> DirBlockView {
        DirBlockView {
            solid_blocks: self.solid_blocks@.map_values(|b: SolidBlock| b@),
            dirs: self.dirs@.map_values(|d: String| d@),
            files: self.files@.map_values(|f: FileEntry| f@),
        }
    }
}

/// Path of a file entry: its parent directory name, a slash and its
/// base name; just the base name when the parent is the empty root or
/// the index is out of range.
pub open spec fn full_path_of(dirs: Seq<Seq<char>>, f: FileEntryView) -> Seq<char> {
    if f.dir_index < dirs.len() {
        let parent = dirs[f.dir_index as int];
        if parent.len() == 0 {
            f.basename
        } else {
            parent + seq!['/'] + f.basename
        }
    } else {
        f.basename
    }
}

impl DirBlock {
    /// Resolve a file entry's full path by joining its parent dir
    /// (if any) with its basename. Returns just the basename when
    /// `dir_index` is out of range, which FreeArc uses for root-level
    /// entries.
    pub fn full_path(&self, f: &FileEntry) -> (p: String)
        ensures
            p@ == full_path_of(self@.dirs, f@),
    {
        if f.dir_index < self.dirs.len() as u64 {
            let parent = &self.dirs[f.dir_index as usize];
            if parent.as_str().is_empty() {
                f.basename.clone()
            } else {
                let mut s = parent.clone();
                s.append("/");
                s.append(f.basename.as_str());
                proof {
                    reveal_strlit("/");
                }
                assert(s@ =~= parent@ + seq!['/'] + f.basename@);
                s
            }
        } else {
            f.basename.clone()
        }
    }
}

/// `n` consecutive varints from `pos`, with the position after them.
pub open spec fn varint_column(buf: Seq<u8>, pos: int, n: nat) -> Option<(Seq<u64>, int)>
    decreases n,
{
    if n == 0 {
        Some((Seq::empty(), pos))
    } else {
        match varint_at(buf, pos) {
            None => None,
            Some((v, k)) => match varint_column(buf, pos + k, (n - 1) as nat) {
                None => None,
                Some((rest, q)) => Some((seq![v] + rest, q)),
            },
        }
    }
}

/// `n` consecutive NUL-terminated strings from `pos`.
pub open spec fn cstring_column(buf: Seq<u8>, pos: int, n: nat) -> Option<(Seq<Seq<char>>, int)>
    decreases n,
{
    if n == 0 {
        Some((Seq::empty(), pos))
    } else {
        match cstring_at(buf, pos) {
            None => None,
            Some((s, q0)) => match cstring_column(buf, q0, (n - 1) as nat) {
                None => None,
                Some((rest, q)) => Some((seq![s] + rest, q)),
            },
        }
    }
}

/// `n` consecutive little-endian u32 values from `pos`.
pub open spec fn u32_column(buf: Seq<u8>, pos: int, n: nat) -> Option<(Seq<u32>, int)>
    decreases n,
{
    if n == 0 {
        Some((Seq::empty(), pos))
    } else {
        match u32_at(buf, pos) {
            None => None,
            Some((v, q0)) => match u32_column(buf, q0, (n - 1) as nat) {
                None => None,
                Some((rest, q)) => Some((seq![v] + rest, q)),
            },
        }
    }
}

/// `n` raw bytes from `pos`.
pub open spec fn u8_column(buf: Seq<u8>, pos: int, n: nat) -> Option<(Seq<u8>, int)> {
    if 0 <= pos && pos + n <= buf.len() {
        Some((buf.subrange(pos, pos + n), pos + n))
    } else {
        None
    }
}

/// Sum of a sequence of counts.
pub open spec fn count_sum(s: Seq<u64>) -> nat
    decreases s.len(),
{
    if s.len() == 0 {
        0
    } else {
        count_sum(s.drop_last()) + s.last() as nat
    }
}

/// The file table, assembled from its columns.
pub open spec fn file_rows(
    names: Seq<Seq<char>>,
    dir_idx: Seq<u64>,
    sizes: Seq<u64>,
    times: Seq<u32>,
    is_dirs: Seq<u8>,
    crcs: Seq<u32>,
) -> Seq<FileEntryView> {
    Seq::new(
        names.len(),
        |i: int|
            FileEntryView {
                basename: names[i],
                dir_index: dir_idx[i],
                size: sizes[i],
                time: times[i],
                is_dir: is_dirs[i] != 0,
                crc: crcs[i],
            },
    )
}

/// The solid-block table, assembled from its columns.
pub open spec fn solid_rows(
    counts: Seq<u64>,
    comps: Seq<Seq<char>>,
    rel: Seq<u64>,
    sizes: Seq<u64>,
) -> Seq<SolidBlockView> {
    Seq::new(
        counts.len(),
        |i: int|
            SolidBlockView {
                n_files: counts[i],
                compressor: comps[i],
                rel_pos: rel[i],
                compsize: sizes[i],
            },
    )
}

/// The file-table section that starts at `p`, for `total` files.
pub open spec fn parse_file_table(raw: Seq<u8>, p: int, total: nat) -> Option<Seq<FileEntryView>> {
    match cstring_column(raw, p, total) {
        None => None,
        Some((names, p6)) => match varint_column(raw, p6, total) {
            None => None,
            Some((dir_idx, p7)) => match varint_column(raw, p7, total) {
                None => None,
                Some((sizes, p8)) => match u32_column(raw, p8, total) {
                    None => None,
                    Some((times, p9)) => match u8_column(raw, p9, total) {
                        None => None,
                        Some((is_dirs, p10)) => match u32_column(raw, p10, total) {
                            None => None,
                            Some((crcs, _)) => Some(
                                file_rows(names, dir_idx, sizes, times, is_dirs, crcs),
                            ),
                        },
                    },
                },
            },
        },
    }
}

/// The solid-block table that starts at `pos`: a count, then the
/// n_files, compressor, position and compressed-size columns. Gives
/// the rows, the total file count and the position after the table.
pub open spec fn parse_solid_table(raw: Seq<u8>, pos: int) -> Option<(Seq<SolidBlockView>, nat, int)> {
    match varint_at(raw, pos) {
        None => None,
        Some((ns, k0)) => match varint_column(raw, pos + k0, ns as nat) {
            None => None,
            Some((counts, p1)) => match cstring_column(raw, p1, ns as nat) {
                None => None,
                Some((comps, p2)) => match varint_column(raw, p2, ns as nat) {
                    None => None,
                    Some((rel, p3)) => match varint_column(raw, p3, ns as nat) {
                        None => None,
                        Some((sizes, p4)) => if count_sum(counts) > u64::MAX {
                            None
                        } else {
                            Some((solid_rows(counts, comps, rel, sizes), count_sum(counts), p4))
                        },
                    },
                },
            },
        },
    }
}

/// A DIR block body: the solid-block table, the directory names (a
/// count, then the names) and the file table, whose length is the
/// total of the per-block file counts. `None` when the body ends early
/// (or the counts add up past u64).
pub open spec fn parse_dir(raw: Seq<u8>) -> Option<DirBlockView> {
    match parse_solid_table(raw, 0) {
        None => None,
        Some((solid_blocks, total, p4)) => match varint_at(raw, p4) {
            None => None,
            Some((nd, k4)) => match cstring_column(raw, p4 + k4, nd as nat) {
                None => None,
                Some((dirs, p5)) => match parse_file_table(raw, p5, total) {
                    None => None,
                    Some(files) => Some(DirBlockView { solid_blocks, dirs, files }),
                },
            },
        },
    }
}

proof fn lemma_varint_column_len(buf: Seq<u8>, pos: int, n: nat)
    ensures
        varint_column(buf, pos, n) matches Some((s, q)) ==> s.len() == n && pos <= q,
    decreases n,
{
    if n > 0 {
        if let Some((v, k)) = varint_at(buf, pos) {
            lemma_varint_column_len(buf, pos + k, (n - 1) as nat);
        }
    }
}

proof fn lemma_cstring_column_len(buf: Seq<u8>, pos: int, n: nat)
    ensures
        cstring_column(buf, pos, n) matches Some((s, q)) ==> s.len() == n,
    decreases n,
{
    if n > 0 {
        if let Some((v, k)) = cstring_at(buf, pos) {
            lemma_cstring_column_len(buf, k, (n - 1) as nat);
        }
    }
}

proof fn lemma_u32_column_len(buf: Seq<u8>, pos: int, n: nat)
    ensures
        u32_column(buf, pos, n) matches Some((s, q)) ==> s.len() == n,
    decreases n,
{
    if n > 0 {
        if let Some((v, k)) = u32_at(buf, pos) {
            lemma_u32_column_len(buf, k, (n - 1) as nat);
        }
    }
}

fn read_varint_column(buf: &[u8], pos: &mut usize, n: u64) -> (res: Result<Vec<u64>, ArcError>)
    ensures
        match varint_column(buf@, *old(pos) as int, n as nat) {
            Some((s, q)) => res matches Ok(v) && v@ == s && *final(pos) == q && v@.len() == n,
            None => res matches Err(ArcError::Truncated),
        },
{
    proof {
        lemma_varint_column_len(buf@, *pos as int, n as nat);
    }
    let mut out: Vec<u64> = Vec::new();
    let mut i: u64 = 0;
    while i < n
        invariant
            i <= n,
            varint_column(buf@, *old(pos) as int, n as nat) == match varint_column(
                buf@,
                *pos as int,
                (n - i) as nat,
            ) {
                Some((rest, q)) => Some((out@ + rest, q)),
                None => None,
            },
        decreases n - i,
    {
        let ghost p0 = *pos as int;
        let ghost before = out@;
        let v = read_varint(buf, pos)?;
        proof {
            let (rest, q) = varint_column(buf@, *pos as int, (n - i - 1) as nat).unwrap_or(
                (Seq::empty(), 0),
            );
            if let Some((rest2, q2)) = varint_column(buf@, *pos as int, (n - i - 1) as nat) {
                assert(before + (seq![v] + rest2) =~= before.push(v) + rest2);
            }
        }
        out.push(v);
        i = i + 1;
    }
    assert(out@ + Seq::<u64>::empty() =~= out@);
    Ok(out)
}

fn read_cstring_column(buf: &[u8], pos: &mut usize, n: u64) -> (res: Result<
    Vec<String>,
    ArcError,
>)
    ensures
        match cstring_column(buf@, *old(pos) as int, n as nat) {
            Some((s, q)) => res matches Ok(v) && v@.map_values(|x: String| x@) == s && *final(pos)
                == q && v@.len() == n,
            None => res matches Err(ArcError::Truncated),
        },
        res matches Ok(v) ==> forall|i: int| 0 <= i < v@.len() ==> nul_free(#[trigger] v@[i]@),
{
    proof {
        lemma_cstring_column_len(buf@, *pos as int, n as nat);
    }
    let mut out: Vec<String> = Vec::new();
    let mut i: u64 = 0;
    while i < n
        invariant
            i <= n,
            cstring_column(buf@, *old(pos) as int, n as nat) == match cstring_column(
                buf@,
                *pos as int,
                (n - i) as nat,
            ) {
                Some((rest, q)) => Some((out@.map_values(|x: String| x@) + rest, q)),
                None => None,
            },
            forall|k: int| 0 <= k < out@.len() ==> nul_free(#[trigger] out@[k]@),
        decreases n - i,
    {
        let ghost before = out@.map_values(|x: String| x@);
        let s = read_cstring(buf, pos)?;
        proof {
            if let Some((rest2, q2)) = cstring_column(buf@, *pos as int, (n - i - 1) as nat) {
                assert(before + (seq![s@] + rest2) =~= before.push(s@) + rest2);
            }
        }
        out.push(s);
        assert(out@.map_values(|x: String| x@) =~= before.push(out@.last()@));
        i = i + 1;
    }
    assert(out@.map_values(|x: String| x@) + Seq::<Seq<char>>::empty() =~= out@.map_values(
        |x: String| x@,
    ));
    Ok(out)
}

fn read_u32_column(buf: &[u8], pos: &mut usize, n: u64) -> (res: Result<Vec<u32>, ArcError>)
    ensures
        match u32_column(buf@, *old(pos) as int, n as nat) {
            Some((s, q)) => res matches Ok(v) && v@ == s && *final(pos) == q && v@.len() == n,
            None => res matches Err(ArcError::Truncated),
        },
{
    proof {
        lemma_u32_column_len(buf@, *pos as int, n as nat);
    }
    let mut out: Vec<u32> = Vec::new();
    let mut i: u64 = 0;
    while i < n
        invariant
            i <= n,
            u32_column(buf@, *old(pos) as int, n as nat) == match u32_column(
                buf@,
                *pos as int,
                (n - i) as nat,
            ) {
                Some((rest, q)) => Some((out@ + rest, q)),
                None => None,
            },
        decreases n - i,
    {
        let ghost before = out@;
        let v = read_u32_le(buf, pos)?;
        proof {
            if let Some((rest2, q2)) = u32_column(buf@, *pos as int, (n - i - 1) as nat) {
                assert(before + (seq![v] + rest2) =~= before.push(v) + rest2);
            }
        }
        out.push(v);
        i = i + 1;
    }
    assert(out@ + Seq::<u32>::empty() =~= out@);
    Ok(out)
}

fn read_u8_column(buf: &[u8], pos: &mut usize, n: u64) -> (res: Result<Vec<u8>, ArcError>)
    ensures
        match u8_column(buf@, *old(pos) as int, n as nat) {
            Some((s, q)) => res matches Ok(v) && v@ == s && *final(pos) == q && v@.len() == n,
            None => res matches Err(ArcError::Truncated),
        },
{
    let p = *pos;
    if p > buf.len() || n > (buf.len() - p) as u64 {
        return Err(ArcError::Truncated);
    }
    let m = n as usize;
    let out = vstd::slice::slice_to_vec(slice_range(buf, p, p + m));
    *pos = p + m;
    Ok(out)
}

fn read_solid_table(raw: &[u8], pos: &mut usize) -> (res: Result<(Vec<SolidBlock>, u64), ArcError>)
    ensures
        match parse_solid_table(raw@, *old(pos) as int) {
            Some((rows, total, q)) => res matches Ok((v, t)) && v@.map_values(|b: SolidBlock| b@)
                == rows && t == total && *final(pos) == q,
            None => res matches Err(ArcError::Truncated),
        },
        res matches Ok((v, t)) ==> forall|i: int| 0 <= i < v@.len() ==> nul_free(#[trigger] v@[i]@.compressor),
{
    let ghost p0 = *pos as int;
    let n_solid = read_varint(raw, pos)?;
    let ghost p1 = *pos as int;
    let n_files_per_solid = read_varint_column(raw, pos, n_solid)?;
    let ghost p2 = *pos as int;
    let compressors = read_cstring_column(raw, pos, n_solid)?;
    let ghost p3 = *pos as int;
    let rel_pos = read_varint_column(raw, pos, n_solid)?;
    let ghost p4 = *pos as int;
    let compsize = read_varint_column(raw, pos, n_solid)?;
    assert(varint_at(raw@, p0) == Some((n_solid, (p1 - p0) as nat)));
    assert(varint_column(raw@, p1, n_solid as nat) == Some((n_files_per_solid@, p2)));
    assert(cstring_column(raw@, p2, n_solid as nat) == Some((compressors@.map_values(|x: String| x@), p3)));
    assert(varint_column(raw@, p3, n_solid as nat) == Some((rel_pos@, p4)));
    assert(varint_column(raw@, p4, n_solid as nat) == Some((compsize@, *pos as int)));
    let ghost counts = n_files_per_solid@;
    let ghost rows = solid_rows(
        counts,
        compressors@.map_values(|x: String| x@),
        rel_pos@,
        compsize@,
    );
    let ghost end = *pos as int;
    assert(parse_solid_table(raw@, p0) == if count_sum(counts) > u64::MAX {
        None
    } else {
        Some((rows, count_sum(counts), end))
    });
    let mut total_files: u64 = 0;
    let mut solid_blocks: Vec<SolidBlock> = Vec::new();
    let mut i: usize = 0;
    while i < n_files_per_solid.len()
        invariant
            parse_solid_table(raw@, p0) == if count_sum(counts) > u64::MAX {
                None
            } else {
                Some((rows, count_sum(counts), end))
            },
            *pos == end,
            p0 == *old(pos),
            n_files_per_solid@.len() == n_solid,
            compressors@.len() == n_solid,
            rel_pos@.len() == n_solid,
            compsize@.len() == n_solid,
            counts == n_files_per_solid@,
            rows == solid_rows(counts, compressors@.map_values(|x: String| x@), rel_pos@, compsize@),
            i <= n_solid,
            total_files == count_sum(counts.subrange(0, i as int)),
            solid_blocks@.map_values(|b: SolidBlock| b@) =~= rows.subrange(0, i as int),
            forall|k: int| 0 <= k < compressors@.len() ==> nul_free(#[trigger] compressors@[k]@),
            forall|k: int| 0 <= k < solid_blocks@.len() ==> nul_free(#[trigger] solid_blocks@[k]@.compressor),
        decreases n_solid - i,
    {
        assert(counts.subrange(0, i + 1).drop_last() =~= counts.subrange(0, i as int));
        if n_files_per_solid[i] > u64::MAX - total_files {
            proof {
                lemma_count_sum_prefix(counts, i + 1);
                let pre = counts.subrange(0, i + 1);
                assert(pre.last() == counts[i as int]);
                assert(count_sum(pre) == count_sum(pre.drop_last()) + pre.last() as nat);
                assert(count_sum(counts) > u64::MAX);
                assert(parse_solid_table(raw@, p0) is None);
            }
            return Err(ArcError::Truncated);
        }
        total_files = total_files + n_files_per_solid[i];
        let ghost before = solid_blocks@.map_values(|b: SolidBlock| b@);
        let row = SolidBlock {
            n_files: n_files_per_solid[i],
            compressor: compressors[i].clone(),
            rel_pos: rel_pos[i],
            compsize: compsize[i],
        };
        assert(row@ == rows[i as int]);
        assert(nul_free(compressors@[i as int]@));
        solid_blocks.push(row);
        assert(solid_blocks@.map_values(|b: SolidBlock| b@) =~= before.push(row@));
        assert(rows.subrange(0, i + 1) =~= rows.subrange(0, i as int).push(rows[i as int]));
        i = i + 1;
    }
    assert(counts.subrange(0, n_solid as int) =~= counts);
    assert(rows.subrange(0, n_solid as int) =~= rows);
    Ok((solid_blocks, total_files))
}

/// The sum of a sequence bounds the sum of any prefix.
pub(crate) proof fn lemma_count_sum_prefix(s: Seq<u64>, k: int)
    requires
        0 <= k <= s.len(),
    ensures
        count_sum(s.subrange(0, k)) <= count_sum(s),
    decreases s.len() - k,
{
    if k < s.len() {
        lemma_count_sum_prefix(s, k + 1);
        assert(s.subrange(0, k + 1).drop_last() =~= s.subrange(0, k));
    } else {
        assert(s.subrange(0, k) =~= s);
    }
}

fn read_file_table(raw: &[u8], pos: &mut usize, total_files: u64) -> (res: Result<Vec<FileEntry>, ArcError>)
    ensures
        match parse_file_table(raw@, *old(pos) as int, total_files as nat) {
            Some(rows) => res matches Ok(v) && v@.map_values(|f: FileEntry| f@) == rows,
            None => res matches Err(ArcError::Truncated),
        },
        res matches Ok(v) ==> forall|i: int| 0 <= i < v@.len() ==> nul_free(#[trigger] v@[i]@.basename),
{
    // Order: name, dir_numbers, size, time(u32 LE), isdir(u8), crc(u32 LE).
    let basenames = read_cstring_column(raw, pos, total_files)?;
    let dir_indices = read_varint_column(raw, pos, total_files)?;
    let sizes = read_varint_column(raw, pos, total_files)?;
    let times = read_u32_column(raw, pos, total_files)?;
    let is_dirs = read_u8_column(raw, pos, total_files)?;
    let crcs = read_u32_column(raw, pos, total_files)?;
    let ghost rows = file_rows(
        basenames@.map_values(|x: String| x@),
        dir_indices@,
        sizes@,
        times@,
        is_dirs@,
        crcs@,
    );
    let mut files: Vec<FileEntry> = Vec::new();
    let mut j: usize = 0;
    while j < basenames.len()
        invariant
            basenames@.len() == total_files,
            dir_indices@.len() == total_files,
            sizes@.len() == total_files,
            times@.len() == total_files,
            is_dirs@.len() == total_files,
            crcs@.len() == total_files,
            rows == file_rows(
                basenames@.map_values(|x: String| x@),
                dir_indices@,
                sizes@,
                times@,
                is_dirs@,
                crcs@,
            ),
            j <= total_files,
            files@.map_values(|f: FileEntry| f@) =~= rows.subrange(0, j as int),
            forall|k: int| 0 <= k < basenames@.len() ==> nul_free(#[trigger] basenames@[k]@),
            forall|k: int| 0 <= k < files@.len() ==> nul_free(#[trigger] files@[k]@.basename),
        decreases total_files - j,
    {
        let ghost before = files@.map_values(|f: FileEntry| f@);
        let row = FileEntry {
            basename: basenames[j].clone(),
            dir_index: dir_indices[j],
            size: sizes[j],
            time: times[j],
            is_dir: is_dirs[j] != 0,
            crc: crcs[j],
        };
        assert(row@ == rows[j as int]);
        assert(nul_free(basenames@[j as int]@));
        files.push(row);
        assert(files@.map_values(|f: FileEntry| f@) =~= before.push(row@));
        assert(rows.subrange(0, j + 1) =~= rows.subrange(0, j as int).push(rows[j as int]));
        j = j + 1;
    }
    assert(rows.subrange(0, total_files as int) =~= rows);
    Ok(files)
}

/// No codec, directory or file name of `d` holds a NUL character.
pub open spec fn names_nul_free(d: DirBlockView) -> bool {
    &&& forall|i: int| 0 <= i < d.solid_blocks.len() ==> nul_free(#[trigger] d.solid_blocks[i].compressor)
    &&& forall|i: int| 0 <= i < d.dirs.len() ==> nul_free(#[trigger] d.dirs[i])
    &&& forall|i: int| 0 <= i < d.files.len() ==> nul_free(#[trigger] d.files[i].basename)
}

/// Parse a DIR block body. Any field that runs past the end of the
/// body gives `Truncated`; so does a solid-block table whose file
/// counts add up past what a u64 can hold. The names read hold no NUL
/// character.
pub fn parse(raw: &[u8]) -> (res: Result<DirBlock, ArcError>)
    ensures
        match parse_dir(raw@) {
            Some(d) => res matches Ok(x) && x@ == d,
            None => res matches Err(ArcError::Truncated),
        },
        res matches Ok(x) ==> names_nul_free(x@),
{
    let mut p: usize = 0;
    // --- Section 1: solid-block table (SOA) ---
    let (solid_blocks, total_files) = read_solid_table(raw, &mut p)?;
    // --- Section 2: directory names (ARRAY: count + strings) ---
    let n_dirs = read_varint(raw, &mut p)?;
    let dirs = read_cstring_column(raw, &mut p, n_dirs)?;
    // --- Section 3: file table (SOA) ---
    let files = read_file_table(raw, &mut p, total_files)?;
    let d = DirBlock { solid_blocks, dirs, files };
    assert(names_nul_free(d@)) by {
        assert forall|i: int| 0 <= i < d@.solid_blocks.len() implies nul_free(#[trigger] d@.solid_blocks[i].compressor) by {
            assert(d@.solid_blocks[i] == d.solid_blocks@[i]@);
        }
        assert forall|i: int| 0 <= i < d@.dirs.len() implies nul_free(#[trigger] d@.dirs[i]) by {
            assert(d@.dirs[i] == d.dirs@[i]@);
        }
        assert forall|i: int| 0 <= i < d@.files.len() implies nul_free(#[trigger] d@.files[i].basename) by {
            assert(d@.files[i] == d.files@[i]@);
        }
    }
    Ok(d)
}

// ----- reading a prefix -----

proof fn lemma_varint_decode_extend(s: Seq<u8>, e: Seq<u8>)
    requires
        varint_decode(s) is Some,
    ensures
        varint_decode(s + e) == varint_decode(s),
{
    let t = s + e;
    assert(t[0] == s[0]);
    if s[0] % 2 != 0 {
        if s[0] == 0xFF {
            assert(t.subrange(1, 9) =~= s.subrange(1, 9));
        } else {
            let w = trailing_ones(s[0]) + 1;
            assert(t.subrange(0, w as int) =~= s.subrange(0, w as int));
        }
    }
}

pub(crate) proof fn lemma_varint_at_extend(a: Seq<u8>, e: Seq<u8>, pos: int)
    requires
        varint_at(a, pos) is Some,
    ensures
        varint_at(a + e, pos) == varint_at(a, pos),
{
    assert((a + e).skip(pos) =~= a.skip(pos) + e);
    lemma_varint_decode_extend(a.skip(pos), e);
}

proof fn lemma_nul_from_extend(a: Seq<u8>, e: Seq<u8>, i: int)
    requires
        nul_from(a, i) is Some,
    ensures
        nul_from(a + e, i) == nul_from(a, i),
    decreases a.len() - i,
{
    if 0 <= i < a.len() && a[i] != 0 {
        lemma_nul_from_extend(a, e, i + 1);
    }
}

pub(crate) proof fn lemma_cstring_at_extend(a: Seq<u8>, e: Seq<u8>, pos: int)
    requires
        cstring_at(a, pos) is Some,
    ensures
        cstring_at(a + e, pos) == cstring_at(a, pos),
{
    lemma_nul_from_extend(a, e, pos);
    crate::bytes::lemma_nul_from_range(a, pos);
    let j = nul_from(a, pos)->0;
    assert((a + e).subrange(pos, j) =~= a.subrange(pos, j));
}

proof fn lemma_varint_column_extend(a: Seq<u8>, e: Seq<u8>, pos: int, n: nat)
    requires
        varint_column(a, pos, n) is Some,
    ensures
        varint_column(a + e, pos, n) == varint_column(a, pos, n),
    decreases n,
{
    if n > 0 {
        lemma_varint_at_extend(a, e, pos);
        let (v, k) = varint_at(a, pos)->0;
        lemma_varint_column_extend(a, e, pos + k, (n - 1) as nat);
    }
}

proof fn lemma_cstring_column_extend(a: Seq<u8>, e: Seq<u8>, pos: int, n: nat)
    requires
        cstring_column(a, pos, n) is Some,
    ensures
        cstring_column(a + e, pos, n) == cstring_column(a, pos, n),
    decreases n,
{
    if n > 0 {
        lemma_cstring_at_extend(a, e, pos);
        let (v, q0) = cstring_at(a, pos)->0;
        lemma_cstring_column_extend(a, e, q0, (n - 1) as nat);
    }
}

proof fn lemma_u32_column_extend(a: Seq<u8>, e: Seq<u8>, pos: int, n: nat)
    requires
        u32_column(a, pos, n) is Some,
    ensures
        u32_column(a + e, pos, n) == u32_column(a, pos, n),
    decreases n,
{
    if n > 0 {
        assert((a + e).subrange(pos, pos + 4) =~= a.subrange(pos, pos + 4));
        let (v, q0) = u32_at(a, pos)->0;
        lemma_u32_column_extend(a, e, q0, (n - 1) as nat);
    }
}

proof fn lemma_u8_column_extend(a: Seq<u8>, e: Seq<u8>, pos: int, n: nat)
    requires
        u8_column(a, pos, n) is Some,
    ensures
        u8_column(a + e, pos, n) == u8_column(a, pos, n),
{
    assert((a + e).subrange(pos, pos + n) =~= a.subrange(pos, pos + n));
}

/// Bytes after a DIR block body do not change what parsing it gives:
/// the parser reads only as far as the body goes.
pub proof fn lemma_parse_ignores_trailing(raw: Seq<u8>, extra: Seq<u8>)
    requires
        parse_dir(raw) is Some,
    ensures
        parse_dir(raw + extra) == parse_dir(raw),
{
    let a = raw;
    let e = extra;
    // the solid-block table
    lemma_varint_at_extend(a, e, 0);
    let (ns, k0) = varint_at(a, 0)->0;
    lemma_varint_column_extend(a, e, k0 as int, ns as nat);
    let (counts, p1) = varint_column(a, k0 as int, ns as nat)->0;
    lemma_cstring_column_extend(a, e, p1, ns as nat);
    let (comps, p2) = cstring_column(a, p1, ns as nat)->0;
    lemma_varint_column_extend(a, e, p2, ns as nat);
    let (rel, p3) = varint_column(a, p2, ns as nat)->0;
    lemma_varint_column_extend(a, e, p3, ns as nat);
    assert(parse_solid_table(a + e, 0) == parse_solid_table(a, 0));
    let (solid_blocks, total, p4) = parse_solid_table(a, 0)->0;
    // the directory names
    lemma_varint_at_extend(a, e, p4);
    let (nd, k4) = varint_at(a, p4)->0;
    lemma_cstring_column_extend(a, e, p4 + k4, nd as nat);
    let (dirs, p5) = cstring_column(a, p4 + k4, nd as nat)->0;
    // the file table
    lemma_cstring_column_extend(a, e, p5, total);
    let (names, p6) = cstring_column(a, p5, total)->0;
    lemma_varint_column_extend(a, e, p6, total);
    let (dir_idx, p7) = varint_column(a, p6, total)->0;
    lemma_varint_column_extend(a, e, p7, total);
    let (sizes, p8) = varint_column(a, p7, total)->0;
    lemma_u32_column_extend(a, e, p8, total);
    let (times, p9) = u32_column(a, p8, total)->0;
    lemma_u8_column_extend(a, e, p9, total);
    let (is_dirs, p10) = u8_column(a, p9, total)->0;
    lemma_u32_column_extend(a, e, p10, total);
    assert(parse_file_table(a + e, p5, total) == parse_file_table(a, p5, total));
}


/// The full path of an entry: under a named directory `d` it is `d`, a
/// '/', then the base name, so it splits there into the two; in the
/// root (an empty directory name), or with no such directory, it is the
/// base name alone.
pub proof fn lemma_full_path_shape(dirs: Seq<Seq<char>>, f: FileEntryView)
    ensures
        (f.dir_index < dirs.len() && dirs[f.dir_index as int].len() > 0) ==> ({
            let p = full_path_of(dirs, f);
            let d = dirs[f.dir_index as int];
            &&& p.len() == d.len() + 1 + f.basename.len()
            &&& p.subrange(0, d.len() as int) == d
            &&& p[d.len() as int] == '/'
            &&& p.subrange(d.len() as int + 1, p.len() as int) == f.basename
        }),
        !(f.dir_index < dirs.len() && dirs[f.dir_index as int].len() > 0) ==> full_path_of(dirs, f)
            == f.basename,
{
    if f.dir_index < dirs.len() && dirs[f.dir_index as int].len() > 0 {
        let p = full_path_of(dirs, f);
        let d = dirs[f.dir_index as int];
        assert(p.subrange(0, d.len() as int) =~= d);
        assert(p.subrange(d.len() as int + 1, p.len() as int) =~= f.basename);
    }
}

} // verus!
