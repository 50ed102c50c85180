//! Per-file extraction from FreeArc DATA solid blocks.
//!
//! A solid block is a single compressed stream containing N files laid
//! end-to-end. To pull the files out we decode the entire block, then
//! slice the decoded bytes by cumulative file size. The `origsize` a
//! block's codec needs is the sum of the sizes of its files (the
//! directory does not store it).
//!
//! This module decides everything extraction does and in what order:
//! which directories to create, which bytes go to which file, what is
//! reported for each entry and where extraction stops with an error.
//! Performing the steps on a file system is left to the caller.

use vstd::prelude::*;

use crate::decompress::{crc32, crc32_ieee, decode_with, decompress, no_host};
use crate::dir::{count_sum, full_path_of, DirBlock, DirBlockView, FileEntry, FileEntryView, SolidBlockView};
use crate::error::{unexpected_eof, ArcError, ArcErrorView};
use crate::footer::res_view;

verus! {

/// What happened to one file during extraction. Paths are relative to
/// the output directory.
#[derive(Debug, Clone)]
pub enum FileOutcome {
    /// Wrote the file (or created the directory).
    Wrote(String),
    /// Skipped because the file's solid block uses a codec with no
    /// decoder here; `detail` is the decoder's own message.
    SkippedUnsupported { path: String, compressor: String, detail: String },
    /// Wrote the file but its CRC did not match the directory entry.
    CrcMismatch { path: String, expected: u32, actual: u32 },
}

pub enum FileOutcomeView {
    Wrote(Seq<char>),
    SkippedUnsupported { path: Seq<char>, compressor: Seq<char>, detail: Seq<char> },
    CrcMismatch { path: Seq<char>, expected: u32, actual: u32 },
}

impl View for FileOutcome {
    type V = FileOutcomeView;

    open spec fn view(&self) -> FileOutcomeView {
        match self {
            FileOutcome::Wrote(p) => FileOutcomeView::Wrote(p@),
            FileOutcome::SkippedUnsupported { path, compressor, detail } => {
                FileOutcomeView::SkippedUnsupported {
                    path: path@,
                    compressor: compressor@,
                    detail: detail@,
                }
            },
            FileOutcome::CrcMismatch { path, expected, actual } => FileOutcomeView::CrcMismatch {
                path: path@,
                expected: *expected,
                actual: *actual,
            },
        }
    }
}

/// Counts of the outcomes of one extraction.
#[derive(Debug, Clone, Copy)]
pub struct ExtractStats {
    pub wrote: usize,
    pub skipped_unsupported: usize,
    pub crc_mismatch: usize,
}

/// One file-system step of an extraction, relative to the output
/// directory.
#[derive(Debug, Clone)]
pub enum ExtractStep {
    /// Create this directory (and its parents).
    CreateDir(String),
    /// Create the parent directories of this path, then write the bytes
    /// to it.
    WriteFile(String, Vec<u8>),
}

pub enum ExtractStepView {
    CreateDir(Seq<char>),
    WriteFile(Seq<char>, Seq<u8>),
}

impl View for ExtractStep {
    type V = ExtractStepView;

    open spec fn view(&self) -> ExtractStepView {
        match self {
            ExtractStep::CreateDir(p) => ExtractStepView::CreateDir(p@),
            ExtractStep::WriteFile(p, b) => ExtractStepView::WriteFile(p@, b@),
        }
    }
}

/// One directory entry's part of an extraction: the step to perform
/// (if any) and the outcome to report once it is done.
pub struct PlannedEntry {
    pub step: Option<ExtractStep>,
    pub outcome: FileOutcome,
}

pub struct PlannedEntryView {
    pub step: Option<ExtractStepView>,
    pub outcome: FileOutcomeView,
}

impl View for PlannedEntry {
    type V = PlannedEntryView;

    open spec fn view(&self) -> PlannedEntryView {
        PlannedEntryView {
            step: match self.step {
                Some(s) => Some(s@),
                None => None,
            },
            outcome: self.outcome@,
        }
    }
}

/// A whole extraction: the entries in order, their counts, and the error
/// extraction stops with after them, if any.
pub struct ExtractPlan {
    pub entries: Vec<PlannedEntry>,
    pub stats: ExtractStats,
    pub error: Option<ArcError>,
}

/// Sum of the sizes of some file entries.
pub open spec fn size_sum(files: Seq<FileEntryView>) -> nat
    decreases files.len(),
{
    if files.len() == 0 {
        0
    } else {
        size_sum(files.drop_last()) + files.last().size as nat
    }
}

/// The entries of the decoded solid block `raw`, from offset `cur` on:
/// directories are created, files are cut out of `raw` by size and
/// checked against their CRC. A file that runs past the end of `raw`
/// stops extraction with `Truncated`.
pub open spec fn plan_files(
    dirs: Seq<Seq<char>>,
    files: Seq<FileEntryView>,
    raw: Seq<u8>,
    cur: int,
) -> (Seq<PlannedEntryView>, Option<ArcErrorView>)
    decreases files.len(),
{
    if files.len() == 0 {
        (Seq::empty(), None)
    } else {
        let f = files[0];
        let path = full_path_of(dirs, f);
        if f.is_dir {
            let (rest, err) = plan_files(dirs, files.drop_first(), raw, cur);
            (
                seq![
                    PlannedEntryView {
                        step: Some(ExtractStepView::CreateDir(path)),
                        outcome: FileOutcomeView::Wrote(path),
                    },
                ] + rest,
                err,
            )
        } else if cur + f.size > raw.len() {
            (Seq::empty(), Some(ArcErrorView::Truncated))
        } else {
            let body = raw.subrange(cur, cur + f.size);
            let actual = crc32_ieee(body);
            let outcome = if actual != f.crc {
                FileOutcomeView::CrcMismatch { path, expected: f.crc, actual }
            } else {
                FileOutcomeView::Wrote(path)
            };
            let (rest, err) = plan_files(dirs, files.drop_first(), raw, cur + f.size);
            (
                seq![
                    PlannedEntryView {
                        step: Some(ExtractStepView::WriteFile(path, body)),
                        outcome,
                    },
                ] + rest,
                err,
            )
        }
    }
}

/// An entry planned without decoding its block: for an empty block
/// (`detail` is `None`) directories are created, files are created
/// empty, and the entry is reported written; for an unsupported codec
/// the entry is reported skipped.
pub open spec fn entry_without_data(
    dirs: Seq<Seq<char>>,
    compressor: Seq<char>,
    detail: Option<Seq<char>>,
    f: FileEntryView,
) -> PlannedEntryView {
    match detail {
        None => PlannedEntryView {
            step: if f.is_dir {
                Some(ExtractStepView::CreateDir(full_path_of(dirs, f)))
            } else {
                Some(ExtractStepView::WriteFile(full_path_of(dirs, f), Seq::empty()))
            },
            outcome: FileOutcomeView::Wrote(full_path_of(dirs, f)),
        },
        Some(msg) => PlannedEntryView {
            step: None,
            outcome: FileOutcomeView::SkippedUnsupported {
                path: full_path_of(dirs, f),
                compressor,
                detail: msg,
            },
        },
    }
}

/// The entries of one solid block holding `files`, for a DIR block at
/// `dir_pos`. An empty block (compsize 0) creates its directories and
/// its files (empty) and reports every entry written; a block whose codec is unsupported
/// reports every entry skipped with the decoder's message; other
/// decoding errors stop extraction, and so does a block outside the
/// archive: `Truncated` when it would start before the file, an I/O
/// error (the read ends early) when it runs past the end.
pub open spec fn plan_block(
    archive: Seq<u8>,
    dir_pos: u64,
    dirs: Seq<Seq<char>>,
    solid: SolidBlockView,
    files: Seq<FileEntryView>,
) -> (Seq<PlannedEntryView>, Option<ArcErrorView>) {
    if solid.compsize == 0 {
        (
            files.map_values(
                |f: FileEntryView| entry_without_data(dirs, solid.compressor, None, f),
            ),
            None,
        )
    } else if solid.rel_pos > dir_pos {
        (Seq::empty(), Some(ArcErrorView::Truncated))
    } else if (dir_pos - solid.rel_pos) + solid.compsize > archive.len() {
        (Seq::empty(), Some(ArcErrorView::Io))
    } else {
        let abs = dir_pos - solid.rel_pos;
        match decode_with(
            solid.compressor,
            archive.subrange(abs, abs + solid.compsize),
            size_sum(files) as u64,
            no_host(),
        ) {
            Err(ArcErrorView::UnsupportedCompressor(detail)) => (
                files.map_values(
                    |f: FileEntryView| entry_without_data(dirs, solid.compressor, Some(detail), f),
                ),
                None,
            ),
            Err(e) => (Seq::empty(), Some(e)),
            Ok(raw) => plan_files(dirs, files, raw, 0),
        }
    }
}

/// The number of files of each solid block.
pub open spec fn block_counts(d: DirBlockView) -> Seq<u64> {
    d.solid_blocks.map_values(|b: SolidBlockView| b.n_files)
}

/// The file entries of solid block `k`: those after the entries of the
/// blocks before it.
pub open spec fn block_files(d: DirBlockView, k: int) -> Seq<FileEntryView> {
    let start = count_sum(block_counts(d).subrange(0, k));
    d.files.subrange(start as int, start + d.solid_blocks[k].n_files)
}

/// Extraction of the solid blocks `k..` of `d`, stopping at the first
/// error.
pub open spec fn plan_blocks(archive: Seq<u8>, dir_pos: u64, d: DirBlockView, k: int) -> (
    Seq<PlannedEntryView>,
    Option<ArcErrorView>,
)
    decreases d.solid_blocks.len() - k,
{
    if k < 0 || k >= d.solid_blocks.len() {
        (Seq::empty(), None)
    } else {
        let (entries, err) = plan_block(
            archive,
            dir_pos,
            d.dirs,
            d.solid_blocks[k],
            block_files(d, k),
        );
        match err {
            Some(e) => (entries, Some(e)),
            None => {
                let (rest, err2) = plan_blocks(archive, dir_pos, d, k + 1);
                (entries + rest, err2)
            },
        }
    }
}

/// How many outcomes are written files, skipped files and CRC
/// mismatches.
pub open spec fn outcome_counts(entries: Seq<PlannedEntryView>) -> (nat, nat, nat)
    decreases entries.len(),
{
    if entries.len() == 0 {
        (0, 0, 0)
    } else {
        let (w, s, c) = outcome_counts(entries.drop_last());
        match entries.last().outcome {
            FileOutcomeView::Wrote(_) => (w + 1, s, c),
            FileOutcomeView::SkippedUnsupported { .. } => (w, s + 1, c),
            FileOutcomeView::CrcMismatch { .. } => (w, s, c + 1),
        }
    }
}

/// A well-formed directory for extraction: its solid blocks account for
/// no more files than it lists, and each block's files add up to a size
/// a u64 holds.
pub open spec fn extractable(d: DirBlockView) -> bool {
    &&& count_sum(block_counts(d)) <= d.files.len()
    &&& forall|k: int| 0 <= k < d.solid_blocks.len() ==> size_sum(#[trigger] block_files(d, k)) <= u64::MAX
}

/// Sum of the sizes of files `first..first + n`, or `None` when it
/// does not fit in a `u64`.
fn checked_slice_size(d: &DirBlock, first: usize, n: usize) -> (r: Option<u64>)
    requires
        first + n <= d.files@.len(),
    ensures
        match r {
            Some(t) => t as nat == size_sum(files_slice(d@, first as int, n as int)),
            None => size_sum(files_slice(d@, first as int, n as int)) > u64::MAX,
        },
{
    let len = d.files.len();
    let mut total: u64 = 0;
    let mut i: usize = 0;
    while i < n
        invariant
            len == d.files@.len(),
            first + n <= len,
            i <= n,
            total as nat == size_sum(files_slice(d@, first as int, i as int)),
        decreases n - i,
    {
        let ghost s = files_slice(d@, first as int, i + 1);
        assert(s.drop_last() =~= files_slice(d@, first as int, i as int));
        assert(s.last() == d.files@[first + i]@);
        let sz = d.files[first + i].size;
        if sz > u64::MAX - total {
            proof {
                lemma_size_sum_prefix(files_slice(d@, first as int, n as int), i + 1);
                assert(files_slice(d@, first as int, n as int).subrange(0, i + 1) =~= s);
            }
            return None;
        }
        total = total + sz;
        i = i + 1;
    }
    Some(total)
}

/// Whether `d` can be planned: its solid blocks claim no more file
/// entries than it has, and no solid block's files total more than
/// a `u64` holds.
pub fn is_extractable(d: &DirBlock) -> (r: bool)
    ensures
        r == extractable(d@),
{
    let ghost counts = block_counts(d@);
    let mut start: usize = 0;
    let mut k: usize = 0;
    while k < d.solid_blocks.len()
        invariant
            k <= d.solid_blocks.len(),
            counts == block_counts(d@),
            counts.len() == d.solid_blocks@.len(),
            start as nat == count_sum(counts.subrange(0, k as int)),
            start <= d.files@.len(),
            forall|j: int| 0 <= j < k ==> size_sum(#[trigger] block_files(d@, j)) <= u64::MAX,
        decreases d.solid_blocks.len() - k,
    {
        let n = d.solid_blocks[k].n_files;
        let ghost pre = counts.subrange(0, k + 1);
        assert(pre.drop_last() =~= counts.subrange(0, k as int));
        assert(pre.last() == n);
        if n > (d.files.len() - start) as u64 {
            proof {
                crate::dir::lemma_count_sum_prefix(counts, k + 1);
            }
            return false;
        }
        let nn = n as usize;
        assert(block_files(d@, k as int) =~= files_slice(d@, start as int, nn as int));
        match checked_slice_size(d, start, nn) {
            None => {
                return false;
            },
            Some(_) => {},
        }
        start = start + nn;
        k = k + 1;
    }
    assert(counts.subrange(0, k as int) =~= counts);
    true
}

/// The entries' views.
pub open spec fn entries_view(v: Seq<PlannedEntry>) -> Seq<PlannedEntryView> {
    v.map_values(|e: PlannedEntry| e@)
}

proof fn lemma_size_sum_prefix(s: Seq<FileEntryView>, k: int)
    requires
        0 <= k <= s.len(),
    ensures
        size_sum(s.subrange(0, k)) <= size_sum(s),
    decreases s.len() - k,
{
    if k < s.len() {
        lemma_size_sum_prefix(s, k + 1);
        assert(s.subrange(0, k + 1).drop_last() =~= s.subrange(0, k));
    } else {
        assert(s.subrange(0, k) =~= s);
    }
}

/// The view of the file entries `first..first + n` of `d`.
pub open spec fn files_slice(d: DirBlockView, first: int, n: int) -> Seq<FileEntryView> {
    d.files.subrange(first, first + n)
}

/// Sum of the sizes of files `first..first + n`.
fn slice_size(d: &DirBlock, first: usize, n: usize) -> (total: u64)
    requires
        first + n <= d.files@.len(),
        size_sum(files_slice(d@, first as int, n as int)) <= u64::MAX,
    ensures
        total == size_sum(files_slice(d@, first as int, n as int)),
{
    let ghost s = files_slice(d@, first as int, n as int);
    let len = d.files.len();
    let mut total: u64 = 0;
    let mut j: usize = 0;
    assert(s.subrange(0, 0) =~= Seq::<FileEntryView>::empty());
    while j < n
        invariant
            j <= n,
            first + n <= d.files@.len(),
            len == d.files@.len(),
            s == files_slice(d@, first as int, n as int),
            size_sum(s) <= u64::MAX,
            total == size_sum(s.subrange(0, j as int)),
        decreases n - j,
    {
        proof {
            lemma_size_sum_prefix(s, j + 1);
            assert(s.subrange(0, j + 1).drop_last() =~= s.subrange(0, j as int));
            assert(s[j as int] == d.files@[first + j]@);
        }
        let idx = first + j;
        total = total + d.files[idx].size;
        j = j + 1;
    }
    assert(s.subrange(0, n as int) =~= s);
    total
}

/// Plan the entries `first..first + n` of `d` out of the decoded block
/// `raw`.
fn plan_files_exec(d: &DirBlock, first: usize, n: usize, raw: &[u8]) -> (r: (
    Vec<PlannedEntry>,
    Option<ArcError>,
))
    requires
        first + n <= d.files@.len(),
    ensures
        ({
            let (entries, err) = plan_files(d@.dirs, files_slice(d@, first as int, n as int), raw@, 0);
            entries_view(r.0@) == entries && match r.1 {
                Some(e) => err == Some(e@),
                None => err is None,
            }
        }),
{
    let ghost s = files_slice(d@, first as int, n as int);
    let ghost dirs = d@.dirs;
    let len = d.files.len();
    let mut out: Vec<PlannedEntry> = Vec::new();
    let mut cur: usize = 0;
    let mut j: usize = 0;
    assert(s.skip(0) =~= s);
    while j < n
        invariant
            j <= n,
            first + n <= d.files@.len(),
            len == d.files@.len(),
            s == files_slice(d@, first as int, n as int),
            dirs == d@.dirs,
            cur <= raw@.len(),
            plan_files(dirs, s, raw@, 0) == (
                entries_view(out@) + plan_files(dirs, s.skip(j as int), raw@, cur as int).0,
                plan_files(dirs, s.skip(j as int), raw@, cur as int).1,
            ),
        decreases n - j,
    {
        let f = &d.files[first + j];
        let ghost t = s.skip(j as int);
        proof {
            assert(t[0] == f@);
            assert(t.drop_first() =~= s.skip(j + 1));
        }
        let path = d.full_path(f);
        let ghost before = entries_view(out@);
        if f.is_dir {
            let p2 = path.clone();
            out.push(PlannedEntry { step: Some(ExtractStep::CreateDir(p2)), outcome: FileOutcome::Wrote(path) });
        } else {
            if f.size > (raw.len() - cur) as u64 {
                return (out, Some(ArcError::Truncated));
            }
            let end = cur + f.size as usize;
            let body = vstd::slice::slice_to_vec(crate::bytes::slice_range(raw, cur, end));
            let actual = crc32(body.as_slice());
            let p2 = path.clone();
            let outcome = if actual != f.crc {
                FileOutcome::CrcMismatch { path, expected: f.crc, actual }
            } else {
                FileOutcome::Wrote(path)
            };
            out.push(PlannedEntry { step: Some(ExtractStep::WriteFile(p2, body)), outcome });
            cur = end;
        }
        proof {
            assert(entries_view(out@) =~= before.push(out@.last()@));
        }
        j = j + 1;
    }
    (out, None)
}

/// The text of an optional message.
pub open spec fn opt_text(o: Option<String>) -> Option<Seq<char>> {
    match o {
        Some(s) => Some(s@),
        None => None,
    }
}

/// Plan entries `first..first + n` of `d` without decoding their block.
fn plan_without_data(
    d: &DirBlock,
    first: usize,
    n: usize,
    compressor: &String,
    detail: &Option<String>,
) -> (r: Vec<PlannedEntry>)
    requires
        first + n <= d.files@.len(),
    ensures
        entries_view(r@) == files_slice(d@, first as int, n as int).map_values(
            |f: FileEntryView| entry_without_data(d@.dirs, compressor@, opt_text(*detail), f),
        ),
{
    let ghost s = files_slice(d@, first as int, n as int);
    let len = d.files.len();
    let mut out: Vec<PlannedEntry> = Vec::new();
    let mut j: usize = 0;
    while j < n
        invariant
            j <= n,
            first + n <= d.files@.len(),
            len == d.files@.len(),
            s == files_slice(d@, first as int, n as int),
            entries_view(out@) =~= s.subrange(0, j as int).map_values(
                |f: FileEntryView| entry_without_data(d@.dirs, compressor@, opt_text(*detail), f),
            ),
        decreases n - j,
    {
        let idx = first + j;
        let f = &d.files[idx];
        let path = d.full_path(f);
        let ghost before = entries_view(out@);
        let entry = match detail {
            None => {
                let step = if f.is_dir {
                    Some(ExtractStep::CreateDir(path.clone()))
                } else {
                    Some(ExtractStep::WriteFile(path.clone(), Vec::new()))
                };
                PlannedEntry { step, outcome: FileOutcome::Wrote(path) }
            },
            Some(msg) => PlannedEntry {
                step: None,
                outcome: FileOutcome::SkippedUnsupported {
                    path,
                    compressor: compressor.clone(),
                    detail: msg.clone(),
                },
            },
        };
        out.push(entry);
        proof {
            assert(s[j as int] == f@);
            assert(entries_view(out@) =~= before.push(
                entry_without_data(d@.dirs, compressor@, opt_text(*detail), f@),
            ));
            assert(s.subrange(0, j + 1).map_values(
                |f: FileEntryView| entry_without_data(d@.dirs, compressor@, opt_text(*detail), f),
            ) =~= s.subrange(0, j as int).map_values(
                |f: FileEntryView| entry_without_data(d@.dirs, compressor@, opt_text(*detail), f),
            ).push(entry_without_data(d@.dirs, compressor@, opt_text(*detail), s[j as int])));
        }
        j = j + 1;
    }
    assert(s.subrange(0, n as int) =~= s);
    out
}

/// Plan solid block `k` of `d`, whose files start at entry `first`.
fn plan_block_exec(archive: &[u8], dir_pos: u64, d: &DirBlock, k: usize, first: usize) -> (r: (
    Vec<PlannedEntry>,
    Option<ArcError>,
))
    requires
        k < d.solid_blocks@.len(),
        first == count_sum(block_counts(d@).subrange(0, k as int)),
        first + d.solid_blocks@[k as int].n_files <= d.files@.len(),
        size_sum(block_files(d@, k as int)) <= u64::MAX,
    ensures
        ({
            let (entries, err) = plan_block(
                archive@,
                dir_pos,
                d@.dirs,
                d@.solid_blocks[k as int],
                block_files(d@, k as int),
            );
            entries_view(r.0@) == entries && match r.1 {
                Some(e) => err == Some(e@),
                None => err is None,
            }
        }),
{
    let solid = &d.solid_blocks[k];
    let total_files = d.files.len();
    let n = solid.n_files as usize;
    assert(n == solid.n_files);
    assert(files_slice(d@, first as int, n as int) == block_files(d@, k as int));
    if solid.compsize == 0 {
        let none: Option<String> = None;
        return (plan_without_data(d, first, n, &solid.compressor, &none), None);
    }
    if solid.rel_pos > dir_pos {
        return (Vec::new(), Some(ArcError::Truncated));
    }
    let abs = dir_pos - solid.rel_pos;
    let len = archive.len() as u64;
    if abs > len || solid.compsize > len - abs {
        return (Vec::new(), Some(unexpected_eof()));
    }
    let from = abs as usize;
    let comp = crate::bytes::slice_range(archive, from, from + solid.compsize as usize);
    let origsize = slice_size(d, first, n);
    match decompress(solid.compressor.as_str(), comp, origsize) {
        Ok(raw) => plan_files_exec(d, first, n, raw.as_slice()),
        Err(ArcError::UnsupportedCompressor(detail)) => {
            let msg = Some(detail);
            (plan_without_data(d, first, n, &solid.compressor, &msg), None)
        },
        Err(e) => (Vec::new(), Some(e)),
    }
}

/// Counts of the written, skipped and mismatched outcomes.
fn count_stats(entries: &Vec<PlannedEntry>) -> (stats: ExtractStats)
    ensures
        (stats.wrote as nat, stats.skipped_unsupported as nat, stats.crc_mismatch as nat)
            == outcome_counts(entries_view(entries@)),
{
    let ghost ev = entries_view(entries@);
    let mut stats = ExtractStats { wrote: 0, skipped_unsupported: 0, crc_mismatch: 0 };
    let mut i: usize = 0;
    while i < entries.len()
        invariant
            i <= entries.len(),
            ev == entries_view(entries@),
            (stats.wrote as nat, stats.skipped_unsupported as nat, stats.crc_mismatch as nat)
                == outcome_counts(ev.subrange(0, i as int)),
            stats.wrote + stats.skipped_unsupported + stats.crc_mismatch == i,
        decreases entries.len() - i,
    {
        proof {
            assert(ev.subrange(0, i + 1).drop_last() =~= ev.subrange(0, i as int));
            assert(ev.subrange(0, i + 1).last() == entries@[i as int]@);
        }
        match &entries[i].outcome {
            FileOutcome::Wrote(_) => stats.wrote = stats.wrote + 1,
            FileOutcome::SkippedUnsupported { .. } => stats.skipped_unsupported = stats.skipped_unsupported
                + 1,
            FileOutcome::CrcMismatch { .. } => stats.crc_mismatch = stats.crc_mismatch + 1,
        }
        i = i + 1;
    }
    assert(ev.subrange(0, i as int) =~= ev);
    stats
}

/// Plan the extraction of every file the DIR block `parsed` lists.
/// `dir_block_pos` is the absolute offset of the DIR block, from which
/// the solid blocks' positions are counted back. Blocks are taken in
/// order; the plan ends at the first error, which extraction then
/// returns after performing the steps planned before it.
pub fn plan_extraction(archive: &[u8], dir_block_pos: u64, parsed: &DirBlock) -> (plan: ExtractPlan)
    requires
        extractable(parsed@),
    ensures
        ({
            let (entries, err) = plan_blocks(archive@, dir_block_pos, parsed@, 0);
            &&& entries_view(plan.entries@) == entries
            &&& match plan.error {
                Some(e) => err == Some(e@),
                None => err is None,
            }
            &&& (plan.stats.wrote as nat, plan.stats.skipped_unsupported as nat, plan.stats.crc_mismatch as nat)
                == outcome_counts(entries)
        }),
{
    let ghost counts = block_counts(parsed@);
    let mut entries: Vec<PlannedEntry> = Vec::new();
    let mut error: Option<ArcError> = None;
    let mut file_idx: usize = 0;
    let mut k: usize = 0;
    let nblocks = parsed.solid_blocks.len();
    let nfiles = parsed.files.len();
    assert(counts.subrange(0, 0) =~= Seq::<u64>::empty());
    while k < nblocks && error.is_none()
        invariant
            k <= nblocks,
            nblocks == parsed.solid_blocks@.len(),
            nfiles == parsed.files@.len(),
            counts == block_counts(parsed@),
            extractable(parsed@),
            file_idx == count_sum(counts.subrange(0, k as int)),
            file_idx <= parsed.files@.len(),
            error is None ==> plan_blocks(archive@, dir_block_pos, parsed@, 0) == (
                entries_view(entries@) + plan_blocks(archive@, dir_block_pos, parsed@, k as int).0,
                plan_blocks(archive@, dir_block_pos, parsed@, k as int).1,
            ),
            error matches Some(e) ==> plan_blocks(archive@, dir_block_pos, parsed@, 0) == (
                entries_view(entries@),
                Some(e@),
            ),
        decreases nblocks - k + (if error is None { 1int } else { 0int }),
    {
        proof {
            crate::dir::lemma_count_sum_prefix(counts, k + 1);
            assert(counts.subrange(0, k + 1).drop_last() =~= counts.subrange(0, k as int));
            assert(counts[k as int] == parsed.solid_blocks@[k as int].n_files);
        }
        let (block_entries, err) = plan_block_exec(archive, dir_block_pos, parsed, k, file_idx);
        let ghost before = entries_view(entries@);
        let ghost added = entries_view(block_entries@);
        let mut block_entries = block_entries;
        entries.append(&mut block_entries);
        assert(entries_view(entries@) =~= before + added);
        error = err;
        let nk = parsed.solid_blocks[k].n_files;
        file_idx = file_idx + nk as usize;
        k = k + 1;
    }
    let stats = count_stats(&entries);
    ExtractPlan { entries, stats, error }
}

// ----- extraction with the caller decoding the solid blocks -----

/// What a solid block holding `files` needs before its entries can be
/// planned.
pub enum BlockInputView {
    /// An empty block (compsize 0): nothing to decode.
    Empty,
    /// The block would start before the start of the file.
    Outside,
    /// The block runs past the end of the archive.
    PastEnd,
    /// These compressed bytes, which decode to this many bytes.
    Decode(Seq<u8>, u64),
}

/// The input of solid block `solid` of a DIR block at `dir_pos`.
pub open spec fn block_input(
    archive: Seq<u8>,
    dir_pos: u64,
    solid: SolidBlockView,
    files: Seq<FileEntryView>,
) -> BlockInputView {
    if solid.compsize == 0 {
        BlockInputView::Empty
    } else if solid.rel_pos > dir_pos {
        BlockInputView::Outside
    } else if (dir_pos - solid.rel_pos) + solid.compsize > archive.len() {
        BlockInputView::PastEnd
    } else {
        let abs = dir_pos - solid.rel_pos;
        BlockInputView::Decode(archive.subrange(abs, abs + solid.compsize), size_sum(files) as u64)
    }
}

/// The entries of a block holding `files` whose decoding gave
/// `decoded`: an unsupported codec skips every entry with the decoder's
/// message, another error stops extraction, decoded bytes are cut into
/// the files.
pub open spec fn decoded_block(
    dirs: Seq<Seq<char>>,
    solid: SolidBlockView,
    files: Seq<FileEntryView>,
    decoded: Result<Seq<u8>, ArcErrorView>,
) -> (Seq<PlannedEntryView>, Option<ArcErrorView>) {
    match decoded {
        Err(ArcErrorView::UnsupportedCompressor(detail)) => (
            files.map_values(
                |f: FileEntryView| entry_without_data(dirs, solid.compressor, Some(detail), f),
            ),
            None,
        ),
        Err(e) => (Seq::empty(), Some(e)),
        Ok(raw) => plan_files(dirs, files, raw, 0),
    }
}

/// The entries of one solid block, where `answer` is what decoding its
/// compressed bytes gave; `answer` counts only for a block that has
/// bytes to decode.
pub open spec fn block_given(
    archive: Seq<u8>,
    dir_pos: u64,
    dirs: Seq<Seq<char>>,
    solid: SolidBlockView,
    files: Seq<FileEntryView>,
    answer: Result<Seq<u8>, ArcErrorView>,
) -> (Seq<PlannedEntryView>, Option<ArcErrorView>) {
    match block_input(archive, dir_pos, solid, files) {
        BlockInputView::Empty => (
            files.map_values(|f: FileEntryView| entry_without_data(dirs, solid.compressor, None, f)),
            None,
        ),
        BlockInputView::Outside => (Seq::empty(), Some(ArcErrorView::Truncated)),
        BlockInputView::PastEnd => (Seq::empty(), Some(ArcErrorView::Io)),
        BlockInputView::Decode(_, _) => decoded_block(dirs, solid, files, answer),
    }
}

/// Extraction of the first `k` solid blocks of `d`, where `answers[j]`
/// is what decoding block `j` gave. It stops at the first error.
pub open spec fn plan_given(
    archive: Seq<u8>,
    dir_pos: u64,
    d: DirBlockView,
    k: int,
    answers: Seq<Result<Seq<u8>, ArcErrorView>>,
) -> (Seq<PlannedEntryView>, Option<ArcErrorView>)
    decreases k,
{
    if k <= 0 {
        (Seq::empty(), None)
    } else {
        let (entries, err) = plan_given(archive, dir_pos, d, k - 1, answers);
        if err is Some {
            (entries, err)
        } else {
            let (more, err2) = block_given(
                archive,
                dir_pos,
                d.dirs,
                d.solid_blocks[k - 1],
                block_files(d, k - 1),
                answers[k - 1],
            );
            (entries + more, err2)
        }
    }
}

/// Once extraction has stopped at an error, later blocks add nothing.
proof fn lemma_given_stops(
    archive: Seq<u8>,
    dir_pos: u64,
    d: DirBlockView,
    k: int,
    m: int,
    answers: Seq<Result<Seq<u8>, ArcErrorView>>,
)
    requires
        0 <= k <= m,
        plan_given(archive, dir_pos, d, k, answers).1 is Some,
    ensures
        plan_given(archive, dir_pos, d, m, answers) == plan_given(archive, dir_pos, d, k, answers),
    decreases m - k,
{
    if m > k {
        lemma_given_stops(archive, dir_pos, d, k, m - 1, answers);
    }
}

/// The result of decoding every solid block of `d` with `decompress`
/// (no plugin host); blocks with nothing to decode get an empty answer.
pub open spec fn no_host_answers(archive: Seq<u8>, dir_pos: u64, d: DirBlockView) -> Seq<
    Result<Seq<u8>, ArcErrorView>,
> {
    Seq::new(
        d.solid_blocks.len(),
        |j: int|
            match block_input(archive, dir_pos, d.solid_blocks[j], block_files(d, j)) {
                BlockInputView::Decode(input, orig) => decode_with(
                    d.solid_blocks[j].compressor,
                    input,
                    orig,
                    no_host(),
                ),
                _ => Ok(Seq::empty()),
            },
    )
}

/// Extraction of blocks `0..k` followed by that of blocks `k..`.
pub open spec fn then_rest(
    first: (Seq<PlannedEntryView>, Option<ArcErrorView>),
    rest: (Seq<PlannedEntryView>, Option<ArcErrorView>),
) -> (Seq<PlannedEntryView>, Option<ArcErrorView>) {
    if first.1 is Some {
        first
    } else {
        (first.0 + rest.0, rest.1)
    }
}

proof fn lemma_given_split(archive: Seq<u8>, dir_pos: u64, d: DirBlockView, k: int)
    requires
        0 <= k <= d.solid_blocks.len(),
    ensures
        plan_blocks(archive, dir_pos, d, 0) == then_rest(
            plan_given(archive, dir_pos, d, k, no_host_answers(archive, dir_pos, d)),
            plan_blocks(archive, dir_pos, d, k),
        ),
    decreases k,
{
    let a = no_host_answers(archive, dir_pos, d);
    if k == 0 {
        let r = plan_blocks(archive, dir_pos, d, 0);
        assert(Seq::<PlannedEntryView>::empty() + r.0 =~= r.0);
    } else {
        lemma_given_split(archive, dir_pos, d, k - 1);
        let j = k - 1;
        let p = plan_given(archive, dir_pos, d, j, a);
        if p.1 is None {
            let solid = d.solid_blocks[j];
            let files = block_files(d, j);
            let (more, err2) = plan_block(archive, dir_pos, d.dirs, solid, files);
            assert(block_given(archive, dir_pos, d.dirs, solid, files, a[j]) == (more, err2));
            if err2 is None {
                let rest = plan_blocks(archive, dir_pos, d, k);
                assert(p.0 + (more + rest.0) =~= (p.0 + more) + rest.0);
            }
        }
    }
}

/// Handing every solid block what `decompress` (with no plugin host)
/// makes of it gives the same extraction as `plan_extraction`.
pub proof fn lemma_no_host_extraction(archive: Seq<u8>, dir_pos: u64, d: DirBlockView)
    ensures
        plan_given(archive, dir_pos, d, d.solid_blocks.len() as int, no_host_answers(archive, dir_pos, d))
            == plan_blocks(archive, dir_pos, d, 0),
{
    let n = d.solid_blocks.len() as int;
    lemma_given_split(archive, dir_pos, d, n);
    let p = plan_given(archive, dir_pos, d, n, no_host_answers(archive, dir_pos, d));
    assert(p.0 + Seq::<PlannedEntryView>::empty() =~= p.0);
}

/// The view of an optional error.
pub open spec fn opt_err_view(e: Option<ArcError>) -> Option<ArcErrorView> {
    match e {
        Some(x) => Some(x@),
        None => None,
    }
}

/// What an [`Extraction`] asks of its caller next.
pub enum BlockTask {
    /// Decode `input` by `method`, expecting `orig_size` bytes, and hand
    /// the result to [`Extraction::supply`].
    Decode { method: String, input: Vec<u8>, orig_size: u64 },
    /// Nothing is left to decode: call [`Extraction::finish`].
    Done,
}

/// An extraction for a caller that decodes the solid blocks itself
/// (running CLS stages in the plugin host, for one). It plans the
/// blocks in order as `plan_extraction` does, and asks for the decoded
/// bytes of each block that has some.
pub struct Extraction {
    archive: Vec<u8>,
    dir_pos: u64,
    parsed: DirBlock,
    next: usize,
    first: usize,
    entries: Vec<PlannedEntry>,
    error: Option<ArcError>,
    waiting: bool,
    answers: Ghost<Seq<Result<Seq<u8>, ArcErrorView>>>,
}

impl Extraction {
    /// The archive's bytes.
    pub closed spec fn archive(&self) -> Seq<u8> {
        self.archive@
    }

    /// The offset of the DIR block.
    pub closed spec fn dir_pos(&self) -> u64 {
        self.dir_pos
    }

    /// The DIR block.
    pub closed spec fn dir(&self) -> DirBlockView {
        self.parsed@
    }

    /// How many solid blocks are planned.
    pub closed spec fn blocks_done(&self) -> int {
        self.next as int
    }

    /// What the caller's decoding gave for each planned block.
    pub closed spec fn answers(&self) -> Seq<Result<Seq<u8>, ArcErrorView>> {
        self.answers@
    }

    /// Whether the extraction waits for the decoded bytes of block
    /// `blocks_done()`.
    pub closed spec fn waiting(&self) -> bool {
        self.waiting
    }

    /// The entries planned so far and the error extraction stopped with.
    pub closed spec fn planned(&self) -> (Seq<PlannedEntryView>, Option<ArcErrorView>) {
        (entries_view(self.entries@), opt_err_view(self.error))
    }

    /// The extraction's state is consistent.
    pub closed spec fn wf(&self) -> bool {
        let d = self.parsed@;
        &&& extractable(d)
        &&& self.next <= d.solid_blocks.len()
        &&& self.first == count_sum(block_counts(d).subrange(0, self.next as int))
        &&& self.answers@.len() == self.next
        &&& self.planned() == plan_given(self.archive@, self.dir_pos, d, self.next as int, self.answers@)
        &&& self.waiting ==> {
            &&& self.error is None
            &&& self.next < d.solid_blocks.len()
            &&& block_input(
                self.archive@,
                self.dir_pos,
                d.solid_blocks[self.next as int],
                block_files(d, self.next as int),
            ) is Decode
        }
    }

    /// Start extracting the files of the DIR block `parsed`, found at
    /// `dir_block_pos` in `archive`.
    pub fn new(archive: Vec<u8>, dir_block_pos: u64, parsed: DirBlock) -> (x: Extraction)
        requires
            extractable(parsed@),
        ensures
            x.wf(),
            x.archive() == archive@,
            x.dir_pos() == dir_block_pos,
            x.dir() == parsed@,
            x.blocks_done() == 0,
            x.answers() == Seq::<Result<Seq<u8>, ArcErrorView>>::empty(),
            !x.waiting(),
            x.planned() == (Seq::<PlannedEntryView>::empty(), None::<ArcErrorView>),
    {
        let x = Extraction {
            archive,
            dir_pos: dir_block_pos,
            parsed,
            next: 0,
            first: 0,
            entries: Vec::new(),
            error: None,
            waiting: false,
            answers: Ghost(Seq::empty()),
        };
        assert(block_counts(x.parsed@).subrange(0, 0) =~= Seq::<u64>::empty());
        assert(entries_view(x.entries@) =~= Seq::<PlannedEntryView>::empty());
        x
    }

    /// Whether the extraction waits for decoded bytes.
    pub fn is_waiting(&self) -> (b: bool)
        ensures
            b == self.waiting(),
    {
        self.waiting
    }

    /// Plan the blocks that need no decoding, up to the next one that
    /// does, and ask for its decoded bytes; or report that nothing is
    /// left to decode.
    pub fn next_task(&mut self) -> (t: BlockTask)
        requires
            old(self).wf(),
            !old(self).waiting(),
        ensures
            final(self).wf(),
            final(self).archive() == old(self).archive(),
            final(self).dir_pos() == old(self).dir_pos(),
            final(self).dir() == old(self).dir(),
            old(self).blocks_done() <= final(self).blocks_done(),
            final(self).answers().subrange(0, old(self).blocks_done()) == old(self).answers(),
            forall|j: int|
                old(self).blocks_done() <= j < final(self).blocks_done() ==> !(block_input(
                    final(self).archive(),
                    final(self).dir_pos(),
                    final(self).dir().solid_blocks[j],
                    block_files(final(self).dir(), j),
                ) is Decode),
            final(self).planned() == plan_given(
                final(self).archive(),
                final(self).dir_pos(),
                final(self).dir(),
                final(self).blocks_done(),
                final(self).answers(),
            ),
            match t {
                BlockTask::Decode { method, input, orig_size } => {
                    &&& final(self).waiting()
                    &&& method@ == final(self).dir().solid_blocks[final(self).blocks_done()].compressor
                    &&& block_input(
                        final(self).archive(),
                        final(self).dir_pos(),
                        final(self).dir().solid_blocks[final(self).blocks_done()],
                        block_files(final(self).dir(), final(self).blocks_done()),
                    ) == BlockInputView::Decode(input@, orig_size)
                },
                BlockTask::Done => {
                    &&& !final(self).waiting()
                    &&& (final(self).planned().1 is Some || final(self).blocks_done()
                        == final(self).dir().solid_blocks.len())
                },
            },
    {
        let n = self.parsed.solid_blocks.len();
        let ghost counts = block_counts(self.parsed@);
        assert(self.answers@.subrange(0, self.next as int) =~= self.answers@);
        while self.next < n && self.error.is_none()
            invariant
                self.wf(),
                !self.waiting,
                n == self.parsed.solid_blocks@.len(),
                counts == block_counts(self.parsed@),
                self.archive@ == old(self).archive@,
                self.dir_pos == old(self).dir_pos,
                self.parsed@ == old(self).parsed@,
                old(self).next <= self.next,
                self.answers@.subrange(0, old(self).next as int) == old(self).answers@,
                forall|j: int|
                    old(self).next <= j < self.next ==> !(block_input(
                        self.archive@,
                        self.dir_pos,
                        self.parsed@.solid_blocks[j],
                        block_files(self.parsed@, j),
                    ) is Decode),
            decreases n - self.next,
        {
            let k = self.next;
            let first = self.first;
            proof {
                crate::dir::lemma_count_sum_prefix(counts, k + 1);
                assert(counts.subrange(0, k + 1).drop_last() =~= counts.subrange(0, k as int));
                assert(counts.subrange(0, k + 1).last() == counts[k as int]);
                assert(counts[k as int] == self.parsed.solid_blocks@[k as int].n_files);
                assert(first + counts[k as int] <= self.parsed@.files.len());
            }
            let nfiles = self.parsed.files.len();
            let nf = self.parsed.solid_blocks[k].n_files as usize;
            assert(first + nf <= nfiles);
            assert(files_slice(self.parsed@, first as int, nf as int) == block_files(self.parsed@, k as int));
            let compsize = self.parsed.solid_blocks[k].compsize;
            let rel_pos = self.parsed.solid_blocks[k].rel_pos;
            let len = self.archive.len() as u64;
            let ghost before = self.planned();
            let ghost ans0 = self.answers@;
            if compsize == 0 {
                let none: Option<String> = None;
                let mut more = plan_without_data(&self.parsed, first, nf, &self.parsed.solid_blocks[k].compressor, &none);
                let ghost added = entries_view(more@);
                self.entries.append(&mut more);
                proof {
                    assert(entries_view(self.entries@) =~= before.0 + added);
                }
            } else if rel_pos > self.dir_pos || compsize > len || self.dir_pos - rel_pos > len - compsize {
                self.error = Some(if rel_pos > self.dir_pos { ArcError::Truncated } else { unexpected_eof() });
                proof {
                    assert(before.0 + Seq::<PlannedEntryView>::empty() =~= before.0);
                }
            } else {
                let abs = (self.dir_pos - rel_pos) as usize;
                let end = abs + compsize as usize;
                let input = vstd::slice::slice_to_vec(crate::bytes::slice_range(self.archive.as_slice(), abs, end));
                let orig_size = slice_size(&self.parsed, first, nf);
                let method = self.parsed.solid_blocks[k].compressor.clone();
                self.waiting = true;
                return BlockTask::Decode { method, input, orig_size };
            }
            self.answers = Ghost(self.answers@.push(Ok(Seq::empty())));
            self.first = first + nf;
            self.next = k + 1;
            proof {
                assert(self.answers@.subrange(0, old(self).next as int) =~= old(self).answers@);
                assert(self.answers@.drop_last() =~= ans0);
                lemma_given_prefix(self.archive@, self.dir_pos, self.parsed@, k as int, self.answers@.drop_last(), self.answers@);
                assert(plan_given(self.archive@, self.dir_pos, self.parsed@, k as int, self.answers@) == before);
                assert(count_sum(counts.subrange(0, k + 1)) == first + nf);
                assert(self.planned() == plan_given(self.archive@, self.dir_pos, self.parsed@, k + 1, self.answers@));
            }
        }
        BlockTask::Done
    }

    /// Hand over what decoding the block asked for gave, and plan that
    /// block's entries from it.
    pub fn supply(&mut self, decoded: Result<Vec<u8>, ArcError>)
        requires
            old(self).wf(),
            old(self).waiting(),
        ensures
            final(self).wf(),
            !final(self).waiting(),
            final(self).archive() == old(self).archive(),
            final(self).dir_pos() == old(self).dir_pos(),
            final(self).dir() == old(self).dir(),
            final(self).blocks_done() == old(self).blocks_done() + 1,
            final(self).answers() == old(self).answers().push(res_view(decoded)),
            final(self).planned() == plan_given(
                final(self).archive(),
                final(self).dir_pos(),
                final(self).dir(),
                final(self).blocks_done(),
                final(self).answers(),
            ),
    {
        let nblocks = self.parsed.solid_blocks.len();
        let k = self.next;
        let first = self.first;
        let ghost counts = block_counts(self.parsed@);
        proof {
            crate::dir::lemma_count_sum_prefix(counts, k + 1);
            assert(counts.subrange(0, k + 1).drop_last() =~= counts.subrange(0, k as int));
            assert(counts.subrange(0, k + 1).last() == counts[k as int]);
            assert(counts[k as int] == self.parsed.solid_blocks@[k as int].n_files);
            assert(first + counts[k as int] <= self.parsed@.files.len());
        }
        let nfiles = self.parsed.files.len();
        let nf = self.parsed.solid_blocks[k].n_files as usize;
        assert(first + nf <= nfiles && k < nblocks);
        assert(files_slice(self.parsed@, first as int, nf as int) == block_files(self.parsed@, k as int));
        let ghost dv = res_view(decoded);
        let ghost before = self.planned();
        let (mut more, err) = match decoded {
            Ok(raw) => plan_files_exec(&self.parsed, first, nf, raw.as_slice()),
            Err(ArcError::UnsupportedCompressor(detail)) => {
                let msg = Some(detail);
                (plan_without_data(&self.parsed, first, nf, &self.parsed.solid_blocks[k].compressor, &msg), None)
            },
            Err(e) => (Vec::new(), Some(e)),
        };
        let ghost added = entries_view(more@);
        self.entries.append(&mut more);
        self.error = err;
        self.answers = Ghost(self.answers@.push(dv));
        self.first = first + nf;
        self.next = k + 1;
        self.waiting = false;
        proof {
            assert(entries_view(self.entries@) =~= before.0 + added);
            lemma_given_prefix(self.archive@, self.dir_pos, self.parsed@, k as int, self.answers@.drop_last(), self.answers@);
            assert(self.answers@.drop_last() =~= old(self).answers@);
        }
    }

    /// The extraction planned: its entries in order, their counts, and
    /// the error it stopped with. Once `next_task` has answered
    /// `Done`, this is the extraction of every block.
    pub fn finish(self) -> (plan: ExtractPlan)
        requires
            self.wf(),
        ensures
            ({
                let (entries, err) = plan_given(
                    self.archive(),
                    self.dir_pos(),
                    self.dir(),
                    self.blocks_done(),
                    self.answers(),
                );
                &&& entries_view(plan.entries@) == entries
                &&& opt_err_view(plan.error) == err
                &&& (plan.stats.wrote as nat, plan.stats.skipped_unsupported as nat, plan.stats.crc_mismatch as nat)
                    == outcome_counts(entries)
            }),
            (self.planned().1 is Some || self.blocks_done() == self.dir().solid_blocks.len())
                ==> plan_given(self.archive(), self.dir_pos(), self.dir(), self.dir().solid_blocks.len() as int, self.answers())
                    == plan_given(self.archive(), self.dir_pos(), self.dir(), self.blocks_done(), self.answers()),
    {
        proof {
            if self.planned().1 is Some {
                lemma_given_stops(
                    self.archive@,
                    self.dir_pos,
                    self.parsed@,
                    self.next as int,
                    self.parsed@.solid_blocks.len() as int,
                    self.answers@,
                );
            }
        }
        let stats = count_stats(&self.entries);
        ExtractPlan { entries: self.entries, stats, error: self.error }
    }
}

/// Extraction of the first `k` blocks looks only at the first `k`
/// answers.
proof fn lemma_given_prefix(
    archive: Seq<u8>,
    dir_pos: u64,
    d: DirBlockView,
    k: int,
    a: Seq<Result<Seq<u8>, ArcErrorView>>,
    b: Seq<Result<Seq<u8>, ArcErrorView>>,
)
    requires
        0 <= k <= a.len(),
        k <= b.len(),
        forall|j: int| 0 <= j < k ==> a[j] == b[j],
    ensures
        plan_given(archive, dir_pos, d, k, a) == plan_given(archive, dir_pos, d, k, b),
    decreases k,
{
    if k > 0 {
        lemma_given_prefix(archive, dir_pos, d, k - 1, a, b);
    }
}

} // verus!
