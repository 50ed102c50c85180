//! Native archive inspection: the file table and codec list of a
//! FreeArc archive, read without running its installer.

use vstd::prelude::*;
use vstd::string::StringExecFns;

use crate::decompress::{support_level, support_of, SupportLevel};
use crate::dir::{full_path_of, parse, parse_dir, DirBlockView, FileEntryView, SolidBlockView};
use crate::error::{error_text, ArcError, ArcErrorView};
use crate::footer::{block_type, res_view, LocalDescriptorView};
use crate::reader::{control_block, open, open_archive, read_control_block, ControlBlockEntryView};

verus! {

/// Why an archive could not be inspected.
#[derive(Debug)]
pub enum ArchiveError {
    NotFound { path: String },
    NotFreeArc { detail: String },
    ReadFailed { detail: String },
}

/// One entry of the archive's file table.
#[derive(Debug)]
pub struct PeekFile {
    pub path: String,
    pub size: u64,
    /// CRC-32 the directory entry claims.
    pub crc: u32,
    pub is_dir: bool,
}

pub struct PeekFileView {
    pub path: Seq<char>,
    pub size: u64,
    pub crc: u32,
    pub is_dir: bool,
}

impl View for PeekFile {
    type V = PeekFileView;

    open spec fn view(&self) -> PeekFileView {
        PeekFileView { path: self.path@, size: self.size, crc: self.crc, is_dir: self.is_dir }
    }
}

/// One codec the archive uses.
#[derive(Debug)]
pub struct PeekCodec {
    pub method: String,
    /// Whether every stage of the codec chain has a decoder in this
    /// library (no stage needs the CLS plugin host).
    pub supported_natively: bool,
}

/// What inspecting an archive shows.
#[derive(Debug)]
pub struct ArchivePeek {
    pub archive_path: String,
    pub archive_bytes: u64,
    pub file_count: u64,
    pub total_uncompressed_bytes: u64,
    pub codecs: Vec<PeekCodec>,
    /// Set when a DIR block uses a codec that cannot be decoded.
    pub partial_reason: Option<String>,
    pub files: Vec<PeekFile>,
}

/// `s` added at the end of `list` unless already there.
pub open spec fn push_unique(list: Seq<Seq<char>>, s: Seq<char>) -> Seq<Seq<char>> {
    if list.contains(s) {
        list
    } else {
        list.push(s)
    }
}

/// Each of `ss` added in turn with [`push_unique`].
pub open spec fn push_all_unique(list: Seq<Seq<char>>, ss: Seq<Seq<char>>) -> Seq<Seq<char>>
    decreases ss.len(),
{
    if ss.len() == 0 {
        list
    } else {
        push_all_unique(push_unique(list, ss[0]), ss.drop_first())
    }
}

/// The table entry of a file entry of `d`.
pub open spec fn peek_file_of(d: DirBlockView, f: FileEntryView) -> PeekFileView {
    PeekFileView { path: full_path_of(d.dirs, f), size: f.size, crc: f.crc, is_dir: f.is_dir }
}

/// Sum of the sizes of file entries.
pub open spec fn sizes_total(files: Seq<FileEntryView>) -> int
    decreases files.len(),
{
    if files.len() == 0 {
        0
    } else {
        sizes_total(files.drop_last()) + files.last().size
    }
}

/// What the inspection has gathered so far.
pub struct PeekAcc {
    pub codecs: Seq<Seq<char>>,
    pub files: Seq<PeekFileView>,
    pub total: int,
    pub partial: Option<Seq<char>>,
}

/// Why inspecting stopped.
pub enum PeekFailure {
    NotFreeArc,
    Read(ArcErrorView),
    DirParse,
}

/// The inspection of one control-block entry, where `read` is what
/// reading the block gave (looked at only for a DIR block): its codec
/// is collected; a DIR block adds its solid blocks' codecs and its
/// files; a DIR block with an unsupported codec is noted and passed
/// over; any other failure stops the inspection.
#[verifier::opaque]
pub open spec fn peek_step_read(
    e: ControlBlockEntryView,
    read: Result<Seq<u8>, ArcErrorView>,
    acc: PeekAcc,
) -> Result<PeekAcc, PeekFailure> {
    let acc1 = PeekAcc { codecs: push_unique(acc.codecs, e.compressor), ..acc };
    if e.block_type != block_type::DIR {
        Ok(acc1)
    } else {
        match read {
            Err(ArcErrorView::UnsupportedCompressor(s)) => Ok(
                PeekAcc {
                    partial: Some(
                        "DIR block uses unsupported codec "@ + s + "; file list may be incomplete"@,
                    ),
                    ..acc1
                },
            ),
            Err(err) => Err(PeekFailure::Read(err)),
            Ok(raw) => match parse_dir(raw) {
                None => Err(PeekFailure::DirParse),
                Some(d) => Ok(
                    PeekAcc {
                        codecs: push_all_unique(
                            acc1.codecs,
                            d.solid_blocks.map_values(|b: SolidBlockView| b.compressor),
                        ),
                        files: acc1.files + d.files.map_values(
                            |f: FileEntryView| peek_file_of(d, f),
                        ),
                        total: acc1.total + sizes_total(d.files),
                        partial: acc1.partial,
                    },
                ),
            },
        }
    }
}

/// The inspection of one control-block entry, reading the block with
/// this library's decoders.
pub open spec fn peek_step(
    archive: Seq<u8>,
    footer: LocalDescriptorView,
    e: ControlBlockEntryView,
    acc: PeekAcc,
) -> Result<PeekAcc, PeekFailure> {
    peek_step_read(e, control_block(archive, footer, e), acc)
}

/// The inspection of control-block entries in order, where `reads[k]`
/// is what reading block `k` gave, stopping at the first failure.
pub open spec fn peek_entries_reads(
    entries: Seq<ControlBlockEntryView>,
    reads: Seq<Result<Seq<u8>, ArcErrorView>>,
    acc: PeekAcc,
) -> Result<PeekAcc, PeekFailure>
    decreases entries.len(),
{
    if entries.len() == 0 {
        Ok(acc)
    } else {
        match peek_step_read(entries[0], reads[0], acc) {
            Err(f) => Err(f),
            Ok(next) => peek_entries_reads(entries.drop_first(), reads.drop_first(), next),
        }
    }
}

/// The inspection of an opened archive `s`, where `reads[k]` is what
/// reading its control block `k` gave.
pub open spec fn peek_reads(
    s: crate::reader::ArchiveSummaryView,
    reads: Seq<Result<Seq<u8>, ArcErrorView>>,
) -> Result<PeekAcc, PeekFailure> {
    peek_entries_reads(
        s.control_blocks,
        reads,
        PeekAcc { codecs: seq![s.footer.compressor], files: Seq::empty(), total: 0, partial: None },
    )
}

proof fn lemma_peek_reads(
    archive: Seq<u8>,
    footer: LocalDescriptorView,
    entries: Seq<ControlBlockEntryView>,
    reads: Seq<Result<Seq<u8>, ArcErrorView>>,
    acc: PeekAcc,
)
    requires
        crate::survey::reads_agree(archive, footer, entries, reads),
    ensures
        peek_entries(archive, footer, entries, acc) == peek_entries_reads(entries, reads, acc),
    decreases entries.len(),
{
    if entries.len() > 0 {
        let e = entries[0];
        reveal(peek_step_read);
        assert(peek_step(archive, footer, e, acc) == peek_step_read(e, reads[0], acc));
        assert forall|k: int|
            0 <= k < entries.drop_first().len() && (#[trigger] entries.drop_first()[k]).block_type
                == block_type::DIR implies reads.drop_first()[k] == control_block(
            archive,
            footer,
            entries.drop_first()[k],
        ) by {
            assert(entries.drop_first()[k] == entries[k + 1]);
        }
        match peek_step(archive, footer, e, acc) {
            Err(_) => {},
            Ok(next) => lemma_peek_reads(archive, footer, entries.drop_first(), reads.drop_first(), next),
        }
    }
}

/// The inspection of control-block entries in order, stopping at the
/// first failure.
pub open spec fn peek_entries(
    archive: Seq<u8>,
    footer: LocalDescriptorView,
    entries: Seq<ControlBlockEntryView>,
    acc: PeekAcc,
) -> Result<PeekAcc, PeekFailure>
    decreases entries.len(),
{
    if entries.len() == 0 {
        Ok(acc)
    } else {
        match peek_step(archive, footer, entries[0], acc) {
            Err(f) => Err(f),
            Ok(next) => peek_entries(archive, footer, entries.drop_first(), next),
        }
    }
}

/// The whole inspection of `archive`.
pub open spec fn peek_archive(archive: Seq<u8>) -> Result<PeekAcc, PeekFailure> {
    match open_archive(archive) {
        Err(ArcErrorView::NoFooterSignature) => Err(PeekFailure::NotFreeArc),
        Err(e) => Err(PeekFailure::Read(e)),
        Ok(summary) => peek_entries(
            archive,
            summary.footer,
            summary.control_blocks,
            PeekAcc {
                codecs: seq![summary.footer.compressor],
                files: Seq::empty(),
                total: 0,
                partial: None,
            },
        ),
    }
}

/// The texts of some strings.
pub open spec fn texts(v: Seq<String>) -> Seq<Seq<char>> {
    v.map_values(|s: String| s@)
}

/// Add `method` to `seen` unless it is already there.
pub(crate) fn push_codec_unique(seen: &mut Vec<String>, method: String)
    ensures
        texts(final(seen)@) == push_unique(texts(old(seen)@), method@),
{
    let ghost before = texts(seen@);
    let mut i: usize = 0;
    while i < seen.len()
        invariant
            i <= seen.len(),
            texts(seen@) == before,
            forall|k: int| 0 <= k < i ==> before[k] != method@,
        decreases seen.len() - i,
    {
        if seen[i] == method {
            proof {
                assert(before.contains(method@)) by {
                    assert(before[i as int] == method@);
                }
            }
            return;
        }
        i = i + 1;
    }
    proof {
        assert(!before.contains(method@));
    }
    seen.push(method);
    assert(texts(seen@) =~= before.push(method@));
}

/// The peek's table entry for a file entry of `d`.
fn peek_file(d: &crate::dir::DirBlock, f: &crate::dir::FileEntry) -> (p: PeekFile)
    ensures
        p@ == peek_file_of(d@, f@),
{
    PeekFile { path: d.full_path(f), size: f.size, crc: f.crc, is_dir: f.is_dir }
}

/// The error an inspection failure is reported with.
pub open spec fn failure_shown(e: ArchiveError, f: PeekFailure) -> bool {
    match f {
        PeekFailure::NotFreeArc => e matches ArchiveError::NotFreeArc { detail } && detail@
            == "missing ArC\\x01 signature in last 4 KiB"@,
        PeekFailure::Read(err) => e matches ArchiveError::ReadFailed { detail } && (error_text(
            err,
        ) matches Some(t) ==> detail@ == t),
        PeekFailure::DirParse => e matches ArchiveError::ReadFailed { detail } && detail@ == "DIR parse: "@
            + error_text(ArcErrorView::Truncated).unwrap(),
    }
}

/// Add a decoded DIR block's codecs and files to what is gathered.
fn add_dir_block(
    d: &crate::dir::DirBlock,
    codecs: &mut Vec<String>,
    files: &mut Vec<PeekFile>,
    total: &mut u64,
)
    ensures
        texts(final(codecs)@) == push_all_unique(
            texts(old(codecs)@),
            d@.solid_blocks.map_values(|b: SolidBlockView| b.compressor),
        ),
        final(files)@.map_values(|p: PeekFile| p@) == old(files)@.map_values(|p: PeekFile| p@)
            + d@.files.map_values(|f: FileEntryView| peek_file_of(d@, f)),
        *final(total) as int == (*old(total) + sizes_total(d@.files)) % 0x1_0000_0000_0000_0000,
{
    let ghost comps = d@.solid_blocks.map_values(|b: SolidBlockView| b.compressor);
    let ghost c0 = texts(codecs@);
    let mut i: usize = 0;
    assert(comps.skip(0) =~= comps);
    while i < d.solid_blocks.len()
        invariant
            i <= d.solid_blocks.len(),
            comps == d@.solid_blocks.map_values(|b: SolidBlockView| b.compressor),
            push_all_unique(c0, comps) == push_all_unique(texts(codecs@), comps.skip(i as int)),
        decreases d.solid_blocks.len() - i,
    {
        let ghost before = texts(codecs@);
        proof {
            assert(comps.skip(i as int).drop_first() =~= comps.skip(i + 1));
            assert(comps.skip(i as int)[0] == d.solid_blocks@[i as int].compressor@);
        }
        push_codec_unique(codecs, d.solid_blocks[i].compressor.clone());
        i = i + 1;
    }
    assert(comps.skip(i as int) =~= Seq::<Seq<char>>::empty());
    let ghost f0 = files@.map_values(|p: PeekFile| p@);
    let ghost t0 = *total as int;
    let ghost fv = d@.files;
    let mut j: usize = 0;
    while j < d.files.len()
        invariant
            j <= d.files.len(),
            fv == d@.files,
            files@.map_values(|p: PeekFile| p@) =~= f0 + fv.subrange(0, j as int).map_values(
                |f: FileEntryView| peek_file_of(d@, f),
            ),
            *total as int == (t0 + sizes_total(fv.subrange(0, j as int))) % 0x1_0000_0000_0000_0000,
        decreases d.files.len() - j,
    {
        let f = &d.files[j];
        let ghost before = files@.map_values(|p: PeekFile| p@);
        files.push(peek_file(d, f));
        proof {
            assert(fv.subrange(0, j + 1).drop_last() =~= fv.subrange(0, j as int));
            assert(fv[j as int] == f@);
            assert(files@.map_values(|p: PeekFile| p@) =~= before.push(peek_file_of(d@, f@)));
            assert(fv.subrange(0, j + 1).map_values(|f: FileEntryView| peek_file_of(d@, f))
                =~= fv.subrange(0, j as int).map_values(|f: FileEntryView| peek_file_of(d@, f)).push(
                peek_file_of(d@, f@),
            ));
            let a = t0 + sizes_total(fv.subrange(0, j as int));
            let m = 0x1_0000_0000_0000_0000int;
            vstd::arithmetic::div_mod::lemma_add_mod_noop(a, f.size as int, m);
            vstd::arithmetic::div_mod::lemma_small_mod(f.size as nat, m as nat);
            let x = *total as int + f.size;
            if x < m {
                vstd::arithmetic::div_mod::lemma_small_mod(x as nat, m as nat);
            } else {
                vstd::arithmetic::div_mod::lemma_fundamental_div_mod_converse(x, m, 1, x - m);
            }
        }
        *total = total.wrapping_add(f.size);
        j = j + 1;
    }
    assert(fv.subrange(0, j as int) =~= fv);
}

/// The gathered state as mathematical values.
pub open spec fn acc_of(
    codecs: Seq<String>,
    files: Seq<PeekFile>,
    total: int,
    partial: Option<String>,
) -> PeekAcc {
    PeekAcc {
        codecs: texts(codecs),
        files: files.map_values(|p: PeekFile| p@),
        total,
        partial: match partial {
            Some(s) => Some(s@),
            None => None,
        },
    }
}


/// Inspecting an opened archive with reads that agree with this
/// library's decoders on every DIR block gives `peek_archive`.
pub proof fn lemma_peek_reads_agree(archive: Seq<u8>, reads: Seq<Result<Seq<u8>, ArcErrorView>>)
    requires
        open_archive(archive) is Ok,
        crate::survey::reads_agree(
            archive,
            open_archive(archive)->Ok_0.footer,
            open_archive(archive)->Ok_0.control_blocks,
            reads,
        ),
    ensures
        peek_archive(archive) == peek_reads(open_archive(archive)->Ok_0, reads),
{
    let s = open_archive(archive)->Ok_0;
    lemma_peek_reads(
        archive,
        s.footer,
        s.control_blocks,
        reads,
        PeekAcc { codecs: seq![s.footer.compressor], files: Seq::empty(), total: 0, partial: None },
    );
}

/// Inspect one control-block entry, where `read` is what reading it
/// gave, adding to what is gathered.
fn peek_one(
    entry: &crate::reader::ControlBlockEntry,
    read: &Result<Vec<u8>, ArcError>,
    codecs: &mut Vec<String>,
    files: &mut Vec<PeekFile>,
    total: &mut u64,
    partial: &mut Option<String>,
    Ghost(gtotal): Ghost<int>,
) -> (r: Result<Ghost<int>, ArchiveError>)
    requires
        *old(total) as int == gtotal % 0x1_0000_0000_0000_0000,
    ensures
        match peek_step_read(entry@, res_view(*read), acc_of(old(codecs)@, old(files)@, gtotal, *old(partial))) {
            Ok(next) => r matches Ok(g) && next == acc_of(final(codecs)@, final(files)@, g@, *final(partial))
                && *final(total) as int == g@ % 0x1_0000_0000_0000_0000,
            Err(f) => r matches Err(e) && failure_shown(e, f),
        },
{
    reveal(peek_step_read);
    push_codec_unique(codecs, entry.compressor.clone());
    if entry.block_type != block_type::DIR {
        return Ok(Ghost(gtotal));
    }
    match read {
        Ok(raw) => {
            match parse(raw.as_slice()) {
                Ok(d) => {
                    add_dir_block(&d, codecs, files, total);
                    Ok(Ghost(gtotal + sizes_total(d@.files)))
                },
                Err(e) => {
                    let mut detail = String::from_str("DIR parse: ");
                    let t = e.message();
                    detail.append(t.as_str());
                    Err(ArchiveError::ReadFailed { detail })
                },
            }
        },
        Err(ArcError::UnsupportedCompressor(s)) => {
            let mut reason = String::from_str("DIR block uses unsupported codec ");
            reason.append(s.as_str());
            reason.append("; file list may be incomplete");
            *partial = Some(reason);
            Ok(Ghost(gtotal))
        },
        Err(e) => Err(ArchiveError::ReadFailed { detail: e.message() }),
    }
}

/// The inspection's result for a finished [`PeekAcc`].
pub open spec fn peek_shown(p: ArchivePeek, acc: PeekAcc, path: Seq<char>, len: nat) -> bool {
    &&& p.archive_path@ == path
    &&& p.archive_bytes == len
    &&& p.file_count == acc.files.len()
    &&& p.total_uncompressed_bytes == acc.total % 0x1_0000_0000_0000_0000
    &&& p.codecs@.map_values(|c: PeekCodec| (c.method@, c.supported_natively)) == acc.codecs.map_values(
        |m: Seq<char>| (m, support_of(m) == SupportLevel::Native),
    )
    &&& (match p.partial_reason {
        Some(s) => acc.partial == Some(s@),
        None => acc.partial is None,
    })
    &&& p.files@.map_values(|f: PeekFile| f@) == acc.files
}

/// The inspection failure of an archive that `open` refused with `e`.
pub open spec fn open_failure_of(e: ArcErrorView) -> PeekFailure {
    match e {
        ArcErrorView::NoFooterSignature => PeekFailure::NotFreeArc,
        _ => PeekFailure::Read(e),
    }
}

/// The error an inspection reports when `open` refused the archive
/// with `e`.
pub fn open_failure(e: ArcError) -> (r: ArchiveError)
    ensures
        failure_shown(r, open_failure_of(e@)),
{
    match e {
        ArcError::NoFooterSignature => ArchiveError::NotFreeArc {
            detail: String::from_str("missing ArC\\x01 signature in last 4 KiB"),
        },
        e => ArchiveError::ReadFailed { detail: e.message() },
    }
}

/// Inspect an opened archive of `archive_bytes` bytes (read from
/// `path`), where `reads[k]` is what reading its control block `k`
/// gave (only DIR blocks are looked at); the caller reads them, with
/// the CLS plugin host if it has one. A DIR block whose codec cannot be
/// decoded is noted in `partial_reason` and passed over; any other
/// failure is an error.
pub fn archive_peek_reads(
    path: String,
    archive_bytes: u64,
    summary: &crate::reader::ArchiveSummary,
    reads: &[Result<Vec<u8>, ArcError>],
) -> (r: Result<ArchivePeek, ArchiveError>)
    requires
        reads@.len() == summary.control_blocks@.len(),
    ensures
        match peek_reads(summary@, crate::survey::reads_view(reads@)) {
            Ok(acc) => r matches Ok(p) && peek_shown(p, acc, path@, archive_bytes as nat),
            Err(f) => r matches Err(e) && failure_shown(e, f),
        },
{
    let ghost rv = crate::survey::reads_view(reads@);
    let mut codecs_seen: Vec<String> = Vec::new();
    let mut files: Vec<PeekFile> = Vec::new();
    let mut partial_reason: Option<String> = None;
    let mut total: u64 = 0;
    let ghost mut gtotal: int = 0;
    push_codec_unique(&mut codecs_seen, summary.footer.compressor.clone());
    let ghost entries = summary@.control_blocks;
    let ghost footer = summary@.footer;
    let ghost acc0 = acc_of(codecs_seen@, files@, gtotal, partial_reason);
    assert(acc0.codecs =~= seq![footer.compressor]);
    assert(acc0.files =~= Seq::<PeekFileView>::empty());
    assert(entries.skip(0) =~= entries);
    assert(rv.skip(0) =~= rv);
    let mut i: usize = 0;
    while i < summary.control_blocks.len()
        invariant
            i <= summary.control_blocks.len(),
            entries == summary@.control_blocks,
            footer == summary@.footer,
            rv == crate::survey::reads_view(reads@),
            rv.len() == entries.len(),
            acc0 == (PeekAcc {
                codecs: seq![footer.compressor],
                files: Seq::empty(),
                total: 0,
                partial: None,
            }),
            total as int == gtotal % 0x1_0000_0000_0000_0000,
            peek_entries_reads(entries, rv, acc0) == peek_entries_reads(
                entries.skip(i as int),
                rv.skip(i as int),
                acc_of(codecs_seen@, files@, gtotal, partial_reason),
            ),
        decreases summary.control_blocks.len() - i,
    {
        let entry = &summary.control_blocks[i];
        proof {
            assert(entries.skip(i as int)[0] == entry@);
            assert(entries.skip(i as int).drop_first() =~= entries.skip(i + 1));
            assert(rv.skip(i as int)[0] == res_view(reads@[i as int]));
            assert(rv.skip(i as int).drop_first() =~= rv.skip(i + 1));
        }
        let ghost acc_i = acc_of(codecs_seen@, files@, gtotal, partial_reason);
        let res = peek_one(
            entry,
            &reads[i],
            &mut codecs_seen,
            &mut files,
            &mut total,
            &mut partial_reason,
            Ghost(gtotal),
        );
        let g = match res {
            Ok(g) => g,
            Err(e) => {
                return Err(e);
            },
        };
        proof {
            gtotal = g@;
        }
        i = i + 1;
    }
    let ghost acc = acc_of(codecs_seen@, files@, gtotal, partial_reason);
    assert(entries.skip(i as int) =~= Seq::<ControlBlockEntryView>::empty());
    let mut codecs: Vec<PeekCodec> = Vec::new();
    let mut k: usize = 0;
    while k < codecs_seen.len()
        invariant
            k <= codecs_seen.len(),
            codecs@.map_values(|c: PeekCodec| (c.method@, c.supported_natively)) =~= texts(
                codecs_seen@,
            ).subrange(0, k as int).map_values(
                |m: Seq<char>| (m, support_of(m) == SupportLevel::Native),
            ),
        decreases codecs_seen.len() - k,
    {
        let m = codecs_seen[k].clone();
        let supported_natively = match support_level(m.as_str()) {
            SupportLevel::Native => true,
            _ => false,
        };
        let ghost before = codecs@.map_values(|c: PeekCodec| (c.method@, c.supported_natively));
        codecs.push(PeekCodec { method: m, supported_natively });
        proof {
            let tv = texts(codecs_seen@);
            assert(tv[k as int] == codecs_seen@[k as int]@);
            assert(codecs@.map_values(|c: PeekCodec| (c.method@, c.supported_natively)) =~= before.push(
                (tv[k as int], support_of(tv[k as int]) == SupportLevel::Native),
            ));
            assert(tv.subrange(0, k + 1).map_values(
                |m: Seq<char>| (m, support_of(m) == SupportLevel::Native),
            ) =~= tv.subrange(0, k as int).map_values(
                |m: Seq<char>| (m, support_of(m) == SupportLevel::Native),
            ).push((tv[k as int], support_of(tv[k as int]) == SupportLevel::Native)));
        }
        k = k + 1;
    }
    assert(texts(codecs_seen@).subrange(0, k as int) =~= texts(codecs_seen@));
    let file_count = files.len() as u64;
    Ok(
        ArchivePeek {
            archive_path: path,
            archive_bytes,
            file_count,
            total_uncompressed_bytes: total,
            codecs,
            partial_reason,
            files,
        },
    )
}

/// Inspect an archive held in memory (read from `path`): its control
/// blocks' codecs, and the file table and codecs of every DIR block,
/// read with this library's decoders (no plugin host). A DIR block
/// whose codec cannot be decoded is noted in `partial_reason` and
/// passed over; any other failure is an error.
pub fn archive_peek(path: String, archive: &[u8]) -> (r: Result<ArchivePeek, ArchiveError>)
    ensures
        match peek_archive(archive@) {
            Ok(acc) => r matches Ok(p) && peek_shown(p, acc, path@, archive@.len()),
            Err(f) => r matches Err(e) && failure_shown(e, f),
        },
{
    let summary = match open(archive) {
        Ok(s) => s,
        Err(e) => {
            return Err(open_failure(e));
        },
    };
    let ghost sv = summary@;
    let mut reads: Vec<Result<Vec<u8>, ArcError>> = Vec::new();
    let mut k: usize = 0;
    while k < summary.control_blocks.len()
        invariant
            k <= summary.control_blocks.len(),
            sv == summary@,
            reads@.len() == k,
            forall|j: int|
                0 <= j < k && (#[trigger] sv.control_blocks[j]).block_type == block_type::DIR ==> res_view(
                    reads@[j],
                ) == control_block(archive@, sv.footer, sv.control_blocks[j]),
        decreases summary.control_blocks.len() - k,
    {
        let entry = &summary.control_blocks[k];
        assert(sv.control_blocks[k as int] == entry@);
        if entry.block_type == block_type::DIR {
            reads.push(read_control_block(archive, &summary.footer, entry));
        } else {
            reads.push(Ok(Vec::new()));
        }
        k = k + 1;
    }
    let len = archive.len() as u64;
    proof {
        let rv = crate::survey::reads_view(reads@);
        assert forall|j: int|
            0 <= j < sv.control_blocks.len() && (#[trigger] sv.control_blocks[j]).block_type == block_type::DIR
                implies rv[j] == control_block(archive@, sv.footer, sv.control_blocks[j]) by {}
        lemma_peek_reads(
            archive@,
            sv.footer,
            sv.control_blocks,
            rv,
            PeekAcc { codecs: seq![sv.footer.compressor], files: Seq::empty(), total: 0, partial: None },
        );
    }
    archive_peek_reads(path, len, &summary, reads.as_slice())
}

} // verus!
