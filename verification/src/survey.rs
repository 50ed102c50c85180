//! Surveying archives: how each would be handled today.
//!
//! An archive is NATIVE when every codec it uses has a decoder here,
//! HYBRID when some codec needs the Windows CLS plugin host, BLOCKED
//! when some codec is unknown, and BROKEN when its file table could not
//! be read at all. Walking directories and printing are the caller's.

use vstd::prelude::*;

use crate::cellar::archive::{push_all_unique, push_codec_unique, push_unique, texts};
use crate::decompress::{support_level, support_of, SupportLevel};
use crate::dir::{parse, parse_dir, SolidBlockView};
use crate::error::{ArcError, ArcErrorView};
use crate::footer::res_view;
use crate::footer::block_type;
use crate::footer::LocalDescriptorView;
use crate::reader::{
    control_block, open, open_archive, read_control_block, ArchiveSummary, ArchiveSummaryView, ControlBlockEntry,
    ControlBlockEntryView,
};
use crate::bytes::nul_free;
use crate::roundtrip::{
    dir_of_files, image_entries, image_footer_descriptor_pos, image_summary, lemma_dir_body_roundtrip,
    lemma_write_then_open, lemma_write_then_read_blocks,
};
use crate::footer::sig_at;
use crate::writer::{archive_image, image_data, InputFileView};

verus! {

/// How an archive would be handled.
#[derive(Debug, Clone, Copy, PartialEq, Eq, Structural)]
pub enum Status {
    Native,
    Hybrid,
    Blocked,
    Broken,
}

/// The fixed-width label of a status.
pub open spec fn tag_of(s: Status) -> Seq<char> {
    match s {
        Status::Native => "NATIVE "@,
        Status::Hybrid => "HYBRID "@,
        Status::Blocked => "BLOCKED"@,
        Status::Broken => "BROKEN "@,
    }
}

impl Status {
    /// The label printed for the status, padded to seven characters.
    pub fn tag(&self) -> (s: &'static str)
        ensures
            s@ == tag_of(*self),
    {
        match self {
            Status::Native => "NATIVE ",
            Status::Hybrid => "HYBRID ",
            Status::Blocked => "BLOCKED",
            Status::Broken => "BROKEN ",
        }
    }
}

/// The status of an archive whose codecs are `codecs`: BLOCKED if any
/// is unsupported, else HYBRID if any needs the plugin host, else NATIVE.
pub open spec fn status_of(codecs: Seq<Seq<char>>) -> Status {
    if exists|i: int| 0 <= i < codecs.len() && support_of(codecs[i]) == SupportLevel::Unsupported {
        Status::Blocked
    } else if exists|i: int| 0 <= i < codecs.len() && support_of(codecs[i]) == SupportLevel::Hybrid {
        Status::Hybrid
    } else {
        Status::Native
    }
}

/// What the DIR blocks of an archive have given so far: the codecs
/// seen, the number of file entries, and whether some DIR block could
/// not be read.
pub struct SurveyAcc {
    pub codecs: Seq<Seq<char>>,
    pub files: int,
    pub broke: bool,
}

pub open spec fn solid_codecs(sb: Seq<SolidBlockView>) -> Seq<Seq<char>> {
    sb.map_values(|s: SolidBlockView| s.compressor)
}

/// One control block's part, where `read` is what reading the block
/// gave (looked at only for a DIR block): a DIR block adds its file
/// entries and its solid blocks' codecs, or marks the archive broken
/// when it could not be read or parsed; other blocks add nothing.
pub open spec fn dir_step_read(
    e: ControlBlockEntryView,
    read: Result<Seq<u8>, ArcErrorView>,
    acc: SurveyAcc,
) -> SurveyAcc {
    if e.block_type != block_type::DIR {
        acc
    } else {
        match read {
            Err(_) => SurveyAcc { broke: true, ..acc },
            Ok(raw) => match parse_dir(raw) {
                None => SurveyAcc { broke: true, ..acc },
                Some(d) => SurveyAcc {
                    codecs: push_all_unique(acc.codecs, solid_codecs(d.solid_blocks)),
                    files: acc.files + d.files.len(),
                    broke: acc.broke,
                },
            },
        }
    }
}

/// One control block's part, reading the block with this library's
/// decoders.
pub open spec fn dir_step(
    archive: Seq<u8>,
    footer: LocalDescriptorView,
    e: ControlBlockEntryView,
    acc: SurveyAcc,
) -> SurveyAcc {
    dir_step_read(e, control_block(archive, footer, e), acc)
}

/// All control blocks' parts, in order, where `reads[k]` is what
/// reading control block `k` gave.
pub open spec fn dir_fold_reads(
    entries: Seq<ControlBlockEntryView>,
    reads: Seq<Result<Seq<u8>, ArcErrorView>>,
    acc: SurveyAcc,
) -> SurveyAcc
    decreases entries.len(),
{
    if entries.len() == 0 {
        acc
    } else {
        dir_fold_reads(entries.drop_first(), reads.drop_first(), dir_step_read(entries[0], reads[0], acc))
    }
}

/// The survey of an opened archive `s`, where `reads[k]` is what
/// reading its control block `k` gave: its status, its number of file
/// entries (modulo 2^64) and its codecs (the footer's, each control
/// block's, then each solid block's, each once, in that order). An
/// archive whose DIR blocks all failed to read is BROKEN with no files.
pub open spec fn classify_reads(
    s: ArchiveSummaryView,
    reads: Seq<Result<Seq<u8>, ArcErrorView>>,
) -> (Status, int, Seq<Seq<char>>) {
    let c0 = push_all_unique(
        push_unique(Seq::empty(), s.footer.compressor),
        s.control_blocks.map_values(|e: ControlBlockEntryView| e.compressor),
    );
    let acc = dir_fold_reads(s.control_blocks, reads, SurveyAcc { codecs: c0, files: 0, broke: false });
    let count = acc.files % 0x1_0000_0000_0000_0000;
    if acc.broke && count == 0 {
        (Status::Broken, 0, acc.codecs)
    } else {
        (status_of(acc.codecs), count, acc.codecs)
    }
}

/// Reads that agree with this library's decoders on every DIR block.
pub open spec fn reads_agree(
    archive: Seq<u8>,
    footer: LocalDescriptorView,
    entries: Seq<ControlBlockEntryView>,
    reads: Seq<Result<Seq<u8>, ArcErrorView>>,
) -> bool {
    &&& reads.len() == entries.len()
    &&& forall|k: int|
        0 <= k < entries.len() && (#[trigger] entries[k]).block_type == block_type::DIR ==> reads[k]
            == control_block(archive, footer, entries[k])
}

proof fn lemma_fold_reads(
    archive: Seq<u8>,
    footer: LocalDescriptorView,
    entries: Seq<ControlBlockEntryView>,
    reads: Seq<Result<Seq<u8>, ArcErrorView>>,
    acc: SurveyAcc,
)
    requires
        reads_agree(archive, footer, entries, reads),
    ensures
        dir_fold(archive, footer, entries, acc) == dir_fold_reads(entries, reads, acc),
    decreases entries.len(),
{
    if entries.len() > 0 {
        let e = entries[0];
        assert(dir_step(archive, footer, e, acc) == dir_step_read(e, reads[0], acc));
        assert forall|k: int|
            0 <= k < entries.drop_first().len() && (#[trigger] entries.drop_first()[k]).block_type
                == block_type::DIR implies reads.drop_first()[k] == control_block(
            archive,
            footer,
            entries.drop_first()[k],
        ) by {
            assert(entries.drop_first()[k] == entries[k + 1]);
        }
        lemma_fold_reads(archive, footer, entries.drop_first(), reads.drop_first(), dir_step(archive, footer, e, acc));
    }
}

/// All control blocks' parts, in order.
pub open spec fn dir_fold(
    archive: Seq<u8>,
    footer: LocalDescriptorView,
    entries: Seq<ControlBlockEntryView>,
    acc: SurveyAcc,
) -> SurveyAcc
    decreases entries.len(),
{
    if entries.len() == 0 {
        acc
    } else {
        dir_fold(archive, footer, entries.drop_first(), dir_step(archive, footer, entries[0], acc))
    }
}

/// The survey of an archive: its status, its number of file entries
/// (counted modulo 2^64) and its codecs (the footer's, each control
/// block's, then each solid block's, each once, in that order). An
/// archive whose DIR blocks all failed to read is BROKEN with no files.
pub open spec fn classify_of(archive: Seq<u8>) -> Result<(Status, int, Seq<Seq<char>>), ArcErrorView> {
    match open_archive(archive) {
        Err(e) => Err(e),
        Ok(s) => {
            let c0 = push_all_unique(
                push_unique(Seq::empty(), s.footer.compressor),
                s.control_blocks.map_values(|e: ControlBlockEntryView| e.compressor),
            );
            let acc = dir_fold(
                archive,
                s.footer,
                s.control_blocks,
                SurveyAcc { codecs: c0, files: 0, broke: false },
            );
            let count = acc.files % 0x1_0000_0000_0000_0000;
            if acc.broke && count == 0 {
                Ok((Status::Broken, 0, acc.codecs))
            } else {
                Ok((status_of(acc.codecs), count, acc.codecs))
            }
        },
    }
}

proof fn lemma_push_all_unique_step(list: Seq<Seq<char>>, ss: Seq<Seq<char>>, i: int)
    requires
        0 <= i < ss.len(),
    ensures
        push_all_unique(list, ss.subrange(0, i + 1)) == push_unique(
            push_all_unique(list, ss.subrange(0, i)),
            ss[i],
        ),
    decreases i,
{
    let a = ss.subrange(0, i + 1);
    let b = ss.subrange(0, i);
    if i == 0 {
        assert(a.drop_first() =~= Seq::<Seq<char>>::empty());
        assert(b =~= Seq::<Seq<char>>::empty());
        assert(push_all_unique(list, a) == push_all_unique(push_unique(list, a[0]), a.drop_first()));
        assert(push_all_unique(push_unique(list, a[0]), Seq::<Seq<char>>::empty()) == push_unique(
            list,
            a[0],
        ));
    } else {
        let rest = ss.drop_first();
        let l1 = push_unique(list, ss[0]);
        lemma_push_all_unique_step(l1, rest, i - 1);
        assert(a.drop_first() =~= rest.subrange(0, i));
        assert(b.drop_first() =~= rest.subrange(0, i - 1));
        assert(push_all_unique(list, a) == push_all_unique(l1, a.drop_first()));
        assert(push_all_unique(list, b) == push_all_unique(l1, b.drop_first()));
        assert(rest[i - 1] == ss[i]);
    }
}

fn add_solid_codecs(codecs: &mut Vec<String>, d: &crate::dir::DirBlock)
    ensures
        texts(final(codecs)@) == push_all_unique(texts(old(codecs)@), solid_codecs(d@.solid_blocks)),
{
    let ghost start = texts(codecs@);
    let ghost sc = solid_codecs(d@.solid_blocks);
    let mut i: usize = 0;
    while i < d.solid_blocks.len()
        invariant
            i <= d.solid_blocks.len(),
            sc == solid_codecs(d@.solid_blocks),
            sc.len() == d.solid_blocks@.len(),
            texts(codecs@) == push_all_unique(start, sc.subrange(0, i as int)),
        decreases d.solid_blocks.len() - i,
    {
        proof {
            lemma_push_all_unique_step(start, sc, i as int);
        }
        assert(sc[i as int] == d.solid_blocks@[i as int]@.compressor);
        push_codec_unique(codecs, d.solid_blocks[i].compressor.clone());
        i = i + 1;
    }
    assert(sc.subrange(0, i as int) =~= sc);
}

fn combined_status(codecs: &Vec<String>) -> (r: Status)
    ensures
        r == status_of(texts(codecs@)),
{
    let ghost cv = texts(codecs@);
    let mut status = Status::Native;
    let mut i: usize = 0;
    while i < codecs.len()
        invariant
            i <= codecs.len(),
            cv == texts(codecs@),
            status == status_of(cv.subrange(0, i as int)),
        decreases codecs.len() - i,
    {
        let ghost pre = cv.subrange(0, i as int);
        let ghost next = cv.subrange(0, i + 1);
        assert(cv[i as int] == codecs@[i as int]@);
        let level = support_level(codecs[i].as_str());
        proof {
            assert forall|j: int| 0 <= j < i implies #[trigger] next[j] == pre[j] by {}
            assert(next[i as int] == cv[i as int]);
        }
        match level {
            SupportLevel::Native => {},
            SupportLevel::Hybrid => {
                if status == Status::Native {
                    status = Status::Hybrid;
                }
            },
            SupportLevel::Unsupported => {
                status = Status::Blocked;
            },
        }
        proof {
            if exists|j: int| 0 <= j < next.len() && support_of(next[j]) == SupportLevel::Unsupported {
                let j = choose|j: int|
                    0 <= j < next.len() && support_of(next[j]) == SupportLevel::Unsupported;
                if j < i {
                    assert(support_of(pre[j]) == SupportLevel::Unsupported);
                }
            }
            if exists|j: int| 0 <= j < next.len() && support_of(next[j]) == SupportLevel::Hybrid {
                let j = choose|j: int| 0 <= j < next.len() && support_of(next[j]) == SupportLevel::Hybrid;
                if j < i {
                    assert(support_of(pre[j]) == SupportLevel::Hybrid);
                }
            }
        }
        i = i + 1;
    }
    assert(cv.subrange(0, i as int) =~= cv);
    status
}

/// Add a wrapped count `n` to `count`, keeping it the true total modulo 2^64.
fn add_wrapping(count: u64, n: u64, Ghost(total): Ghost<int>) -> (r: u64)
    requires
        count as int == total % 0x1_0000_0000_0000_0000,
        total >= 0,
    ensures
        r as int == (total + n) % 0x1_0000_0000_0000_0000,
{
    proof {
        let m = 0x1_0000_0000_0000_0000int;
        vstd::arithmetic::div_mod::lemma_add_mod_noop(total, n as int, m);
        vstd::arithmetic::div_mod::lemma_small_mod(n as nat, m as nat);
        let x = count as int + n;
        if x < m {
            vstd::arithmetic::div_mod::lemma_small_mod(x as nat, m as nat);
        } else {
            vstd::arithmetic::div_mod::lemma_fundamental_div_mod_converse(x, m, 1, x - m);
        }
    }
    count.wrapping_add(n)
}

fn survey_step(
    entry: &ControlBlockEntry,
    read: &Result<Vec<u8>, ArcError>,
    codecs: &mut Vec<String>,
    file_count: &mut u64,
    broke: &mut bool,
    Ghost(files): Ghost<int>,
) -> (g: Ghost<int>)
    requires
        *old(file_count) as int == files % 0x1_0000_0000_0000_0000,
        files >= 0,
    ensures
        dir_step_read(
            entry@,
            res_view(*read),
            SurveyAcc { codecs: texts(old(codecs)@), files, broke: *old(broke) },
        ) == (SurveyAcc { codecs: texts(final(codecs)@), files: g@, broke: *final(broke) }),
        *final(file_count) as int == g@ % 0x1_0000_0000_0000_0000,
        g@ >= 0,
{
    let mut g: Ghost<int> = Ghost(files);
    if entry.block_type == block_type::DIR {
        match read {
            Err(_) => {
                *broke = true;
            },
            Ok(raw) => {
                match parse(raw.as_slice()) {
                    Err(_) => {
                        *broke = true;
                    },
                    Ok(d) => {
                        let n = d.files.len() as u64;
                        *file_count = add_wrapping(*file_count, n, Ghost(files));
                        g = Ghost(files + d@.files.len());
                        add_solid_codecs(codecs, &d);
                    },
                }
            },
        }
    }
    g
}

/// The views of some read results.
pub open spec fn reads_view(v: Seq<Result<Vec<u8>, ArcError>>) -> Seq<Result<Seq<u8>, ArcErrorView>> {
    v.map_values(|r: Result<Vec<u8>, ArcError>| res_view(r))
}

/// Survey an opened archive, where `reads[k]` is what reading its
/// control block `k` gave (only DIR blocks are looked at); the caller
/// reads them, with the CLS plugin host if it has one.
pub fn classify_summary(summary: &ArchiveSummary, reads: &[Result<Vec<u8>, ArcError>]) -> (r: (
    Status,
    u64,
    Vec<String>,
))
    requires
        reads@.len() == summary.control_blocks@.len(),
    ensures
        ({
            let (st, n, cs) = classify_reads(summary@, reads_view(reads@));
            r.0 == st && r.1 == n && texts(r.2@) == cs
        }),
{
    let ghost sv = summary@;
    let ghost rv = reads_view(reads@);
    let mut codecs: Vec<String> = Vec::new();
    assert(texts(codecs@) =~= Seq::<Seq<char>>::empty());
    push_codec_unique(&mut codecs, summary.footer.compressor.clone());
    let ghost first = texts(codecs@);
    assert(first == push_unique(Seq::empty(), sv.footer.compressor));
    let ghost ecs = sv.control_blocks.map_values(|e: ControlBlockEntryView| e.compressor);
    let mut i: usize = 0;
    while i < summary.control_blocks.len()
        invariant
            i <= summary.control_blocks.len(),
            sv == summary@,
            ecs == sv.control_blocks.map_values(|e: ControlBlockEntryView| e.compressor),
            ecs.len() == summary.control_blocks@.len(),
            texts(codecs@) == push_all_unique(first, ecs.subrange(0, i as int)),
        decreases summary.control_blocks.len() - i,
    {
        proof {
            lemma_push_all_unique_step(first, ecs, i as int);
        }
        assert(ecs[i as int] == summary.control_blocks@[i as int]@.compressor);
        push_codec_unique(&mut codecs, summary.control_blocks[i].compressor.clone());
        i = i + 1;
    }
    assert(ecs.subrange(0, i as int) =~= ecs);
    let ghost acc0 = SurveyAcc { codecs: texts(codecs@), files: 0, broke: false };
    let ghost entries = sv.control_blocks;
    let mut file_count: u64 = 0;
    let ghost mut files: int = 0;
    let mut broke = false;
    let mut k: usize = 0;
    assert(entries.subrange(0, entries.len() as int) =~= entries);
    assert(rv.subrange(0, rv.len() as int) =~= rv);
    while k < summary.control_blocks.len()
        invariant
            k <= summary.control_blocks.len(),
            sv == summary@,
            rv == reads_view(reads@),
            entries == sv.control_blocks,
            entries.len() == summary.control_blocks@.len(),
            rv.len() == entries.len(),
            file_count as int == files % 0x1_0000_0000_0000_0000,
            files >= 0,
            dir_fold_reads(entries, rv, acc0) == dir_fold_reads(
                entries.subrange(k as int, entries.len() as int),
                rv.subrange(k as int, rv.len() as int),
                SurveyAcc { codecs: texts(codecs@), files, broke },
            ),
        decreases summary.control_blocks.len() - k,
    {
        let ghost rest = entries.subrange(k as int, entries.len() as int);
        let ghost rrest = rv.subrange(k as int, rv.len() as int);
        assert(rest.drop_first() =~= entries.subrange(k + 1, entries.len() as int));
        assert(rrest.drop_first() =~= rv.subrange(k + 1, rv.len() as int));
        assert(rest[0] == summary.control_blocks@[k as int]@);
        assert(rrest[0] == res_view(reads@[k as int]));
        let g = survey_step(
            &summary.control_blocks[k],
            &reads[k],
            &mut codecs,
            &mut file_count,
            &mut broke,
            Ghost(files),
        );
        proof {
            files = g@;
        }
        k = k + 1;
    }
    assert(entries.subrange(k as int, entries.len() as int) =~= Seq::<ControlBlockEntryView>::empty());
    assert(acc0.codecs == push_all_unique(
        push_unique(Seq::empty(), sv.footer.compressor),
        sv.control_blocks.map_values(|e: ControlBlockEntryView| e.compressor),
    ));
    if broke && file_count == 0 {
        return (Status::Broken, 0, codecs);
    }
    let status = combined_status(&codecs);
    (status, file_count, codecs)
}

/// Survey an archive held in memory: its status, file count and codecs.
/// Its DIR blocks are read with this library's decoders (no plugin
/// host).
pub fn classify_archive(archive: &[u8]) -> (r: Result<(Status, u64, Vec<String>), ArcError>)
    ensures
        match classify_of(archive@) {
            Ok((st, n, cs)) => r matches Ok(x) && x.0 == st && x.1 == n && texts(x.2@) == cs,
            Err(e) => r matches Err(e2) && e2@ == e,
        },
{
    let summary = match open(archive) {
        Ok(s) => s,
        Err(e) => {
            return Err(e);
        },
    };
    let ghost sv = summary@;
    let mut reads: Vec<Result<Vec<u8>, ArcError>> = Vec::new();
    let mut k: usize = 0;
    while k < summary.control_blocks.len()
        invariant
            k <= summary.control_blocks.len(),
            sv == summary@,
            reads@.len() == k,
            forall|j: int|
                0 <= j < k && (#[trigger] sv.control_blocks[j]).block_type == block_type::DIR ==> res_view(
                    reads@[j],
                ) == control_block(archive@, sv.footer, sv.control_blocks[j]),
        decreases summary.control_blocks.len() - k,
    {
        let entry = &summary.control_blocks[k];
        assert(sv.control_blocks[k as int] == entry@);
        if entry.block_type == block_type::DIR {
            reads.push(read_control_block(archive, &summary.footer, entry));
        } else {
            reads.push(Ok(Vec::new()));
        }
        k = k + 1;
    }
    let r = classify_summary(&summary, reads.as_slice());
    proof {
        let rv = reads_view(reads@);
        assert forall|j: int|
            0 <= j < sv.control_blocks.len() && (#[trigger] sv.control_blocks[j]).block_type == block_type::DIR
                implies rv[j] == control_block(archive@, sv.footer, sv.control_blocks[j]) by {}
        let c0 = push_all_unique(
            push_unique(Seq::empty(), sv.footer.compressor),
            sv.control_blocks.map_values(|e: ControlBlockEntryView| e.compressor),
        );
        lemma_fold_reads(archive@, sv.footer, sv.control_blocks, rv, SurveyAcc { codecs: c0, files: 0, broke: false });
    }
    Ok(r)
}

/// Surveying an opened archive with reads that agree with this
/// library's decoders on every DIR block gives `classify_of`.
pub proof fn lemma_classify_reads_agree(archive: Seq<u8>, reads: Seq<Result<Seq<u8>, ArcErrorView>>)
    requires
        open_archive(archive) is Ok,
        reads_agree(
            archive,
            open_archive(archive)->Ok_0.footer,
            open_archive(archive)->Ok_0.control_blocks,
            reads,
        ),
    ensures
        classify_of(archive) == Ok::<(Status, int, Seq<Seq<char>>), ArcErrorView>(
            classify_reads(open_archive(archive)->Ok_0, reads),
        ),
{
    let s = open_archive(archive)->Ok_0;
    let c0 = push_all_unique(
        push_unique(Seq::empty(), s.footer.compressor),
        s.control_blocks.map_values(|e: ControlBlockEntryView| e.compressor),
    );
    lemma_fold_reads(archive, s.footer, s.control_blocks, reads, SurveyAcc { codecs: c0, files: 0, broke: false });
}

/// An archive this library writes is surveyed as NATIVE, with one file
/// entry per file written and the single codec "storing". This holds
/// when the names hold no NUL character (a NUL would cut a name short
/// in the file table) and the signature does not occur again inside the
/// footer's own descriptor (see [`lemma_write_then_open`]).
#[verifier::rlimit(80)]
pub proof fn lemma_written_archive_is_native(fv: Seq<InputFileView>)
    requires
        archive_image(fv).len() <= u64::MAX,
        fv.len() <= u64::MAX,
        forall|i: int| 0 <= i < fv.len() ==> nul_free(#[trigger] fv[i].name),
        forall|q: int|
            image_footer_descriptor_pos(fv) < q ==> !sig_at(#[trigger] archive_image(fv), q),
    ensures
        classify_of(archive_image(fv)) == Ok::<(Status, int, Seq<Seq<char>>), ArcErrorView>(
            (Status::Native, fv.len() as int, seq!["storing"@]),
        ),
{
    let img = archive_image(fv);
    let sv = image_summary(fv);
    lemma_write_then_open(fv);
    lemma_write_then_read_blocks(fv);
    lemma_dir_body_roundtrip(fv, image_data(fv).len() as u64);
    let st = seq!["storing"@];
    let entries = image_entries(fv);
    assert(push_unique(Seq::empty(), "storing"@) == st);
    assert(push_unique(st, "storing"@) == st) by {
        assert(st[0] == "storing"@);
    }
    let ecs = entries.map_values(|e: ControlBlockEntryView| e.compressor);
    assert(ecs =~= seq!["storing"@, "storing"@]);
    assert(push_all_unique(st, ecs) == st) by {
        reveal_with_fuel(push_all_unique, 3);
        assert(ecs.drop_first() =~= seq!["storing"@]);
        assert(ecs.drop_first().drop_first() =~= Seq::<Seq<char>>::empty());
    }
    let d = dir_of_files(fv, image_data(fv).len() as u64);
    assert(solid_codecs(d.solid_blocks) =~= st);
    assert(push_all_unique(st, st) == st) by {
        reveal_with_fuel(push_all_unique, 2);
        assert(st.drop_first() =~= Seq::<Seq<char>>::empty());
    }
    assert(d.files.len() == fv.len());
    let acc0 = SurveyAcc { codecs: st, files: 0, broke: false };
    let acc1 = dir_step(img, sv.footer, entries[0], acc0);
    assert(acc1 == acc0);
    let acc2 = dir_step(img, sv.footer, entries[1], acc1);
    assert(acc2 == SurveyAcc { codecs: st, files: fv.len() as int, broke: false });
    assert(entries.drop_first() =~= seq![entries[1]]);
    assert(entries.drop_first().drop_first() =~= Seq::<ControlBlockEntryView>::empty());
    assert(dir_fold(img, sv.footer, entries, acc0) == acc2) by {
        reveal_with_fuel(dir_fold, 3);
    }
    assert(fv.len() % 0x1_0000_0000_0000_0000 == fv.len());
    assert(support_of("storing"@) == SupportLevel::Native) by {
        reveal_strlit("storing");
        assert(!crate::chars::has_char("storing"@, '+'));
        reveal_with_fuel(crate::decompress::chain_support, 2);
        assert(seq!["storing"@].drop_last() =~= Seq::<Seq<char>>::empty());
    }
    assert(status_of(st) == Status::Native) by {
        assert(st[0] == "storing"@);
    }
}

/// The signature bytes looked for near the end of a file.
pub open spec fn footer_signature() -> Seq<u8> {
    seq![0x41u8, 0x72u8, 0x43u8, 0x01u8]
}

/// The signature occurs somewhere in `window`.
pub open spec fn has_signature(window: Seq<u8>) -> bool {
    exists|i: int| 0 <= i && i + 4 <= window.len() && #[trigger] window.subrange(i, i + 4) == footer_signature()
}

/// How many trailing bytes of a file of `size` bytes are searched for
/// the signature: the last 4 KiB, or the whole of a smaller file.
pub open spec fn window_len(size: u64) -> u64 {
    if size < 4096 {
        size
    } else {
        4096
    }
}

/// How much of a file of `size` bytes to read for the quick check, as
/// (offset, length); `None` for files too small to hold the signature.
pub fn signature_window(size: u64) -> (r: Option<(u64, u64)>)
    ensures
        size < 4 ==> r is None,
        size >= 4 ==> r == Some(((size - window_len(size)) as u64, window_len(size))),
{
    if size < 4 {
        return None;
    }
    let window = if size < 4096 {
        size
    } else {
        4096
    };
    Some((size - window, window))
}

/// Whether the trailing bytes `window` hold the signature: a quick
/// check that a file is an archive at all.
pub fn looks_like_freearc(window: &[u8]) -> (r: bool)
    ensures
        r == has_signature(window@),
{
    if window.len() < 4 {
        return false;
    }
    let mut i: usize = 0;
    while i <= window.len() - 4
        invariant
            4 <= window.len(),
            i <= window.len() - 3,
            forall|j: int| 0 <= j < i ==> #[trigger] window@.subrange(j, j + 4) != footer_signature(),
        decreases window.len() - i,
    {
        if window[i] == 0x41 && window[i + 1] == 0x72 && window[i + 2] == 0x43 && window[i + 3]
            == 0x01 {
            assert(window@.subrange(i as int, i + 4) =~= footer_signature());
            return true;
        }
        proof {
            let w = window@.subrange(i as int, i + 4);
            if w == footer_signature() {
                assert(w[0] == window@[i as int]);
                assert(w[1] == window@[i + 1]);
                assert(w[2] == window@[i + 2]);
                assert(w[3] == window@[i + 3]);
            }
        }
        i = i + 1;
    }
    false
}

} // verus!
