//! Footer-first reading of a whole archive: find the footer descriptor,
//! decode the footer block, and list the control blocks it points at.

use vstd::prelude::*;

use crate::bytes::{cstring_at, read_cstring, read_u32_le, slice_range, u32_at};
use crate::decompress::{crc32, crc32_ieee, decode_with, decompress, no_host};
use crate::error::{ArcError, ArcErrorView};
use crate::footer::{
    descriptor_window, find_footer_descriptor, footer_descriptor_pos, parse_descriptor,
    read_block_bytes, read_local_descriptor, res_view, LocalDescriptor, LocalDescriptorView,
};
use crate::varint::{read_varint, varint_at};

verus! {

/// One entry of the footer's control-block list.
#[derive(Debug, Clone)]
pub struct ControlBlockEntry {
    pub block_type: u8,
    pub compressor: String,
    /// Distance back from the footer block's start to this block's.
    pub rel_pos: u64,
    pub origsize: u64,
    pub compsize: u64,
    pub crc: u32,
}

pub struct ControlBlockEntryView {
    pub block_type: u8,
    pub compressor: Seq<char>,
    pub rel_pos: u64,
    pub origsize: u64,
    pub compsize: u64,
    pub crc: u32,
}

impl View for ControlBlockEntry {
    type V = ControlBlockEntryView;

    open spec fn view(&self) -> ControlBlockEntryView {
        ControlBlockEntryView {
            block_type: self.block_type,
            compressor: self.compressor@,
            rel_pos: self.rel_pos,
            origsize: self.origsize,
            compsize: self.compsize,
            crc: self.crc,
        }
    }
}

/// What `open` finds: the footer's descriptor, the control blocks the
/// footer lists, and the footer bytes after that list (lock flag,
/// recovery settings, comment).
#[derive(Debug, Clone)]
pub struct ArchiveSummary {
    pub footer: LocalDescriptor,
    pub control_blocks: Vec<ControlBlockEntry>,
    pub trailer: Vec<u8>,
}

pub struct ArchiveSummaryView {
    pub footer: LocalDescriptorView,
    pub control_blocks: Seq<ControlBlockEntryView>,
    pub trailer: Seq<u8>,
}

impl View for ArchiveSummary {
    type V = ArchiveSummaryView;

    open spec fn view(&self) -> ArchiveSummaryView {
        ArchiveSummaryView {
            footer: self.footer@,
            control_blocks: self.control_blocks@.map_values(|e: ControlBlockEntry| e@),
            trailer: self.trailer@,
        }
    }
}

/// The control-block entry at `pos` of a footer body: block type
/// (varint, low byte kept), compressor (NUL-terminated), position back
/// from the footer, origsize and compsize (varints), CRC (u32 LE).
#[verifier::opaque]
pub open spec fn entry_at(body: Seq<u8>, pos: int) -> Option<(ControlBlockEntryView, int)> {
    match varint_at(body, pos) {
        None => None,
        Some((bt, k1)) => match cstring_at(body, pos + k1) {
            None => None,
            Some((comp, p2)) => match varint_at(body, p2) {
                None => None,
                Some((rel, k3)) => match varint_at(body, p2 + k3) {
                    None => None,
                    Some((orig, k4)) => match varint_at(body, p2 + k3 + k4) {
                        None => None,
                        Some((csize, k5)) => match u32_at(body, p2 + k3 + k4 + k5) {
                            None => None,
                            Some((crc, p6)) => Some(
                                (
                                    ControlBlockEntryView {
                                        block_type: bt as u8,
                                        compressor: comp,
                                        rel_pos: rel,
                                        origsize: orig,
                                        compsize: csize,
                                        crc,
                                    },
                                    p6,
                                ),
                            ),
                        },
                    },
                },
            },
        },
    }
}

/// `n` consecutive entries from `pos`, with the position after them.
pub open spec fn entries_at(body: Seq<u8>, pos: int, n: nat) -> Option<
    (Seq<ControlBlockEntryView>, int),
>
    decreases n,
{
    if n == 0 {
        Some((Seq::empty(), pos))
    } else {
        match entry_at(body, pos) {
            None => None,
            Some((e, q)) => match entries_at(body, q, (n - 1) as nat) {
                None => None,
                Some((rest, r)) => Some((seq![e] + rest, r)),
            },
        }
    }
}

/// A footer body: the number of control blocks (varint), the entries,
/// and whatever follows them.
pub open spec fn parse_footer_body(body: Seq<u8>) -> Option<(Seq<ControlBlockEntryView>, Seq<u8>)> {
    match varint_at(body, 0) {
        None => None,
        Some((n, k)) => match entries_at(body, k as int, n as nat) {
            None => None,
            Some((entries, p)) => Some((entries, body.skip(p))),
        },
    }
}

/// What reading `archive` gives: the footer descriptor found by
/// [`footer_descriptor_pos`], the footer block decoded and checked
/// against its CRC, and its control-block list.
pub open spec fn open_archive(archive: Seq<u8>) -> Result<ArchiveSummaryView, ArcErrorView> {
    match footer_descriptor_pos(archive) {
        None => Err(ArcErrorView::NoFooterSignature),
        Some(dp) => match parse_descriptor(descriptor_window(archive, dp), dp as u64) {
            Err(e) => Err(e),
            Ok(footer) => if footer.block_pos + footer.compsize > archive.len() {
                Err(ArcErrorView::Truncated)
            } else {
                let raw = archive.subrange(
                    footer.block_pos as int,
                    footer.block_pos + footer.compsize,
                );
                match decode_with(footer.compressor, raw, footer.origsize, no_host()) {
                    Err(e) => Err(e),
                    Ok(body) => if crc32_ieee(body) != footer.crc {
                        Err(
                            ArcErrorView::CrcMismatch {
                                what: "footer"@,
                                expected: footer.crc,
                                actual: crc32_ieee(body),
                            },
                        )
                    } else {
                        match parse_footer_body(body) {
                            None => Err(ArcErrorView::Truncated),
                            Some((entries, trailer)) => Ok(
                                ArchiveSummaryView { footer, control_blocks: entries, trailer },
                            ),
                        }
                    },
                }
            },
        },
    }
}

fn read_entry(body: &[u8], pos: &mut usize) -> (res: Result<ControlBlockEntry, ArcError>)
    ensures
        match entry_at(body@, *old(pos) as int) {
            Some((e, q)) => res matches Ok(x) && x@ == e && *final(pos) == q,
            None => res matches Err(ArcError::Truncated),
        },
        res is Ok ==> *final(pos) <= body@.len(),
{
    reveal(entry_at);
    let bt = read_varint(body, pos)?;
    let compressor = read_cstring(body, pos)?;
    let rel_pos = read_varint(body, pos)?;
    let origsize = read_varint(body, pos)?;
    let compsize = read_varint(body, pos)?;
    let crc = read_u32_le(body, pos)?;
    Ok(
        ControlBlockEntry {
            block_type: #[verifier::truncate] (bt as u8),
            compressor,
            rel_pos,
            origsize,
            compsize,
            crc,
        },
    )
}

/// Parse the footer block's body into its control-block list and the
/// bytes after it.
fn parse_footer(body: &[u8]) -> (res: Result<(Vec<ControlBlockEntry>, Vec<u8>), ArcError>)
    ensures
        match parse_footer_body(body@) {
            Some((entries, trailer)) => res matches Ok((v, t)) && v@.map_values(
                |e: ControlBlockEntry| e@,
            ) == entries && t@ == trailer,
            None => res matches Err(ArcError::Truncated),
        },
{
    let mut p: usize = 0;
    let n = read_varint(body, &mut p)?;
    let ghost k = p as int;
    let mut entries: Vec<ControlBlockEntry> = Vec::new();
    let mut i: u64 = 0;
    while i < n
        invariant
            i <= n,
            p <= body@.len(),
            0 <= k,
            varint_at(body@, 0) == Some((n, k as nat)),
            entries_at(body@, k, n as nat) == match entries_at(body@, p as int, (n - i) as nat) {
                None => None,
                Some((rest, r)) => Some(
                    (entries@.map_values(|e: ControlBlockEntry| e@) + rest, r),
                ),
            },
        decreases n - i,
    {
        let ghost before = entries@.map_values(|e: ControlBlockEntry| e@);
        let ghost q0 = p as int;
        assert(entry_at(body@, q0) is None ==> entries_at(body@, q0, (n - i) as nat) is None);
        let e = read_entry(body, &mut p)?;
        entries.push(e);
        proof {
            assert(entries@.map_values(|e: ControlBlockEntry| e@) =~= before.push(e@));
            match entries_at(body@, p as int, (n - i - 1) as nat) {
                None => {},
                Some((rest, r)) => {
                    assert(before + (seq![e@] + rest) =~= before.push(e@) + rest);
                },
            }
        }
        i = i + 1;
    }
    assert(entries@.map_values(|e: ControlBlockEntry| e@) + Seq::<ControlBlockEntryView>::empty()
        =~= entries@.map_values(|e: ControlBlockEntry| e@));
    let trailer = vstd::slice::slice_to_vec(slice_range(body, p, body.len()));
    assert(trailer@ =~= body@.skip(p as int));
    Ok((entries, trailer))
}

/// The first part of opening `archive`: the footer descriptor found by
/// [`footer_descriptor_pos`] and the footer block's stored (still
/// encoded) bytes.
pub open spec fn footer_stage(archive: Seq<u8>) -> Result<(LocalDescriptorView, Seq<u8>), ArcErrorView> {
    match footer_descriptor_pos(archive) {
        None => Err(ArcErrorView::NoFooterSignature),
        Some(dp) => match parse_descriptor(descriptor_window(archive, dp), dp as u64) {
            Err(e) => Err(e),
            Ok(footer) => if footer.block_pos + footer.compsize > archive.len() {
                Err(ArcErrorView::Truncated)
            } else {
                Ok((footer, archive.subrange(footer.block_pos as int, footer.block_pos + footer.compsize)))
            },
        },
    }
}

/// The second part of opening: what decoding the footer block gave,
/// checked against the footer's CRC and read as a control-block list.
pub open spec fn open_from(
    footer: LocalDescriptorView,
    decoded: Result<Seq<u8>, ArcErrorView>,
) -> Result<ArchiveSummaryView, ArcErrorView> {
    match decoded {
        Err(e) => Err(e),
        Ok(body) => if crc32_ieee(body) != footer.crc {
            Err(ArcErrorView::CrcMismatch { what: "footer"@, expected: footer.crc, actual: crc32_ieee(body) })
        } else {
            match parse_footer_body(body) {
                None => Err(ArcErrorView::Truncated),
                Some((entries, trailer)) => Ok(ArchiveSummaryView { footer, control_blocks: entries, trailer }),
            }
        },
    }
}

/// Opening is the footer stage, decoding the footer block with this
/// library's decoders (no plugin host), then [`open_from`].
pub proof fn lemma_open_parts(archive: Seq<u8>)
    ensures
        open_archive(archive) == match footer_stage(archive) {
            Err(e) => Err(e),
            Ok((footer, raw)) => open_from(
                footer,
                decode_with(footer.compressor, raw, footer.origsize, no_host()),
            ),
        },
{
}

/// Locate the footer descriptor in the last 4 KiB of `archive` and
/// take the footer block's stored bytes, for a caller that decodes them
/// itself (with the CLS plugin host, say) and then calls
/// [`open_decoded`].
pub fn open_footer(archive: &[u8]) -> (res: Result<(LocalDescriptor, Vec<u8>), ArcError>)
    ensures
        match footer_stage(archive@) {
            Ok((f, raw)) => res matches Ok((x, v)) && x@ == f && v@ == raw,
            Err(e) => res matches Err(x) && x@ == e,
        },
{
    let descr_pos = find_footer_descriptor(archive)?;
    let footer = read_local_descriptor(archive, descr_pos)?;
    let raw = read_block_bytes(archive, &footer)?;
    Ok((footer, raw))
}

/// Finish opening: check what decoding the footer block gave against
/// its CRC and read the control-block list from it.
pub fn open_decoded(footer: LocalDescriptor, decoded: Result<Vec<u8>, ArcError>) -> (res: Result<
    ArchiveSummary,
    ArcError,
>)
    ensures
        res_view(res) == open_from(footer@, res_view(decoded)),
{
    let body = decoded?;
    let actual = crc32(body.as_slice());
    if actual != footer.crc {
        let what = "footer";
        return Err(ArcError::CrcMismatch { what, expected: footer.crc, actual });
    }
    let (control_blocks, trailer) = parse_footer(body.as_slice())?;
    Ok(ArchiveSummary { footer, control_blocks, trailer })
}

/// Open an archive held in memory: locate the footer descriptor in the
/// last 4 KiB, decode the footer block (with this library's decoders),
/// check its CRC and read the control-block list from it.
pub fn open(archive: &[u8]) -> (res: Result<ArchiveSummary, ArcError>)
    ensures
        res_view(res) == open_archive(archive@),
{
    proof {
        lemma_open_parts(archive@);
    }
    let (footer, raw) = open_footer(archive)?;
    let body = decompress(footer.compressor.as_str(), raw.as_slice(), footer.origsize);
    open_decoded(footer, body)
}

/// Where a control block starts: `rel_pos` bytes before the footer
/// block, if that is not before the start of the file.
pub open spec fn control_block_pos(footer: LocalDescriptorView, entry: ControlBlockEntryView) -> Option<
    int,
> {
    if entry.rel_pos <= footer.block_pos {
        Some(footer.block_pos - entry.rel_pos)
    } else {
        None
    }
}

/// What reading a control block gives: its bytes, decoded and checked
/// against the entry's CRC.
pub open spec fn control_block(
    archive: Seq<u8>,
    footer: LocalDescriptorView,
    entry: ControlBlockEntryView,
) -> Result<Seq<u8>, ArcErrorView> {
    match control_block_pos(footer, entry) {
        None => Err(ArcErrorView::Truncated),
        Some(abs) => if abs + entry.compsize > archive.len() {
            Err(ArcErrorView::Truncated)
        } else {
            match decode_with(
                entry.compressor,
                archive.subrange(abs, abs + entry.compsize),
                entry.origsize,
                no_host(),
            ) {
                Err(e) => Err(e),
                Ok(data) => if crc32_ieee(data) != entry.crc {
                    Err(
                        ArcErrorView::CrcMismatch {
                            what: "control block"@,
                            expected: entry.crc,
                            actual: crc32_ieee(data),
                        },
                    )
                } else {
                    Ok(data)
                },
            }
        },
    }
}

/// Read, decode and CRC-check the control block `entry` of the footer
/// `footer`.
pub fn read_control_block(archive: &[u8], footer: &LocalDescriptor, entry: &ControlBlockEntry) -> (res:
    Result<Vec<u8>, ArcError>)
    ensures
        res_view(res) == control_block(archive@, footer@, entry@),
{
    if entry.rel_pos > footer.block_pos {
        return Err(ArcError::Truncated);
    }
    let abs = footer.block_pos - entry.rel_pos;
    let len = archive.len() as u64;
    if abs > len || entry.compsize > len - abs {
        return Err(ArcError::Truncated);
    }
    let from = abs as usize;
    let raw = slice_range(archive, from, from + entry.compsize as usize);
    let data = decompress(entry.compressor.as_str(), raw, entry.origsize)?;
    let actual = crc32(data.as_slice());
    if actual != entry.crc {
        let what = "control block";
        return Err(ArcError::CrcMismatch { what, expected: entry.crc, actual });
    }
    Ok(data)
}

/// The stored bytes of a control block, or `Truncated` when they do
/// not lie inside the archive.
pub open spec fn control_block_bytes_of(
    archive: Seq<u8>,
    footer: LocalDescriptorView,
    entry: ControlBlockEntryView,
) -> Result<Seq<u8>, ArcErrorView> {
    match control_block_pos(footer, entry) {
        None => Err(ArcErrorView::Truncated),
        Some(abs) => if abs + entry.compsize > archive.len() {
            Err(ArcErrorView::Truncated)
        } else {
            Ok(archive.subrange(abs, abs + entry.compsize))
        },
    }
}

/// A control block's decoding `decoded`, checked against the entry's
/// CRC.
pub open spec fn checked_block(
    entry: ControlBlockEntryView,
    decoded: Result<Seq<u8>, ArcErrorView>,
) -> Result<Seq<u8>, ArcErrorView> {
    match decoded {
        Err(e) => Err(e),
        Ok(data) => if crc32_ieee(data) != entry.crc {
            Err(
                ArcErrorView::CrcMismatch {
                    what: "control block"@,
                    expected: entry.crc,
                    actual: crc32_ieee(data),
                },
            )
        } else {
            Ok(data)
        },
    }
}

/// The stored (still encoded) bytes of the control block `entry`, for a
/// caller that decodes them itself (with the CLS plugin host, say) and
/// then checks them with [`check_control_block`].
pub fn control_block_bytes(archive: &[u8], footer: &LocalDescriptor, entry: &ControlBlockEntry) -> (res:
    Result<Vec<u8>, ArcError>)
    ensures
        res_view(res) == control_block_bytes_of(archive@, footer@, entry@),
{
    if entry.rel_pos > footer.block_pos {
        return Err(ArcError::Truncated);
    }
    let abs = footer.block_pos - entry.rel_pos;
    let len = archive.len() as u64;
    if abs > len || entry.compsize > len - abs {
        return Err(ArcError::Truncated);
    }
    let from = abs as usize;
    Ok(vstd::slice::slice_to_vec(slice_range(archive, from, from + entry.compsize as usize)))
}

/// Check what decoding the control block `entry` gave against its CRC.
pub fn check_control_block(entry: &ControlBlockEntry, decoded: Result<Vec<u8>, ArcError>) -> (res: Result<
    Vec<u8>,
    ArcError,
>)
    ensures
        res_view(res) == checked_block(entry@, res_view(decoded)),
{
    let data = decoded?;
    let actual = crc32(data.as_slice());
    if actual != entry.crc {
        let what = "control block";
        return Err(ArcError::CrcMismatch { what, expected: entry.crc, actual });
    }
    Ok(data)
}

/// Reading a control block is taking its stored bytes, decoding them
/// with no plugin host, and checking the CRC.
pub proof fn lemma_control_block_parts(
    archive: Seq<u8>,
    footer: LocalDescriptorView,
    entry: ControlBlockEntryView,
)
    ensures
        control_block(archive, footer, entry) == match control_block_bytes_of(archive, footer, entry) {
            Err(e) => Err(e),
            Ok(raw) => checked_block(entry, decode_with(entry.compressor, raw, entry.origsize, no_host())),
        },
{
}

/// The name of a block type byte.
pub fn type_label(b: u8) -> (s: &'static str)
    ensures
        s@ == crate::footer::block_type::block_type_name(b),
{
    crate::footer::block_type::name(b)
}

} // verus!
