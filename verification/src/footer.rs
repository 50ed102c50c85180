//! Find and parse the FreeArc footer descriptor.
//!
//! The footer block sits at the end of every FreeArc archive. To find
//! it we scan the last 4 KiB of the file backwards for the 4-byte
//! signature `ArC\x01`. The bytes from that position onwards are the
//! FOOTER's local descriptor, which tells us where the actual footer
//! block lives and how it is compressed.
//!
//! The archive is handed in as a byte slice holding the whole file.

use vstd::prelude::*;

use crate::bytes::{cstring_at, read_cstring, read_u32_le, slice_range, u32_at};
use crate::error::{ArcError, ArcErrorView};
use crate::varint::{read_varint, varint_at, le_value};

pub mod block_type;

verus! {

pub const SIGNATURE: [u8; 4] = [0x41, 0x72, 0x43, 0x01];

pub const SIGNATURE_LE: u32 = 0x0143_7241;

pub const MAX_FOOTER_DESCRIPTOR_SIZE: u64 = 4096;

/// The signature `ArC\x01` occupies `buf[i..i + 4]`.
pub open spec fn sig_at(buf: Seq<u8>, i: int) -> bool {
    &&& 0 <= i
    &&& i + 4 <= buf.len()
    &&& buf[i] == 0x41u8
    &&& buf[i + 1] == 0x72u8
    &&& buf[i + 2] == 0x43u8
    &&& buf[i + 3] == 0x01u8
}

/// Where the footer search window (the last 4 KiB) begins.
pub open spec fn footer_window_start(len: nat) -> nat {
    if len <= 4096 {
        0
    } else {
        (len - 4096) as nat
    }
}

/// The last position in `lo..=i` where the signature starts.
pub open spec fn last_sig(buf: Seq<u8>, lo: int, i: int) -> Option<int>
    decreases i - lo + 1,
{
    if i < lo {
        None
    } else if sig_at(buf, i) {
        Some(i)
    } else {
        last_sig(buf, lo, i - 1)
    }
}

/// Where the footer descriptor starts: the last signature in the last
/// 4 KiB of the archive.
pub open spec fn footer_descriptor_pos(archive: Seq<u8>) -> Option<int> {
    last_sig(archive, footer_window_start(archive.len()) as int, archive.len() - 4)
}

pub(crate) proof fn lemma_last_sig(buf: Seq<u8>, lo: int, i: int)
    requires
        forall|q: int| i < q ==> !sig_at(buf, q),
    ensures
        last_sig(buf, lo, i) matches Some(p) ==> lo <= p <= i && sig_at(buf, p) && forall|q: int|
            p < q ==> !sig_at(buf, q),
        last_sig(buf, lo, i) is None ==> forall|q: int| lo <= q ==> !sig_at(buf, q),
    decreases i - lo + 1,
{
    if i >= lo && !sig_at(buf, i) {
        lemma_last_sig(buf, lo, i - 1);
    }
}

/// One control block's local descriptor.
///
/// Found at the END of each control block. The block's compressed bytes
/// start `compsize` bytes BEFORE the descriptor offset.
#[derive(Debug, Clone)]
pub struct LocalDescriptor {
    /// Absolute file offset of the `ArC\x01` signature at the start
    /// of this descriptor.
    pub descriptor_pos: u64,
    pub block_type: u8,
    pub compressor: String,
    pub origsize: u64,
    pub compsize: u64,
    pub crc: u32,
    /// Absolute file offset where the block's compressed bytes start.
    /// Equal to `descriptor_pos - compsize`.
    pub block_pos: u64,
}

pub struct LocalDescriptorView {
    pub descriptor_pos: u64,
    pub block_type: u8,
    pub compressor: Seq<char>,
    pub origsize: u64,
    pub compsize: u64,
    pub crc: u32,
    pub block_pos: u64,
}

impl View for LocalDescriptor {
    type V = LocalDescriptorView;

    open spec fn view(&self) -> LocalDescriptorView {
        LocalDescriptorView {
            descriptor_pos: self.descriptor_pos,
            block_type: self.block_type,
            compressor: self.compressor@,
            origsize: self.origsize,
            compsize: self.compsize,
            crc: self.crc,
            block_pos: self.block_pos,
        }
    }
}

/// The window a descriptor is parsed from: up to 4 KiB from `pos` on.
pub open spec fn descriptor_window(archive: Seq<u8>, pos: int) -> Seq<u8> {
    if archive.len() - pos <= 4096 {
        archive.subrange(pos, archive.len() as int)
    } else {
        archive.subrange(pos, pos + 4096)
    }
}

/// A local descriptor as laid out in `w` (which starts at the
/// signature), for a descriptor that sits at file offset `pos`:
/// signature (u32 LE), block type (varint, low byte kept), compressor
/// (NUL-terminated), origsize and compsize (varints), CRC (u32 LE).
pub open spec fn parse_descriptor(w: Seq<u8>, pos: u64) -> Result<LocalDescriptorView, ArcErrorView> {
    match u32_at(w, 0) {
        None => Err(ArcErrorView::Truncated),
        Some((sign, p1)) => if sign != SIGNATURE_LE {
            Err(ArcErrorView::NoFooterSignature)
        } else {
            match varint_at(w, p1) {
                None => Err(ArcErrorView::Truncated),
                Some((bt, n1)) => match cstring_at(w, p1 + n1) {
                    None => Err(ArcErrorView::Truncated),
                    Some((comp, p3)) => match varint_at(w, p3) {
                        None => Err(ArcErrorView::Truncated),
                        Some((origsize, n3)) => match varint_at(w, p3 + n3) {
                            None => Err(ArcErrorView::Truncated),
                            Some((compsize, n4)) => match u32_at(w, p3 + n3 + n4) {
                                None => Err(ArcErrorView::Truncated),
                                Some((crc, _)) => if compsize > pos {
                                    Err(ArcErrorView::Truncated)
                                } else {
                                    Ok(
                                        LocalDescriptorView {
                                            descriptor_pos: pos,
                                            block_type: bt as u8,
                                            compressor: comp,
                                            origsize,
                                            compsize,
                                            crc,
                                            block_pos: (pos - compsize) as u64,
                                        },
                                    )
                                },
                            },
                        },
                    },
                },
            }
        },
    }
}

/// Result of a fallible step, seen through the views of its parts.
pub open spec fn res_view<T: View>(r: Result<T, ArcError>) -> Result<T::V, ArcErrorView> {
    match r {
        Ok(t) => Ok(t@),
        Err(e) => Err(e@),
    }
}

/// Scan the last `MAX_FOOTER_DESCRIPTOR_SIZE` bytes for the FreeArc
/// signature and return the absolute file offset of the LAST one
/// found (the footer descriptor sits at the end).
pub fn find_footer_descriptor(archive: &[u8]) -> (res: Result<u64, ArcError>)
    ensures
        res matches Ok(p) ==> (footer_window_start(archive@.len()) <= p && sig_at(archive@, p as int)
            && forall|q: int| p < q ==> !sig_at(archive@, q)),
        res is Err ==> (res matches Err(ArcError::NoFooterSignature) && forall|q: int|
            footer_window_start(archive@.len()) <= q ==> !sig_at(archive@, q)),
        res matches Ok(p) ==> footer_descriptor_pos(archive@) == Some(p as int),
        res is Err ==> footer_descriptor_pos(archive@) is None,
{
    proof {
        lemma_last_sig(archive@, footer_window_start(archive@.len()) as int, archive@.len() - 4);
    }
    let total = archive.len();
    let win = if total < 4096 { total } else { 4096 };
    let start = total - win;
    if win < 4 {
        return Err(ArcError::NoFooterSignature);
    }
    let mut i = win - 4 + 1;
    while i > 0
        invariant
            start + win == total == archive@.len(),
            win >= 4,
            start == footer_window_start(total as nat),
            i <= win - 3,
            forall|q: int| start + i <= q ==> !sig_at(archive@, q),
        decreases i,
    {
        i = i - 1;
        let k = start + i;
        if archive[k] == 0x41 && archive[k + 1] == 0x72 && archive[k + 2] == 0x43 && archive[k + 3]
            == 0x01 {
            assert(sig_at(archive@, k as int));
            proof {
                lemma_last_sig(archive@, footer_window_start(archive@.len()) as int, archive@.len() - 4);
                match footer_descriptor_pos(archive@) {
                    Some(p) => {
                        if p > k {
                            assert(!sig_at(archive@, p));
                        }
                    },
                    None => {},
                }
            }
            return Ok(k as u64);
        }
    }
    Err(ArcError::NoFooterSignature)
}

/// Parse a local descriptor starting at the given file offset. Reads
/// up to `MAX_FOOTER_DESCRIPTOR_SIZE` bytes from `descr_pos` forward.
pub fn read_local_descriptor(archive: &[u8], descr_pos: u64) -> (res: Result<LocalDescriptor, ArcError>)
    requires
        descr_pos <= archive@.len(),
    ensures
        res_view(res) == parse_descriptor(descriptor_window(archive@, descr_pos as int), descr_pos),
{
    let start = descr_pos as usize;
    let avail = archive.len() - start;
    let want = if avail < 4096 { avail } else { 4096 };
    let buf = slice_range(archive, start, start + want);
    assert(buf@ == descriptor_window(archive@, descr_pos as int));
    let ghost w = buf@;
    let mut p: usize = 0;
    let sign = read_u32_le(buf, &mut p)?;
    if sign != SIGNATURE_LE {
        return Err(ArcError::NoFooterSignature);
    }
    let block_type_u = read_varint(buf, &mut p)?;
    let block_type = block_type_u as u8;
    let compressor = read_cstring(buf, &mut p)?;
    let origsize = read_varint(buf, &mut p)?;
    let compsize = read_varint(buf, &mut p)?;
    let crc = read_u32_le(buf, &mut p)?;
    if compsize > descr_pos {
        return Err(ArcError::Truncated);
    }
    Ok(
        LocalDescriptor {
            descriptor_pos: descr_pos,
            block_type,
            compressor,
            origsize,
            compsize,
            crc,
            block_pos: descr_pos - compsize,
        },
    )
}

/// The raw compressed bytes of the block this descriptor points at:
/// `compsize` bytes from `block_pos`, or `Truncated` when the archive
/// ends before them.
pub fn read_block_bytes(archive: &[u8], desc: &LocalDescriptor) -> (res: Result<Vec<u8>, ArcError>)
    ensures
        desc.block_pos + desc.compsize <= archive@.len() ==> (res matches Ok(v) && v@
            == archive@.subrange(desc.block_pos as int, desc.block_pos + desc.compsize)),
        desc.block_pos + desc.compsize > archive@.len() ==> (res matches Err(ArcError::Truncated)),
{
    let len = archive.len() as u64;
    if desc.block_pos > len || desc.compsize > len - desc.block_pos {
        return Err(ArcError::Truncated);
    }
    let from = desc.block_pos as usize;
    let to = from + desc.compsize as usize;
    Ok(vstd::slice::slice_to_vec(slice_range(archive, from, to)))
}

} // verus!
