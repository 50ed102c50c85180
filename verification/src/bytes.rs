//! Byte-level readers shared by the control-block parsers, and the few
//! string conversions they need.

use vstd::prelude::*;
use vstd::string::StrSliceExecFns;
use vstd::utf8::{valid_utf8, decode_utf8};

use crate::error::ArcError;
use crate::varint::le_value;

verus! {

/// What `String::from_utf8_lossy` makes of a byte sequence that is not
/// valid UTF-8 (each invalid sequence becomes U+FFFD).
pub uninterp spec fn utf8_lossy(bytes: Seq<u8>) -> Seq<char>;

/// `s` holds no NUL character.
pub open spec fn nul_free(s: Seq<char>) -> bool {
    forall|i: int| 0 <= i < s.len() ==> s[i] != '\0'
}

/// The text of a byte sequence decoded tolerantly: valid UTF-8 is
/// decoded, anything else is what [`utf8_lossy`] names.
pub open spec fn text_of(bytes: Seq<u8>) -> Seq<char> {
    if valid_utf8(bytes) {
        decode_utf8(bytes)
    } else {
        utf8_lossy(bytes)
    }
}

/// `String::from_utf8_lossy(bytes).into_owned()`. Trusted to decode valid
/// UTF-8 exactly and to give `utf8_lossy(bytes)` otherwise.
/// A NUL byte decodes to the only NUL character, and a replacement is
/// U+FFFD, so bytes without NUL give a text without NUL.
#[verifier::external_body]
pub(crate) fn string_from_utf8_lossy(bytes: &[u8]) -> (s: String)
    ensures
        valid_utf8(bytes@) ==> s@ == decode_utf8(bytes@),
        !valid_utf8(bytes@) ==> s@ == utf8_lossy(bytes@),
        (forall|i: int| 0 <= i < bytes@.len() ==> bytes@[i] != 0) ==> nul_free(s@),
{
    String::from_utf8_lossy(bytes).into_owned()
}

/// `String::from_utf8`: the text the bytes encode, or `None` when they
/// are not valid UTF-8.
#[verifier::external_body]
pub(crate) fn string_from_utf8(bytes: &[u8]) -> (r: Option<String>)
    ensures
        r is Some <==> valid_utf8(bytes@),
        r matches Some(s) ==> s@ == decode_utf8(bytes@),
{
    String::from_utf8(bytes.to_vec()).ok()
}

/// `String::push`: trusted to append one character.
#[verifier::external_body]
pub(crate) fn string_push(s: &mut String, c: char)
    ensures
        final(s)@ == old(s)@.push(c),
{
    s.push(c)
}

/// The characters of `s`, in order.
pub fn str_chars(s: &str) -> (v: Vec<char>)
    ensures
        v@ == s@,
{
    let n = s.unicode_len();
    let mut v: Vec<char> = Vec::new();
    let mut i: usize = 0;
    while i < n
        invariant
            n == s@.len(),
            i <= n,
            v@ == s@.subrange(0, i as int),
        decreases n - i,
    {
        let c = s.get_char(i);
        v.push(c);
        i = i + 1;
        assert(v@ =~= s@.subrange(0, i as int));
    }
    assert(v@ =~= s@);
    v
}

/// A `String` holding exactly `cs`.
pub fn string_from_chars(cs: &[char]) -> (s: String)
    ensures
        s@ == cs@,
{
    let mut s = String::new();
    let mut i: usize = 0;
    while i < cs.len()
        invariant
            i <= cs.len(),
            s@ == cs@.subrange(0, i as int),
        decreases cs.len() - i,
    {
        string_push(&mut s, cs[i]);
        i = i + 1;
        assert(s@ =~= cs@.subrange(0, i as int));
    }
    assert(s@ =~= cs@);
    s
}

/// Index of the first NUL byte at or after `i`, if any.
pub open spec fn nul_from(buf: Seq<u8>, i: int) -> Option<int>
    decreases buf.len() - i,
{
    if i < 0 || i >= buf.len() {
        None
    } else if buf[i] == 0 {
        Some(i)
    } else {
        nul_from(buf, i + 1)
    }
}

pub proof fn lemma_nul_from_range(buf: Seq<u8>, i: int)
    ensures
        nul_from(buf, i) matches Some(j) ==> i <= j < buf.len() && buf[j] == 0 && forall|k: int|
            i <= k < j ==> buf[k] != 0,
        nul_from(buf, i) is None && 0 <= i ==> forall|k: int| i <= k < buf.len() ==> buf[k] != 0,
    decreases buf.len() - i,
{
    if 0 <= i < buf.len() && buf[i] != 0 {
        lemma_nul_from_range(buf, i + 1);
    }
}

/// The NUL-terminated string that starts at `pos`, decoded tolerantly,
/// with the position just past its NUL.
pub open spec fn cstring_at(buf: Seq<u8>, pos: int) -> Option<(Seq<char>, int)> {
    match nul_from(buf, pos) {
        Some(j) => Some((text_of(buf.subrange(pos, j)), j + 1)),
        None => None,
    }
}

/// The little-endian u32 that starts at `pos`, with the position after it.
pub open spec fn u32_at(buf: Seq<u8>, pos: int) -> Option<(u32, int)> {
    if 0 <= pos && pos + 4 <= buf.len() {
        Some((le_value(buf.subrange(pos, pos + 4)) as u32, pos + 4))
    } else {
        None
    }
}

/// Read a NUL-terminated string starting at `buf[*pos..]`, decoding
/// the bytes before the NUL tolerantly (invalid UTF-8 becomes U+FFFD)
/// and leaving `*pos` just past the NUL. With no NUL before the end of
/// the buffer the result is `Truncated` and `*pos` stops at the end.
pub fn read_cstring(buf: &[u8], pos: &mut usize) -> (res: Result<String, ArcError>)
    ensures
        match nul_from(buf@, *old(pos) as int) {
            Some(j) => res matches Ok(s) && s@ == text_of(buf@.subrange(*old(pos) as int, j))
                && *final(pos) == j + 1 && nul_free(s@),
            None => res matches Err(ArcError::Truncated) && *final(pos) == (if *old(pos)
                < buf.len() {
                buf.len()
            } else {
                *old(pos)
            }),
        },
{
    let start = *pos;
    let mut p = start;
    while p < buf.len() && buf[p] != 0
        invariant
            start <= p,
            p <= buf.len() || p == start,
            nul_from(buf@, start as int) == nul_from(buf@, p as int),
            forall|k: int| start <= k < p ==> buf@[k] != 0,
        decreases buf.len() - p,
    {
        p = p + 1;
    }
    if p >= buf.len() {
        *pos = p;
        return Err(ArcError::Truncated);
    }
    let s = string_from_utf8_lossy(slice_range(buf, start, p));
    *pos = p + 1;
    Ok(s)
}

/// `buf[from..to]`.
pub fn slice_range(buf: &[u8], from: usize, to: usize) -> (r: &[u8])
    requires
        from <= to <= buf@.len(),
    ensures
        r@ == buf@.subrange(from as int, to as int),
{
    let (head, _) = buf.split_at(to);
    let (_, mid) = head.split_at(from);
    assert(mid@ =~= buf@.subrange(from as int, to as int));
    mid
}

/// Read a little-endian u32 from `buf[*pos..]` and advance `*pos` by 4;
/// `Truncated` (with `*pos` unchanged) when fewer than 4 bytes remain.
pub fn read_u32_le(buf: &[u8], pos: &mut usize) -> (res: Result<u32, ArcError>)
    ensures
        *old(pos) + 4 <= buf@.len() ==> (res matches Ok(v) && v as nat == le_value(
            buf@.subrange(*old(pos) as int, *old(pos) + 4),
        ) && *final(pos) == *old(pos) + 4),
        *old(pos) + 4 > buf@.len() ==> (res matches Err(ArcError::Truncated) && *final(pos)
            == *old(pos)),
{
    let p = *pos;
    if p > buf.len() || buf.len() - p < 4 {
        return Err(ArcError::Truncated);
    }
    let b0 = buf[p] as u32;
    let b1 = buf[p + 1] as u32;
    let b2 = buf[p + 2] as u32;
    let b3 = buf[p + 3] as u32;
    let ghost s = buf@.subrange(p as int, p + 4);
    proof {
        reveal_with_fuel(le_value, 5);
        assert(s.drop_first() =~= seq![buf@[p + 1], buf@[p + 2], buf@[p + 3]]);
        assert(s.drop_first().drop_first() =~= seq![buf@[p + 2], buf@[p + 3]]);
        assert(s.drop_first().drop_first().drop_first() =~= seq![buf@[p + 3]]);
        assert(s.drop_first().drop_first().drop_first().drop_first() =~= Seq::<u8>::empty());
    }
    *pos = p + 4;
    Ok(b0 + 256 * (b1 + 256 * (b2 + 256 * b3)))
}

} // verus!
