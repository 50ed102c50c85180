//! Brute-force scan of an archive for block headers: every `ArC\x01`
//! magic, the type byte after it and the NUL-terminated method string
//! after that, and a histogram of the method strings found.

use vstd::prelude::*;

use crate::bytes::text_of;
use crate::footer::sig_at;

verus! {

/// The block magic `ArC\x01`.
pub const MAGIC: [u8; 4] = [0x41, 0x72, 0x43, 0x01];

/// One block header found in the archive.
#[derive(Debug, Clone)]
pub struct BlockHeader {
    /// Absolute byte offset of the leading `ArC\x01` magic.
    pub offset: u64,
    /// The byte immediately after the magic.
    pub kind: u8,
    /// The NUL-terminated string after the kind byte (at most 256
    /// bytes), decoded as UTF-8 with invalid sequences replaced.
    pub method: String,
}

pub struct BlockHeaderView {
    pub offset: u64,
    pub kind: u8,
    pub method: Seq<char>,
}

impl View for BlockHeader {
    type V = BlockHeaderView;

    open spec fn view(&self) -> BlockHeaderView {
        BlockHeaderView { offset: self.offset, kind: self.kind, method: self.method@ }
    }
}

/// Index of the first zero byte in `s`, or its length.
pub open spec fn nul_or_len(s: Seq<u8>) -> nat
    decreases s.len(),
{
    if s.len() == 0 || s[0] == 0 {
        0
    } else {
        1 + nul_or_len(s.drop_first())
    }
}

/// The method string that starts at `start`: the bytes up to the first
/// NUL within the next 256 bytes (or the end of the buffer), decoded as
/// UTF-8 with invalid sequences replaced (U+FFFD).
pub open spec fn method_text(buf: Seq<u8>, start: int) -> Seq<char> {
    let end = if start + 256 < buf.len() {
        start + 256
    } else {
        buf.len() as int
    };
    let window = buf.subrange(start, end);
    text_of(window.take(nul_or_len(window) as int))
}

/// Every header at or after `i`, in file order. After a header the scan
/// resumes 4 bytes on; a magic needs a kind byte after it to count.
pub open spec fn scan_from(buf: Seq<u8>, i: int) -> Seq<BlockHeaderView>
    decreases buf.len() - i,
{
    if i < 0 || i + 4 >= buf.len() {
        Seq::empty()
    } else if sig_at(buf, i) {
        seq![BlockHeaderView { offset: i as u64, kind: buf[i + 4], method: method_text(buf, i + 5) }]
            + scan_from(buf, i + 4)
    } else {
        scan_from(buf, i + 1)
    }
}

proof fn lemma_nul_or_len(s: Seq<u8>)
    ensures
        nul_or_len(s) <= s.len(),
        nul_or_len(s) < s.len() ==> s[nul_or_len(s) as int] == 0,
        forall|k: int| 0 <= k < nul_or_len(s) ==> s[k] != 0,
    decreases s.len(),
{
    if s.len() > 0 && s[0] != 0 {
        lemma_nul_or_len(s.drop_first());
        assert forall|k: int| 0 <= k < nul_or_len(s) implies s[k] != 0 by {
            if k > 0 {
                assert(s[k] == s.drop_first()[k - 1]);
            }
        }
    }
}

proof fn lemma_nul_or_len_exact(s: Seq<u8>, j: int)
    requires
        0 <= j <= s.len(),
        j < s.len() ==> s[j] == 0,
        forall|k: int| 0 <= k < j ==> s[k] != 0,
    ensures
        nul_or_len(s) == j,
    decreases s.len(),
{
    if j > 0 {
        lemma_nul_or_len_exact(s.drop_first(), j - 1);
    }
}

/// Read the method string that starts at `start` (see [`method_text`]).
fn read_cstring_at(buf: &[u8], start: usize) -> (s: String)
    requires
        start <= buf@.len(),
    ensures
        s@ == method_text(buf@, start as int),
{
    let end = if buf.len() - start > 256 { start + 256 } else { buf.len() };
    let ghost window = buf@.subrange(start as int, end as int);
    let mut nul = start;
    while nul < end && buf[nul] != 0
        invariant
            start <= nul <= end <= buf@.len(),
            forall|k: int| start <= k < nul ==> buf@[k] != 0,
        decreases end - nul,
    {
        nul = nul + 1;
    }
    proof {
        lemma_nul_or_len_exact(window, nul - start);
    }
    let bytes = crate::bytes::slice_range(buf, start, nul);
    assert(bytes@ =~= window.take(nul - start));
    crate::bytes::string_from_utf8_lossy(bytes)
}

/// Scan the whole archive and return every `ArC\x01` block header
/// found, in file order. Brute-force linear scan: FreeArc archives have
/// no index of where the headers live.
pub fn scan_blocks(buf: &[u8]) -> (r: Vec<BlockHeader>)
    ensures
        r@.map_values(|b: BlockHeader| b@) == scan_from(buf@, 0),
{
    let mut out: Vec<BlockHeader> = Vec::new();
    let mut i: usize = 0;
    while i < buf.len() && buf.len() - i > 4
        invariant
            scan_from(buf@, 0) == out@.map_values(|b: BlockHeader| b@) + scan_from(buf@, i as int),
        decreases buf.len() - i,
    {
        if buf[i] == 0x41 && buf[i + 1] == 0x72 && buf[i + 2] == 0x43 && buf[i + 3] == 0x01 {
            let kind = buf[i + 4];
            let method = read_cstring_at(buf, i + 5);
            let ghost before = out@.map_values(|b: BlockHeader| b@);
            out.push(BlockHeader { offset: i as u64, kind, method });
            proof {
                assert(out@.map_values(|b: BlockHeader| b@) =~= before.push(out@.last()@));
                assert(before.push(out@.last()@) + scan_from(buf@, i + 4) =~= before + (seq![
                    out@.last()@,
                ] + scan_from(buf@, i + 4)));
            }
            i = i + 4;
        } else {
            i = i + 1;
        }
    }
    out
}

/// Lexicographic order of character sequences (the order of `String`).
pub open spec fn lex_lt(a: Seq<char>, b: Seq<char>) -> bool
    decreases a.len(),
{
    if a.len() == 0 {
        b.len() > 0
    } else if b.len() == 0 {
        false
    } else if a[0] != b[0] {
        (a[0] as u32) < (b[0] as u32)
    } else {
        lex_lt(a.drop_first(), b.drop_first())
    }
}

/// The order is transitive.
pub proof fn lemma_lex_trans(a: Seq<char>, b: Seq<char>, c: Seq<char>)
    requires
        lex_lt(a, b),
        lex_lt(b, c),
    ensures
        lex_lt(a, c),
    decreases a.len(),
{
    if a.len() > 0 && b.len() > 0 && c.len() > 0 && a[0] == b[0] && b[0] == c[0] {
        lemma_lex_trans(a.drop_first(), b.drop_first(), c.drop_first());
    }
}

/// The order is irreflexive, and of two different sequences exactly one
/// comes first.
pub proof fn lemma_lex_total(a: Seq<char>, b: Seq<char>)
    ensures
        !lex_lt(a, a),
        a != b ==> (lex_lt(a, b) || lex_lt(b, a)),
        !(lex_lt(a, b) && lex_lt(b, a)),
    decreases a.len(),
{
    if a.len() > 0 {
        lemma_lex_total(a.drop_first(), a.drop_first());
    }
    if a.len() > 0 && b.len() > 0 {
        if a[0] != b[0] {
            if (a[0] as u32) == (b[0] as u32) {
                vstd::utf8::char_u32_cast(a[0], a[0] as u32);
                vstd::utf8::char_u32_cast(b[0], b[0] as u32);
            }
        } else {
            lemma_lex_total(a.drop_first(), b.drop_first());
            if a.drop_first() == b.drop_first() {
                assert forall|i: int| 0 <= i < a.len() implies a[i] == b[i] by {
                    if i > 0 {
                        assert(a[i] == a.drop_first()[i - 1]);
                        assert(b[i] == b.drop_first()[i - 1]);
                    }
                }
                assert(a =~= b);
            }
        }
    } else if a.len() == 0 && b.len() == 0 {
        assert(a =~= b);
    }
}

pub(crate) fn lex_less(a: &[char], b: &[char]) -> (r: bool)
    ensures
        r == lex_lt(a@, b@),
{
    let mut i: usize = 0;
    assert(a@.skip(0) =~= a@);
    assert(b@.skip(0) =~= b@);
    while i < a.len() && i < b.len() && a[i] == b[i]
        invariant
            i <= a.len(),
            i <= b.len(),
            lex_lt(a@, b@) == lex_lt(a@.skip(i as int), b@.skip(i as int)),
        decreases a.len() - i,
    {
        proof {
            assert(a@.skip(i as int).drop_first() =~= a@.skip(i + 1));
            assert(b@.skip(i as int).drop_first() =~= b@.skip(i + 1));
        }
        i = i + 1;
    }
    if i == a.len() {
        i < b.len()
    } else if i == b.len() {
        false
    } else {
        (a[i] as u32) < (b[i] as u32)
    }
}

/// How many of `methods` equal `m`.
pub open spec fn count_of(methods: Seq<Seq<char>>, m: Seq<char>) -> nat
    decreases methods.len(),
{
    if methods.len() == 0 {
        0
    } else {
        count_of(methods.drop_last(), m) + if methods.last() == m {
            1nat
        } else {
            0nat
        }
    }
}

/// The method strings of some block headers.
pub open spec fn methods_of(blocks: Seq<BlockHeaderView>) -> Seq<Seq<char>> {
    blocks.map_values(|b: BlockHeaderView| b.method)
}

/// A histogram of `methods`: the distinct non-empty method strings in
/// increasing order, each with how many times it occurs (at least once:
/// only methods that occur are listed).
pub open spec fn is_histogram(h: Seq<(Seq<char>, nat)>, methods: Seq<Seq<char>>) -> bool {
    &&& forall|i: int, j: int| 0 <= i < j < h.len() ==> lex_lt(h[i].0, h[j].0)
    &&& forall|i: int| 0 <= i < h.len() ==> h[i].0.len() > 0 && h[i].1 == count_of(methods, h[i].0)
    &&& forall|i: int| 0 <= i < h.len() ==> #[trigger] h[i].1 >= 1
    &&& forall|k: int|
        0 <= k < methods.len() && methods[k].len() > 0 ==> exists|i: int|
            0 <= i < h.len() && h[i].0 == #[trigger] methods[k]
}

/// The histogram's entries as mathematical values.
pub open spec fn histogram_view(h: Seq<(String, usize)>) -> Seq<(Seq<char>, nat)> {
    h.map_values(|e: (String, usize)| (e.0@, e.1 as nat))
}

proof fn lemma_count_of_step(methods: Seq<Seq<char>>, k: int, m: Seq<char>)
    requires
        0 <= k < methods.len(),
    ensures
        count_of(methods.take(k + 1), m) == count_of(methods.take(k), m) + if methods[k] == m {
            1nat
        } else {
            0nat
        },
{
    assert(methods.take(k + 1).drop_last() =~= methods.take(k));
}

proof fn lemma_count_of_le(methods: Seq<Seq<char>>, m: Seq<char>)
    ensures
        count_of(methods, m) <= methods.len(),
    decreases methods.len(),
{
    if methods.len() > 0 {
        lemma_count_of_le(methods.drop_last(), m);
    }
}

proof fn lemma_count_of_absent(methods: Seq<Seq<char>>, m: Seq<char>)
    requires
        forall|q: int| 0 <= q < methods.len() ==> methods[q] != m,
    ensures
        count_of(methods, m) == 0,
    decreases methods.len(),
{
    if methods.len() > 0 {
        lemma_count_of_absent(methods.drop_last(), m);
    }
}

/// The keys and counts built so far describe the first `k` methods.
pub open spec fn histogram_so_far(
    keys: Seq<Seq<char>>,
    counts: Seq<usize>,
    ms: Seq<Seq<char>>,
    k: int,
) -> bool {
    &&& keys.len() == counts.len()
    &&& forall|i: int, j: int| 0 <= i < j < keys.len() ==> lex_lt(keys[i], keys[j])
    &&& forall|i: int|
        0 <= i < keys.len() ==> keys[i].len() > 0 && counts[i] == count_of(
            ms.take(k),
            #[trigger] keys[i],
        )
    &&& forall|i: int| 0 <= i < counts.len() ==> #[trigger] counts[i] >= 1
    &&& forall|q: int|
        0 <= q < k && ms[q].len() > 0 ==> exists|i: int|
            0 <= i < keys.len() && keys[i] == #[trigger] ms[q]
}

/// The keys of a histogram being built, as character sequences.
pub open spec fn keys_view(keys: Seq<Vec<char>>) -> Seq<Seq<char>> {
    keys.map_values(|v: Vec<char>| v@)
}

/// Group block headers by method string and count them, in increasing
/// order of method; headers without a method string are left out.
pub fn method_histogram(blocks: &[BlockHeader]) -> (h: Vec<(String, usize)>)
    ensures
        is_histogram(histogram_view(h@), methods_of(blocks@.map_values(|b: BlockHeader| b@))),
{
    let ghost ms = methods_of(blocks@.map_values(|b: BlockHeader| b@));
    let mut keys: Vec<Vec<char>> = Vec::new();
    let mut counts: Vec<usize> = Vec::new();
    let mut k: usize = 0;
    while k < blocks.len()
        invariant
            k <= blocks.len(),
            ms == methods_of(blocks@.map_values(|b: BlockHeader| b@)),
            histogram_so_far(keys_view(keys@), counts@, ms, k as int),
        decreases blocks.len() - k,
    {
        let m = crate::bytes::str_chars(blocks[k].method.as_str());
        let ghost kv = keys_view(keys@);
        let ghost cv = counts@;
        assert(m@ == ms[k as int]);
        proof {
            assert forall|mm: Seq<char>| #[trigger] count_of(ms.take(k + 1), mm) == count_of(
                ms.take(k as int),
                mm,
            ) + if ms[k as int] == mm {
                1nat
            } else {
                0nat
            } by {
                lemma_count_of_step(ms, k as int, mm);
            }
            lemma_count_of_le(ms.take(k as int), m@);
            assert forall|i: int, j: int| 0 <= i < j < kv.len() implies kv[i] != kv[j] by {
                lemma_lex_total(kv[i], kv[j]);
            }
        }
        if m.len() > 0 {
            // the first key that is not below m
            let mut p: usize = 0;
            while p < keys.len() && lex_less(keys[p].as_slice(), m.as_slice())
                invariant
                    p <= keys.len(),
                    kv == keys_view(keys@),
                    forall|i: int| 0 <= i < p ==> lex_lt(kv[i], m@),
                decreases keys.len() - p,
            {
                p = p + 1;
            }
            if p < keys.len() && crate::chars::eq_chars(keys[p].as_slice(), m.as_slice()) {
                assert(kv[p as int] == m@);
                assert(cv[p as int] == count_of(ms.take(k as int), kv[p as int]));
                let c = counts[p];
                counts.set(p, c + 1);
                proof {
                    assert(keys_view(keys@) == kv);
                    assert forall|q: int|
                        0 <= q < k + 1 && ms[q].len() > 0 implies exists|i: int|
                            0 <= i < kv.len() && kv[i] == #[trigger] ms[q] by {
                        if q == k {
                            assert(kv[p as int] == ms[q]);
                        }
                    }
                }
            } else {
                proof {
                    assert forall|i: int| 0 <= i < kv.len() implies kv[i] != m@ by {
                        lemma_lex_total(kv[i], m@);
                        if i >= p {
                            lemma_lex_total(kv[p as int], m@);
                            if i > p {
                                if kv[i] == m@ {
                                    lemma_lex_trans(m@, kv[p as int], kv[i]);
                                    lemma_lex_total(m@, m@);
                                }
                            }
                        }
                    }
                    assert forall|q: int| 0 <= q < k implies ms[q] != m@ by {
                        if ms[q] == m@ {
                            let i = choose|i: int| 0 <= i < kv.len() && kv[i] == #[trigger] ms[q];
                        }
                    }
                    lemma_count_of_absent(ms.take(k as int), m@);
                    if p < kv.len() {
                        lemma_lex_total(kv[p as int], m@);
                    }
                }
                let ghost mv = m@;
                keys.insert(p, m);
                counts.insert(p, 1);
                proof {
                    let nk = keys_view(keys@);
                    assert(nk =~= kv.insert(p as int, mv));
                    assert forall|i: int, j: int| 0 <= i < j < nk.len() implies lex_lt(nk[i], nk[j]) by {
                        if i == p && j > p {
                            assert(lex_lt(mv, kv[p as int]));
                            if j - 1 > p {
                                lemma_lex_trans(mv, kv[p as int], kv[j - 1]);
                            }
                        }
                    }
                    assert forall|q: int|
                        0 <= q < k + 1 && ms[q].len() > 0 implies exists|i: int|
                            0 <= i < nk.len() && nk[i] == #[trigger] ms[q] by {
                        if q == k {
                            assert(nk[p as int] == ms[q]);
                        } else {
                            let i = choose|i: int| 0 <= i < kv.len() && kv[i] == #[trigger] ms[q];
                            if i < p {
                                assert(nk[i] == ms[q]);
                            } else {
                                assert(nk[i + 1] == ms[q]);
                            }
                        }
                    }
                }
            }
        } else {
            proof {
                assert forall|q: int|
                    0 <= q < k + 1 && ms[q].len() > 0 implies exists|i: int|
                        0 <= i < kv.len() && kv[i] == #[trigger] ms[q] by {
                }
            }
        }
        k = k + 1;
    }
    assert(ms.take(k as int) =~= ms);
    let mut h: Vec<(String, usize)> = Vec::new();
    let mut i: usize = 0;
    while i < keys.len()
        invariant
            i <= keys.len(),
            keys.len() == counts.len(),
            histogram_view(h@) =~= Seq::new(
                i as nat,
                |j: int| (keys_view(keys@)[j], counts@[j] as nat),
            ),
        decreases keys.len() - i,
    {
        let name = crate::bytes::string_from_chars(keys[i].as_slice());
        let ghost before = histogram_view(h@);
        h.push((name, counts[i]));
        proof {
            assert(histogram_view(h@) =~= before.push((keys_view(keys@)[i as int], counts@[i as int] as nat)));
        }
        i = i + 1;
    }
    proof {
        let hv = histogram_view(h@);
        let kv = keys_view(keys@);
        assert forall|j: int| 0 <= j < hv.len() implies hv[j].0.len() > 0 && hv[j].1 == count_of(ms, hv[j].0) by {
            assert(hv[j].0 == kv[j]);
        }
        assert forall|q: int| 0 <= q < ms.len() && ms[q].len() > 0 implies exists|j: int|
            0 <= j < hv.len() && hv[j].0 == #[trigger] ms[q] by {
            let j = choose|j: int| 0 <= j < kv.len() && kv[j] == #[trigger] ms[q];
            assert(hv[j].0 == kv[j]);
        }
    }
    h
}


/// The method text after a block header is what the bytes say up to the
/// first NUL, when a NUL comes within the 256 bytes from `s`; with no
/// NUL there, it is the whole 256 bytes (or what is left of the buffer,
/// when it ends sooner).
pub proof fn lemma_method_text_window(buf: Seq<u8>, s: int, j: int)
    requires
        0 <= s <= j <= buf.len(),
        forall|k: int| s <= k < j ==> buf[k] != 0,
        j < buf.len() && j < s + 256 && buf[j] == 0 || j == buf.len() && j <= s + 256 || j == s + 256,
    ensures
        method_text(buf, s) == text_of(buf.subrange(s, j)),
{
    let end = if s + 256 < buf.len() {
        s + 256
    } else {
        buf.len() as int
    };
    let window = buf.subrange(s, end);
    assert(j <= end);
    lemma_nul_or_len_exact(window, j - s);
    assert(window.take(j - s) =~= buf.subrange(s, j));
}

} // verus!
