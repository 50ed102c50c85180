//! What the archive tools print, computed: which solid block each file
//! entry belongs to, how many blocks of each kind a scan found, the
//! names of block kinds, hexadecimal dump lines, and the order in which
//! files are stored.

use vstd::prelude::*;

use crate::dir::{count_sum, DirBlock, SolidBlockView};
use crate::error::{char_from, hex_digit};
use crate::footer::block_type;
use crate::scan::{lex_lt, BlockHeader, BlockHeaderView};
use crate::writer::{InputFile, InputFileView};

verus! {

// ----- solid block of each file entry -----

/// The first solid block, from `s` on, whose files reach past entry
/// `k` (the blocks' counts taken cumulatively), or the number of
/// blocks when none does.
pub open spec fn first_over(counts: Seq<u64>, k: int, s: int) -> int
    decreases counts.len() - s,
{
    if s < 0 || s >= counts.len() {
        counts.len() as int
    } else if count_sum(counts.subrange(0, s + 1)) > k {
        s
    } else {
        first_over(counts, k, s + 1)
    }
}

/// The solid block holding file entry `k` of a directory whose solid
/// blocks hold `counts` files each (the number of blocks for an entry
/// past them all).
pub open spec fn solid_of(counts: Seq<u64>, k: int) -> int {
    first_over(counts, k, 0)
}

proof fn lemma_first_over_from(counts: Seq<u64>, k: int, idx: int)
    requires
        0 <= idx <= counts.len(),
        forall|s: int| 0 <= s < idx ==> count_sum(#[trigger] counts.subrange(0, s + 1)) <= k,
    ensures
        solid_of(counts, k) == first_over(counts, k, idx),
    decreases idx,
{
    if idx > 0 {
        lemma_first_over_from(counts, k, idx - 1);
    }
}

/// For each file entry of `d`, the solid block holding it.
pub fn solid_indices(d: &DirBlock) -> (r: Vec<usize>)
    ensures
        r@.len() == d@.files.len(),
        forall|k: int|
            0 <= k < r@.len() ==> #[trigger] r@[k] as int == solid_of(
                d@.solid_blocks.map_values(|b: SolidBlockView| b.n_files),
                k,
            ),
{
    let ghost counts = d@.solid_blocks.map_values(|b: SolidBlockView| b.n_files);
    let nb = d.solid_blocks.len();
    let mut r: Vec<usize> = Vec::new();
    let mut idx: usize = 0;
    let mut c: u64 = 0;
    let mut k: usize = 0;
    while k < d.files.len()
        invariant
            counts == d@.solid_blocks.map_values(|b: SolidBlockView| b.n_files),
            nb == counts.len(),
            k <= d.files@.len(),
            r@.len() == k,
            idx <= nb,
            c as int == k - count_sum(counts.subrange(0, idx as int)),
            idx < nb ==> c <= counts[idx as int],
            forall|s: int| 0 <= s < idx ==> count_sum(#[trigger] counts.subrange(0, s + 1)) <= k,
            forall|j: int| 0 <= j < k ==> #[trigger] r@[j] as int == solid_of(counts, j),
        decreases d.files.len() - k,
    {
        while idx < nb && c >= d.solid_blocks[idx].n_files
            invariant
                counts == d@.solid_blocks.map_values(|b: SolidBlockView| b.n_files),
                nb == counts.len(),
                idx <= nb,
                c as int == k - count_sum(counts.subrange(0, idx as int)),
                idx < nb ==> c <= counts[idx as int],
                forall|s: int| 0 <= s < idx ==> count_sum(#[trigger] counts.subrange(0, s + 1)) <= k,
            decreases nb - idx,
        {
            proof {
                assert(counts.subrange(0, idx + 1).drop_last() =~= counts.subrange(0, idx as int));
                assert(counts[idx as int] == d.solid_blocks@[idx as int]@.n_files);
            }
            idx = idx + 1;
            c = 0;
            proof {
                if idx < nb {
                    assert(counts[idx as int] >= 0);
                }
            }
        }
        proof {
            lemma_first_over_from(counts, k as int, idx as int);
            if idx < nb {
                assert(counts.subrange(0, idx + 1).drop_last() =~= counts.subrange(0, idx as int));
                assert(counts[idx as int] == d.solid_blocks@[idx as int]@.n_files);
                assert(count_sum(counts.subrange(0, idx + 1)) > k);
            }
        }
        r.push(idx);
        c = c + 1;
        k = k + 1;
        proof {
            if idx < nb {
                assert(c <= counts[idx as int]);
            }
        }
    }
    r
}

// ----- block kinds -----

/// The block kind named `s` (any case): header, data, dir or footer.
pub open spec fn kind_named(s: Seq<char>) -> Option<u8> {
    if s == "header"@ {
        Some(block_type::HEADER)
    } else if s == "data"@ {
        Some(block_type::DATA)
    } else if s == "dir"@ {
        Some(block_type::DIR)
    } else if s == "footer"@ {
        Some(block_type::FOOTER)
    } else {
        None
    }
}

/// The block kind a name selects, ignoring ASCII case.
pub fn kind_to_byte(s: &str) -> (r: Option<u8>)
    ensures
        r == kind_named(crate::chars::ascii_lowercase(s@)),
{
    let cs = crate::bytes::str_chars(s);
    let l = crate::chars::to_ascii_lowercase_chars(cs.as_slice());
    let l = l.as_slice();
    if crate::chars::eq_str(l, "header") {
        Some(block_type::HEADER)
    } else if crate::chars::eq_str(l, "data") {
        Some(block_type::DATA)
    } else if crate::chars::eq_str(l, "dir") {
        Some(block_type::DIR)
    } else if crate::chars::eq_str(l, "footer") {
        Some(block_type::FOOTER)
    } else {
        None
    }
}

/// What a raw block kind byte found by a scan means.
pub open spec fn scan_kind_label(kind: u8) -> Seq<char> {
    if kind == 0x00 {
        "archive header"@
    } else if kind == 0x02 {
        "method declaration"@
    } else if kind == 0x06 {
        "compressed data"@
    } else if kind == 0x07 {
        "solid block"@
    } else if kind == 0x08 {
        "alt compressed data"@
    } else {
        "(unknown)"@
    }
}

/// The label of a raw block kind byte found by a scan.
pub fn kind_label(kind: u8) -> (r: &'static str)
    ensures
        r@ == scan_kind_label(kind),
{
    if kind == 0x00 {
        "archive header"
    } else if kind == 0x02 {
        "method declaration"
    } else if kind == 0x06 {
        "compressed data"
    } else if kind == 0x07 {
        "solid block"
    } else if kind == 0x08 {
        "alt compressed data"
    } else {
        "(unknown)"
    }
}

/// How many of `kinds` are `k`.
pub open spec fn kind_count(kinds: Seq<u8>, k: int) -> nat
    decreases kinds.len(),
{
    if kinds.len() == 0 {
        0
    } else {
        kind_count(kinds.drop_last(), k) + if kinds.last() == k {
            1nat
        } else {
            0nat
        }
    }
}

/// The kinds from `k` up to 255 that occur in `kinds`, in increasing
/// order, each with its count.
pub open spec fn kinds_from(kinds: Seq<u8>, k: int) -> Seq<(u8, nat)>
    decreases 256 - k,
{
    if k < 0 || k >= 256 {
        Seq::empty()
    } else if kind_count(kinds, k) > 0 {
        seq![(k as u8, kind_count(kinds, k))] + kinds_from(kinds, k + 1)
    } else {
        kinds_from(kinds, k + 1)
    }
}

proof fn lemma_kind_count_le(kinds: Seq<u8>, k: int)
    ensures
        kind_count(kinds, k) <= kinds.len(),
    decreases kinds.len(),
{
    if kinds.len() > 0 {
        lemma_kind_count_le(kinds.drop_last(), k);
    }
}

/// Each block kind found, in increasing order, with how many blocks
/// have it.
pub fn kind_histogram(blocks: &[BlockHeader]) -> (r: Vec<(u8, usize)>)
    ensures
        r@.map_values(|p: (u8, usize)| (p.0, p.1 as nat)) == kinds_from(
            blocks@.map_values(|b: BlockHeader| b.kind),
            0,
        ),
{
    let ghost kinds = blocks@.map_values(|b: BlockHeader| b.kind);
    let mut counts: Vec<usize> = Vec::new();
    let mut k: usize = 0;
    while k < 256
        invariant
            k <= 256,
            counts@.len() == k,
            forall|j: int| 0 <= j < k ==> counts@[j] == 0,
        decreases 256 - k,
    {
        counts.push(0);
        k = k + 1;
    }
    let mut i: usize = 0;
    while i < blocks.len()
        invariant
            i <= blocks.len(),
            kinds == blocks@.map_values(|b: BlockHeader| b.kind),
            counts@.len() == 256,
            forall|j: int| 0 <= j < 256 ==> #[trigger] counts@[j] == kind_count(kinds.subrange(0, i as int), j),
        decreases blocks.len() - i,
    {
        let kd = blocks[i].kind as usize;
        proof {
            let pre = kinds.subrange(0, i + 1);
            assert(pre.drop_last() =~= kinds.subrange(0, i as int));
            assert(pre.last() == blocks@[i as int].kind);
            lemma_kind_count_le(kinds.subrange(0, i as int), kd as int);
            assert forall|j: int| 0 <= j < 256 implies kind_count(pre, j) == kind_count(
                kinds.subrange(0, i as int),
                j,
            ) + if j == kd {
                1nat
            } else {
                0nat
            } by {}
        }
        let v = counts[kd];
        counts.set(kd, v + 1);
        i = i + 1;
    }
    assert(kinds.subrange(0, i as int) =~= kinds);
    let mut r: Vec<(u8, usize)> = Vec::new();
    let mut k: usize = 256;
    let ghost mut tail: Seq<(u8, nat)> = Seq::empty();
    assert(kinds_from(kinds, 256) == Seq::<(u8, nat)>::empty());
    let mut out: Vec<(u8, usize)> = Vec::new();
    while k > 0
        invariant
            k <= 256,
            counts@.len() == 256,
            forall|j: int| 0 <= j < 256 ==> #[trigger] counts@[j] == kind_count(kinds, j),
            out@.map_values(|p: (u8, usize)| (p.0, p.1 as nat)) == kinds_from(kinds, k as int),
        decreases k,
    {
        let j = k - 1;
        let n = counts[j];
        let ghost before = out@.map_values(|p: (u8, usize)| (p.0, p.1 as nat));
        if n > 0 {
            out.insert(0, (j as u8, n));
            assert(out@.map_values(|p: (u8, usize)| (p.0, p.1 as nat)) =~= seq![(j as u8, n as nat)] + before);
        }
        k = j;
    }
    out
}

// ----- hexadecimal dump -----

/// `v` in lower-case hexadecimal, zero-padded to at least `w` digits
/// (as `{:0w$x}`).
pub open spec fn hex_min(v: nat, w: nat) -> Seq<char>
    decreases v, w,
{
    if v < 16 && w <= 1 {
        seq![hex_digit(v)]
    } else {
        hex_min(v / 16, if w > 0 { (w - 1) as nat } else { 0 }).push(hex_digit(v % 16))
    }
}

fn push_hex_min(v: u64, w: usize, out: &mut Vec<char>)
    ensures
        final(out)@ == old(out)@ + hex_min(v as nat, w as nat),
    decreases v, w,
{
    if !(v < 16 && w <= 1) {
        let w2: usize = if w > 0 { w - 1 } else { 0 };
        push_hex_min(v / 16, w2, out);
    }
    let d = (v % 16) as u32;
    let c = if d < 10 {
        char_from(0x30 + d)
    } else {
        char_from(0x61 + (d - 10))
    };
    out.push(c);
    proof {
        if v < 16 && w <= 1 {
            assert(out@ =~= old(out)@ + seq![hex_digit(v as nat)]);
        } else {
            assert(out@ =~= old(out)@ + hex_min((v / 16) as nat, if w > 0 { (w - 1) as nat } else { 0 }).push(
                hex_digit((v % 16) as nat),
            ));
        }
    }
}

/// The two hexadecimal digits of a byte.
pub open spec fn byte_hex(b: u8) -> Seq<char> {
    seq![hex_digit((b / 16) as nat), hex_digit((b % 16) as nat)]
}

/// The bytes in hexadecimal, separated by single spaces.
pub open spec fn bytes_hex(bs: Seq<u8>) -> Seq<char>
    decreases bs.len(),
{
    if bs.len() == 0 {
        Seq::empty()
    } else if bs.len() == 1 {
        byte_hex(bs[0])
    } else {
        bytes_hex(bs.drop_last()) + seq![' '] + byte_hex(bs.last())
    }
}

/// A byte as shown beside the hexadecimal: printable ASCII as itself,
/// anything else as a dot.
pub open spec fn shown_char(b: u8) -> char {
    if 32 <= b < 127 {
        b as char
    } else {
        '.'
    }
}

/// `s` padded with spaces on the right to at least `w` characters.
pub open spec fn pad_right(s: Seq<char>, w: nat) -> Seq<char> {
    if s.len() >= w {
        s
    } else {
        s + Seq::new((w - s.len()) as nat, |i: int| ' ')
    }
}

/// The dump line of the 16-byte chunk number `index`: its offset in
/// hexadecimal (at least 8 digits), the bytes in hexadecimal padded to
/// 48 characters, and the bytes as text.
pub open spec fn dump_line_of(index: nat, chunk: Seq<u8>) -> Seq<char> {
    hex_min(index * 16, 8) + "  "@ + pad_right(bytes_hex(chunk), 48) + "  "@ + chunk.map_values(
        |b: u8| shown_char(b),
    )
}

fn push_byte_hex(b: u8, out: &mut Vec<char>)
    ensures
        final(out)@ == old(out)@ + byte_hex(b),
{
    let hi = (b / 16) as u32;
    let lo = (b % 16) as u32;
    let c1 = if hi < 10 { char_from(0x30 + hi) } else { char_from(0x61 + (hi - 10)) };
    let c2 = if lo < 10 { char_from(0x30 + lo) } else { char_from(0x61 + (lo - 10)) };
    out.push(c1);
    out.push(c2);
    assert(out@ =~= old(out)@ + byte_hex(b));
}

/// The dump line of the chunk number `index` (at most 16 bytes).
pub fn dump_line(index: u64, chunk: &[u8]) -> (r: String)
    requires
        index * 16 <= u64::MAX,
    ensures
        r@ == dump_line_of(index as nat, chunk@),
{
    let mut out: Vec<char> = Vec::new();
    push_hex_min(index * 16, 8, &mut out);
    out.push(' ');
    out.push(' ');
    let ghost head = out@;
    proof {
        reveal_strlit("  ");
        assert(head =~= hex_min((index * 16) as nat, 8) + "  "@);
    }
    let start = out.len();
    let mut i: usize = 0;
    while i < chunk.len()
        invariant
            i <= chunk.len(),
            start == head.len(),
            out@ == head + bytes_hex(chunk@.subrange(0, i as int)),
        decreases chunk.len() - i,
    {
        let ghost sub = chunk@.subrange(0, i + 1);
        assert(sub.drop_last() =~= chunk@.subrange(0, i as int));
        if i > 0 {
            out.push(' ');
        }
        push_byte_hex(chunk[i], &mut out);
        proof {
            if i == 0 {
                assert(bytes_hex(chunk@.subrange(0, 0)) =~= Seq::<char>::empty());
                assert(out@ =~= head + bytes_hex(sub));
            } else {
                assert(out@ =~= head + bytes_hex(chunk@.subrange(0, i as int)) + seq![' '] + byte_hex(
                    chunk@[i as int],
                ));
            }
        }
        i = i + 1;
    }
    assert(chunk@.subrange(0, i as int) =~= chunk@);
    let ghost hx = bytes_hex(chunk@);
    let mut n: usize = out.len() - start;
    let ghost mid = out@;
    assert(out@.subrange(head.len() as int, out@.len() as int) =~= hx);
    assert(out@.subrange(0, head.len() as int) =~= head);
    while n < 48
        invariant
            start == head.len(),
            out@.len() >= head.len(),
            n == out@.len() - head.len(),
            out@.subrange(0, head.len() as int) == head,
            out@.subrange(head.len() as int, out@.len() as int) == if hx.len() >= n {
                hx
            } else {
                hx + Seq::new((n - hx.len()) as nat, |j: int| ' ')
            },
            hx.len() <= n,
            hx.len() >= 48 ==> n == hx.len(),
            hx.len() < 48 ==> n <= 48,
        decreases 48 - n,
    {
        let ghost before = out@;
        out.push(' ');
        proof {
            assert(out@.subrange(0, head.len() as int) =~= head);
            let t = out@.subrange(head.len() as int, out@.len() as int);
            assert(t =~= before.subrange(head.len() as int, before.len() as int).push(' '));
            assert(hx + Seq::new((n + 1 - hx.len()) as nat, |j: int| ' ') =~= (if hx.len() >= n {
                hx
            } else {
                hx + Seq::new((n - hx.len()) as nat, |j: int| ' ')
            }).push(' '));
        }
        n = n + 1;
    }
    proof {
        assert(out@ =~= head + out@.subrange(head.len() as int, out@.len() as int));
        assert(out@.subrange(head.len() as int, out@.len() as int) =~= pad_right(hx, 48));
    }
    let ghost padded = out@;
    out.push(' ');
    out.push(' ');
    let ghost head2 = out@;
    assert(head2 =~= padded + "  "@);
    let mut j: usize = 0;
    while j < chunk.len()
        invariant
            j <= chunk.len(),
            out@ == head2 + chunk@.subrange(0, j as int).map_values(|b: u8| shown_char(b)),
        decreases chunk.len() - j,
    {
        let b = chunk[j];
        let c = if 32 <= b && b < 127 {
            b as char
        } else {
            '.'
        };
        out.push(c);
        assert(chunk@.subrange(0, j + 1).map_values(|b: u8| shown_char(b)) =~= chunk@.subrange(
            0,
            j as int,
        ).map_values(|b: u8| shown_char(b)).push(shown_char(b)));
        j = j + 1;
    }
    assert(chunk@.subrange(0, j as int) =~= chunk@);
    assert(out@ =~= dump_line_of(index as nat, chunk@));
    crate::bytes::string_from_chars(out.as_slice())
}

// ----- storing order of files -----

/// Where an item named `k` goes in `order` (positions into `names`,
/// in name order): before the first item whose name comes after `k`.
pub open spec fn insert_pos_name(order: Seq<int>, names: Seq<Seq<char>>, k: Seq<char>) -> int
    decreases order.len(),
{
    if order.len() == 0 {
        0
    } else if lex_lt(k, names[order[0]]) {
        0
    } else {
        1 + insert_pos_name(order.drop_first(), names, k)
    }
}

/// The positions of `names` in name order, equal names in the order
/// they came in (as a stable sort by name).
pub open spec fn order_by_name(names: Seq<Seq<char>>) -> Seq<int>
    decreases names.len(),
{
    if names.len() == 0 {
        Seq::empty()
    } else {
        let o = order_by_name(names.drop_last());
        let j = names.len() - 1;
        o.insert(insert_pos_name(o, names, names[j]), j)
    }
}

/// `files` in name order, equal names in the order given.
pub open spec fn sorted_by_name(files: Seq<InputFileView>) -> Seq<InputFileView> {
    let o = order_by_name(files.map_values(|f: InputFileView| f.name));
    Seq::new(files.len(), |p: int| files[o[p]])
}

proof fn lemma_insert_pos_name(order: Seq<int>, names: Seq<Seq<char>>, k: Seq<char>)
    requires
        forall|p: int, q: int|
            0 <= p < q < order.len() ==> !lex_lt(names[#[trigger] order[q]], names[#[trigger] order[p]]),
    ensures
        0 <= insert_pos_name(order, names, k) <= order.len(),
        forall|q: int| 0 <= q < insert_pos_name(order, names, k) ==> !lex_lt(k, names[#[trigger] order[q]]),
        forall|q: int|
            insert_pos_name(order, names, k) <= q < order.len() ==> lex_lt(k, names[#[trigger] order[q]]),
    decreases order.len(),
{
    if order.len() > 0 {
        if lex_lt(k, names[order[0]]) {
            assert forall|q: int| 0 <= q < order.len() implies lex_lt(k, names[#[trigger] order[q]]) by {
                if q > 0 {
                    assert(!lex_lt(names[order[q]], names[order[0]]));
                    crate::scan::lemma_lex_total(names[order[0]], names[order[q]]);
                    if names[order[0]] != names[order[q]] {
                        crate::scan::lemma_lex_trans(k, names[order[0]], names[order[q]]);
                    }
                }
            }
        } else {
            let rest = order.drop_first();
            assert forall|p: int, q: int| 0 <= p < q < rest.len() implies !lex_lt(
                names[#[trigger] rest[q]],
                names[#[trigger] rest[p]],
            ) by {
                assert(rest[p] == order[p + 1] && rest[q] == order[q + 1]);
            }
            lemma_insert_pos_name(rest, names, k);
            assert forall|q: int| 0 <= q < insert_pos_name(order, names, k) implies !lex_lt(
                k,
                names[#[trigger] order[q]],
            ) by {
                if q > 0 {
                    assert(order[q] == rest[q - 1]);
                }
            }
            assert forall|q: int|
                insert_pos_name(order, names, k) <= q < order.len() implies lex_lt(
                k,
                names[#[trigger] order[q]],
            ) by {
                assert(order[q] == rest[q - 1]);
            }
        }
    }
}

/// The order lists every position once, names never go down, and equal
/// names keep the order they came in: it is what a stable sort by name
/// makes of the items.
pub proof fn lemma_order_by_name(names: Seq<Seq<char>>)
    ensures
        crate::cellar::order::is_permutation_of(order_by_name(names), names.len() as int),
        forall|p: int, q: int|
            0 <= p < q < names.len() ==> lex_lt(
                names[#[trigger] order_by_name(names)[p]],
                names[#[trigger] order_by_name(names)[q]],
            ) || (names[order_by_name(names)[p]] == names[order_by_name(names)[q]]
                && order_by_name(names)[p] < order_by_name(names)[q]),
    decreases names.len(),
{
    if names.len() > 0 {
        let prev = names.drop_last();
        lemma_order_by_name(prev);
        let o = order_by_name(prev);
        let j = names.len() - 1;
        let k = names[j];
        assert forall|p: int| 0 <= p < o.len() implies names[#[trigger] o[p]] == prev[o[p]] by {}
        assert forall|p: int, q: int| 0 <= p < q < o.len() implies !lex_lt(
            names[#[trigger] o[q]],
            names[#[trigger] o[p]],
        ) by {
            crate::scan::lemma_lex_total(prev[o[p]], prev[o[q]]);
        }
        lemma_insert_pos_name(o, names, k);
        let pos = insert_pos_name(o, names, k);
        let n = o.insert(pos, j);
        assert(n == order_by_name(names));
        assert forall|p: int| 0 <= p < n.len() implies (p < pos ==> #[trigger] n[p] == o[p]) && (p
            == pos ==> n[p] == j) && (p > pos ==> n[p] == o[p - 1]) by {}
        assert forall|p: int| 0 <= p < names.len() implies 0 <= #[trigger] n[p] < names.len() by {
            if p < pos {
                assert(n[p] == o[p]);
            } else if p > pos {
                assert(n[p] == o[p - 1]);
            }
        }
        assert forall|p: int, q: int| 0 <= p < q < names.len() implies #[trigger] n[p]
            != #[trigger] n[q] by {
            if p < pos && q < pos {
                assert(n[p] == o[p] && n[q] == o[q]);
            } else if p < pos && q == pos {
                assert(n[p] == o[p]);
            } else if p < pos && q > pos {
                assert(n[p] == o[p] && n[q] == o[q - 1]);
            } else if p == pos {
                assert(n[q] == o[q - 1]);
            } else {
                assert(n[p] == o[p - 1] && n[q] == o[q - 1]);
            }
        }
        assert forall|p: int, q: int| 0 <= p < q < names.len() implies lex_lt(
            names[#[trigger] n[p]],
            names[#[trigger] n[q]],
        ) || (names[n[p]] == names[n[q]] && n[p] < n[q]) by {
            if p < pos && q < pos {
                assert(n[p] == o[p] && n[q] == o[q]);
            } else if p < pos && q == pos {
                assert(n[p] == o[p]);
                crate::scan::lemma_lex_total(names[o[p]], k);
            } else if p < pos && q > pos {
                assert(n[p] == o[p] && n[q] == o[q - 1]);
                crate::scan::lemma_lex_total(names[o[p]], k);
                if names[o[p]] != k {
                    crate::scan::lemma_lex_trans(names[o[p]], k, names[o[q - 1]]);
                }
            } else if p == pos {
                assert(n[q] == o[q - 1]);
            } else {
                assert(n[p] == o[p - 1] && n[q] == o[q - 1]);
            }
        }
    }
}

/// Files stored in name order are the files given, rearranged (each
/// exactly once), with names never going down, and files of equal names
/// in the order given.
pub proof fn lemma_sorted_by_name(files: Seq<InputFileView>)
    ensures
        sorted_by_name(files).len() == files.len(),
        forall|p: int, q: int|
            0 <= p < q < files.len() ==> !lex_lt(
                (#[trigger] sorted_by_name(files)[q]).name,
                (#[trigger] sorted_by_name(files)[p]).name,
            ),
        exists|o: Seq<int>|
            crate::cellar::order::is_permutation_of(o, files.len() as int) && forall|p: int|
                0 <= p < files.len() ==> #[trigger] sorted_by_name(files)[p] == files[o[p]],
{
    let names = files.map_values(|f: InputFileView| f.name);
    let o = order_by_name(names);
    lemma_order_by_name(names);
    let r = sorted_by_name(files);
    assert forall|p: int, q: int| 0 <= p < q < files.len() implies !lex_lt(
        (#[trigger] r[q]).name,
        (#[trigger] r[p]).name,
    ) by {
        crate::scan::lemma_lex_total(names[o[p]], names[o[q]]);
    }
    assert forall|p: int| 0 <= p < files.len() implies #[trigger] r[p] == files[o[p]] by {}
}

fn name_order(names: &Vec<Vec<char>>) -> (r: Vec<usize>)
    ensures
        r@.len() == names@.len(),
        forall|p: int| 0 <= p < r@.len() ==> #[trigger] r@[p] == order_by_name(
            names@.map_values(|v: Vec<char>| v@),
        )[p],
{
    let ghost nv = names@.map_values(|v: Vec<char>| v@);
    let mut order: Vec<usize> = Vec::new();
    let mut j: usize = 0;
    while j < names.len()
        invariant
            j <= names.len(),
            nv == names@.map_values(|v: Vec<char>| v@),
            order@.len() == j,
            order_by_name(nv.subrange(0, j as int)).len() == j,
            forall|p: int| 0 <= p < j ==> #[trigger] order@[p] == order_by_name(nv.subrange(0, j as int))[p],
        decreases names.len() - j,
    {
        let ghost ks = nv.subrange(0, j + 1);
        let ghost o = order_by_name(nv.subrange(0, j as int));
        proof {
            assert(ks.drop_last() =~= nv.subrange(0, j as int));
            lemma_order_by_name(nv.subrange(0, j as int));
            assert forall|p: int| 0 <= p < o.len() implies #[trigger] ks[o[p]] == nv[o[p]] by {}
            assert forall|p: int, q: int| 0 <= p < q < o.len() implies !lex_lt(
                ks[#[trigger] o[q]],
                ks[#[trigger] o[p]],
            ) by {
                assert(nv.subrange(0, j as int)[o[p]] == ks[o[p]]);
                assert(nv.subrange(0, j as int)[o[q]] == ks[o[q]]);
                crate::scan::lemma_lex_total(ks[o[p]], ks[o[q]]);
            }
            lemma_insert_pos_name(o, ks, nv[j as int]);
        }
        let mut pos: usize = 0;
        while pos < order.len() && !crate::scan::lex_less(names[j].as_slice(), names[order[pos]].as_slice())
            invariant
                order@.len() == j,
                j < names.len(),
                nv == names@.map_values(|v: Vec<char>| v@),
                o.len() == j,
                forall|p: int| 0 <= p < j ==> #[trigger] order@[p] == o[p],
                forall|p: int| 0 <= p < o.len() ==> 0 <= #[trigger] o[p] < j,
                ks == nv.subrange(0, j + 1),
                pos <= order.len(),
                pos <= insert_pos_name(o, ks, nv[j as int]),
                forall|q: int| 0 <= q < insert_pos_name(o, ks, nv[j as int]) ==> !lex_lt(nv[j as int], ks[#[trigger] o[q]]),
                forall|q: int| insert_pos_name(o, ks, nv[j as int]) <= q < o.len() ==> lex_lt(nv[j as int], ks[#[trigger] o[q]]),
                insert_pos_name(o, ks, nv[j as int]) <= o.len(),
            decreases order.len() - pos,
        {
            assert(ks[o[pos as int]] == names@[order@[pos as int] as int]@);
            pos = pos + 1;
        }
        proof {
            if pos < order.len() {
                assert(ks[o[pos as int]] == names@[order@[pos as int] as int]@);
            }
            assert(pos == insert_pos_name(o, ks, nv[j as int]));
        }
        order.insert(pos, j);
        j = j + 1;
        proof {
            assert(ks[(j - 1) as int] == nv[(j - 1) as int]);
            assert(order_by_name(ks) == o.insert(pos as int, (j - 1) as int));
        }
    }
    assert(nv.subrange(0, j as int) =~= nv);
    order
}

fn copy_bytes(v: &Vec<u8>) -> (r: Vec<u8>)
    ensures
        r@ == v@,
{
    let mut r: Vec<u8> = Vec::new();
    let mut i: usize = 0;
    while i < v.len()
        invariant
            i <= v.len(),
            r@ == v@.subrange(0, i as int),
        decreases v.len() - i,
    {
        r.push(v[i]);
        i = i + 1;
        assert(r@ =~= v@.subrange(0, i as int));
    }
    assert(v@.subrange(0, i as int) =~= v@);
    r
}

/// The files in the order an archive stores them: by name, equal names
/// in the order given.
pub fn sort_by_name(files: Vec<InputFile>) -> (r: Vec<InputFile>)
    ensures
        r@.map_values(|f: InputFile| f@) == sorted_by_name(files@.map_values(|f: InputFile| f@)),
{
    let ghost fv = files@.map_values(|f: InputFile| f@);
    let mut names: Vec<Vec<char>> = Vec::new();
    let mut i: usize = 0;
    while i < files.len()
        invariant
            i <= files.len(),
            fv == files@.map_values(|f: InputFile| f@),
            names@.map_values(|v: Vec<char>| v@) =~= fv.map_values(|f: InputFileView| f.name).subrange(
                0,
                i as int,
            ),
        decreases files.len() - i,
    {
        let ghost before = names@.map_values(|v: Vec<char>| v@);
        names.push(crate::bytes::str_chars(files[i].name.as_str()));
        assert(names@.map_values(|v: Vec<char>| v@) =~= before.push(fv[i as int].name));
        i = i + 1;
    }
    let ghost nv = fv.map_values(|f: InputFileView| f.name);
    assert(names@.map_values(|v: Vec<char>| v@) =~= nv);
    let order = name_order(&names);
    proof {
        lemma_order_by_name(nv);
    }
    let mut r: Vec<InputFile> = Vec::new();
    let mut p: usize = 0;
    while p < files.len()
        invariant
            p <= files.len(),
            order@.len() == files.len(),
            fv == files@.map_values(|f: InputFile| f@),
            nv == fv.map_values(|f: InputFileView| f.name),
            forall|q: int| 0 <= q < order@.len() ==> #[trigger] order@[q] == order_by_name(nv)[q],
            forall|q: int| 0 <= q < order@.len() ==> 0 <= #[trigger] order_by_name(nv)[q] < nv.len(),
            r@.map_values(|f: InputFile| f@) =~= Seq::new(p as nat, |q: int| fv[order_by_name(nv)[q]]),
        decreases files.len() - p,
    {
        let k = order[p];
        assert(order_by_name(nv)[p as int] < nv.len());
        let ghost before = r@.map_values(|f: InputFile| f@);
        let f = &files[k];
        r.push(InputFile { name: f.name.clone(), bytes: copy_bytes(&f.bytes) });
        assert(r@.map_values(|f: InputFile| f@) =~= before.push(fv[order_by_name(nv)[p as int]]));
        p = p + 1;
    }
    r
}

} // verus!
