//! Text helpers over character sequences: searching, splitting,
//! trimming, case folding of ASCII letters and decimal parsing, each
//! with the meaning the standard library gives its `str` counterpart.

use vstd::prelude::*;

use crate::bytes::str_chars;

verus! {

/// Index of the first `c` at or after `i`.
pub open spec fn find_from(s: Seq<char>, c: char, i: int) -> Option<int>
    decreases s.len() - i,
{
    if i < 0 || i >= s.len() {
        None
    } else if s[i] == c {
        Some(i)
    } else {
        find_from(s, c, i + 1)
    }
}

pub proof fn lemma_find_from(s: Seq<char>, c: char, i: int)
    ensures
        find_from(s, c, i) matches Some(j) ==> i <= j < s.len() && s[j] == c && forall|k: int|
            i <= k < j ==> s[k] != c,
        find_from(s, c, i) is None && 0 <= i ==> forall|k: int| i <= k < s.len() ==> s[k] != c,
    decreases s.len() - i,
{
    if 0 <= i < s.len() && s[i] != c {
        lemma_find_from(s, c, i + 1);
    }
}

/// `s` contains `c`.
pub open spec fn has_char(s: Seq<char>, c: char) -> bool {
    exists|i: int| 0 <= i < s.len() && s[i] == c
}

/// Pieces of `s` between occurrences of `c` (as `str::split`): there
/// is always at least one piece.
pub open spec fn split_on(s: Seq<char>, c: char) -> Seq<Seq<char>>
    decreases s.len(),
{
    match find_from(s, c, 0) {
        None => seq![s],
        Some(i) => {
            if 0 <= i < s.len() {
                seq![s.subrange(0, i)] + split_on(s.subrange(i + 1, s.len() as int), c)
            } else {
                seq![s]
            }
        },
    }
}

/// `s` split at its first `c` (as `str::split_once`).
pub open spec fn split_once(s: Seq<char>, c: char) -> Option<(Seq<char>, Seq<char>)> {
    match find_from(s, c, 0) {
        None => None,
        Some(i) => Some((s.subrange(0, i), s.subrange(i + 1, s.len() as int))),
    }
}

/// `s` begins with `p`.
pub open spec fn starts_with(s: Seq<char>, p: Seq<char>) -> bool {
    p.len() <= s.len() && s.subrange(0, p.len() as int) == p
}

/// `s` ends with `p`.
pub open spec fn ends_with(s: Seq<char>, p: Seq<char>) -> bool {
    p.len() <= s.len() && s.subrange(s.len() - p.len(), s.len() as int) == p
}

/// Unicode `White_Space`, the property `char::is_whitespace` tests.
pub open spec fn is_ws(c: char) -> bool {
    ||| '\u{9}' <= c <= '\u{d}'
    ||| c == ' '
    ||| c == '\u{85}'
    ||| c == '\u{a0}'
    ||| c == '\u{1680}'
    ||| '\u{2000}' <= c <= '\u{200a}'
    ||| c == '\u{2028}'
    ||| c == '\u{2029}'
    ||| c == '\u{202f}'
    ||| c == '\u{205f}'
    ||| c == '\u{3000}'
}

pub open spec fn trim_start(s: Seq<char>) -> Seq<char>
    decreases s.len(),
{
    if s.len() > 0 && is_ws(s[0]) {
        trim_start(s.drop_first())
    } else {
        s
    }
}

pub open spec fn trim_end(s: Seq<char>) -> Seq<char>
    decreases s.len(),
{
    if s.len() > 0 && is_ws(s.last()) {
        trim_end(s.drop_last())
    } else {
        s
    }
}

/// `s` without leading and trailing white space (as `str::trim`).
pub open spec fn trim(s: Seq<char>) -> Seq<char> {
    trim_end(trim_start(s))
}

/// ASCII letters lowered, everything else unchanged.
pub open spec fn ascii_lower(c: char) -> char {
    if 'A' <= c <= 'Z' {
        ((c as u32) + 32) as char
    } else {
        c
    }
}

pub open spec fn ascii_lowercase(s: Seq<char>) -> Seq<char> {
    s.map_values(|c: char| ascii_lower(c))
}

/// Decimal value of a digit sequence.
pub open spec fn digits_value(s: Seq<char>) -> nat
    decreases s.len(),
{
    if s.len() == 0 {
        0
    } else {
        digits_value(s.drop_last()) * 10 + ((s.last() as u32) - ('0' as u32)) as nat
    }
}

pub open spec fn all_digits(s: Seq<char>) -> bool {
    forall|i: int| 0 <= i < s.len() ==> '0' <= #[trigger] s[i] <= '9'
}

/// What `str::parse` makes of `s` for an unsigned integer type whose
/// largest value is `max`: an optional `+`, then one or more ASCII
/// digits, with a value no larger than `max`.
pub open spec fn parse_unsigned(s: Seq<char>, max: nat) -> Option<nat> {
    let digits = if s.len() > 0 && s[0] == '+' {
        s.drop_first()
    } else {
        s
    };
    if digits.len() == 0 || !all_digits(digits) || digits_value(digits) > max {
        None
    } else {
        Some(digits_value(digits))
    }
}

/// `s` contains `c`.
pub fn contains_char(s: &[char], c: char) -> (b: bool)
    ensures
        b == has_char(s@, c),
{
    let mut i: usize = 0;
    while i < s.len()
        invariant
            i <= s.len(),
            forall|k: int| 0 <= k < i ==> s@[k] != c,
        decreases s.len() - i,
    {
        if s[i] == c {
            return true;
        }
        i = i + 1;
    }
    false
}

/// Index of the first `c` at or after `from`.
pub fn find_char(s: &[char], c: char, from: usize) -> (r: Option<usize>)
    requires
        from <= s.len(),
    ensures
        r matches Some(j) ==> find_from(s@, c, from as int) == Some(j as int),
        r is None ==> find_from(s@, c, from as int) is None,
{
    let mut i = from;
    while i < s.len()
        invariant
            from <= i <= s.len(),
            find_from(s@, c, from as int) == find_from(s@, c, i as int),
        decreases s.len() - i,
    {
        if s[i] == c {
            return Some(i);
        }
        i = i + 1;
    }
    None
}

/// `s[from..to]` as a new vector.
pub fn sub_chars(s: &[char], from: usize, to: usize) -> (r: Vec<char>)
    requires
        from <= to <= s.len(),
    ensures
        r@ == s@.subrange(from as int, to as int),
{
    let mut r: Vec<char> = Vec::new();
    let mut i = from;
    while i < to
        invariant
            from <= i <= to <= s.len(),
            r@ == s@.subrange(from as int, i as int),
        decreases to - i,
    {
        r.push(s[i]);
        i = i + 1;
        assert(r@ =~= s@.subrange(from as int, i as int));
    }
    r
}

proof fn lemma_split_step(s: Seq<char>, c: char, start: int, j: int)
    requires
        0 <= start <= j < s.len(),
        s[j] == c,
        forall|k: int| start <= k < j ==> s[k] != c,
    ensures
        split_on(s.subrange(start, s.len() as int), c) == seq![s.subrange(start, j)] + split_on(
            s.subrange(j + 1, s.len() as int),
            c,
        ),
{
    let t = s.subrange(start, s.len() as int);
    lemma_find_from(t, c, 0);
    assert(t[j - start] == c);
    let f = find_from(t, c, 0);
    assert(f == Some(j - start)) by {
        if let Some(k) = f {
            if k < j - start {
                assert(t[k] == s[start + k]);
            }
            if k > j - start {
                assert(t[j - start] != c);
            }
        }
    }
    assert(t.subrange(0, j - start) =~= s.subrange(start, j));
    assert(t.subrange(j - start + 1, t.len() as int) =~= s.subrange(j + 1, s.len() as int));
}

proof fn lemma_split_last(s: Seq<char>, c: char, start: int)
    requires
        0 <= start <= s.len(),
        forall|k: int| start <= k < s.len() ==> s[k] != c,
    ensures
        split_on(s.subrange(start, s.len() as int), c) == seq![s.subrange(start, s.len() as int)],
{
    let t = s.subrange(start, s.len() as int);
    lemma_find_from(t, c, 0);
    if let Some(k) = find_from(t, c, 0) {
        assert(t[k] == s[start + k]);
    }
}

/// Pieces of `s` between occurrences of `c` (as `str::split`).
pub fn split_chars(s: &[char], c: char) -> (r: Vec<Vec<char>>)
    ensures
        r@.map_values(|v: Vec<char>| v@) == split_on(s@, c),
{
    let mut out: Vec<Vec<char>> = Vec::new();
    let mut start: usize = 0;
    let mut j: usize = 0;
    assert(s@.subrange(0, s@.len() as int) =~= s@);
    while j < s.len()
        invariant
            start <= j <= s.len(),
            forall|k: int| start <= k < j ==> s@[k] != c,
            split_on(s@, c) == out@.map_values(|v: Vec<char>| v@) + split_on(
                s@.subrange(start as int, s@.len() as int),
                c,
            ),
        decreases s.len() - j,
    {
        if s[j] == c {
            proof {
                lemma_split_step(s@, c, start as int, j as int);
            }
            let piece = sub_chars(s, start, j);
            let ghost before = out@.map_values(|v: Vec<char>| v@);
            out.push(piece);
            assert(out@.map_values(|v: Vec<char>| v@) =~= before.push(piece@));
            assert(before + (seq![piece@] + split_on(s@.subrange(j + 1, s@.len() as int), c))
                =~= before.push(piece@) + split_on(s@.subrange(j + 1, s@.len() as int), c));
            start = j + 1;
        }
        j = j + 1;
    }
    proof {
        lemma_split_last(s@, c, start as int);
    }
    let piece = sub_chars(s, start, s.len());
    let ghost before = out@.map_values(|v: Vec<char>| v@);
    out.push(piece);
    assert(out@.map_values(|v: Vec<char>| v@) =~= before.push(piece@));
    assert(before + seq![piece@] =~= before.push(piece@));
    out
}

/// `s` split at its first `c` (as `str::split_once`).
pub fn split_once_chars(s: &[char], c: char) -> (r: Option<(Vec<char>, Vec<char>)>)
    ensures
        match split_once(s@, c) {
            Some((a, b)) => r matches Some((x, y)) && x@ == a && y@ == b,
            None => r is None,
        },
{
    match find_char(s, c, 0) {
        Some(i) => {
            proof {
                lemma_find_from(s@, c, 0);
                assert(find_from(s@, c, 0) == Some(i as int));
            }
            assert(i < s.len());
            Some((sub_chars(s, 0, i), sub_chars(s, i + 1, s.len())))
        },
        None => None,
    }
}

/// `s` begins with the characters of `p`.
pub fn starts_with_chars(s: &[char], p: &[char]) -> (b: bool)
    ensures
        b == starts_with(s@, p@),
{
    if p.len() > s.len() {
        return false;
    }
    let mut i: usize = 0;
    while i < p.len()
        invariant
            p.len() <= s.len(),
            i <= p.len(),
            forall|k: int| 0 <= k < i ==> s@[k] == p@[k],
        decreases p.len() - i,
    {
        if s[i] != p[i] {
            assert(s@.subrange(0, p@.len() as int)[i as int] != p@[i as int]);
            return false;
        }
        i = i + 1;
    }
    assert(s@.subrange(0, p@.len() as int) =~= p@);
    true
}

/// `s` consists of exactly the characters of `p`.
pub fn eq_chars(s: &[char], p: &[char]) -> (b: bool)
    ensures
        b == (s@ == p@),
{
    if s.len() != p.len() {
        return false;
    }
    let r = starts_with_chars(s, p);
    proof {
        if r {
            assert(s@.subrange(0, p@.len() as int) =~= s@);
        } else {
            if s@ == p@ {
                assert(s@.subrange(0, p@.len() as int) =~= s@);
            }
        }
    }
    r
}

/// `s` equals the text `lit`.
pub fn eq_str(s: &[char], lit: &str) -> (b: bool)
    ensures
        b == (s@ == lit@),
{
    let p = str_chars(lit);
    eq_chars(s, p.as_slice())
}

/// `s` begins with the text `lit`.
pub fn starts_with_str(s: &[char], lit: &str) -> (b: bool)
    ensures
        b == starts_with(s@, lit@),
{
    let p = str_chars(lit);
    starts_with_chars(s, p.as_slice())
}

/// `s` ends with the characters of `p`.
pub fn ends_with_chars(s: &[char], p: &[char]) -> (b: bool)
    ensures
        b == ends_with(s@, p@),
{
    if p.len() > s.len() {
        return false;
    }
    let off = s.len() - p.len();
    let mut i: usize = 0;
    while i < p.len()
        invariant
            p.len() <= s.len(),
            off == s.len() - p.len(),
            i <= p.len(),
            forall|k: int| 0 <= k < i ==> s@[off + k] == p@[k],
        decreases p.len() - i,
    {
        if s[off + i] != p[i] {
            assert(s@.subrange(off as int, s@.len() as int)[i as int] != p@[i as int]);
            return false;
        }
        i = i + 1;
    }
    assert(s@.subrange(off as int, s@.len() as int) =~= p@);
    true
}

/// `s` ends with the text `lit`.
pub fn ends_with_str(s: &[char], lit: &str) -> (b: bool)
    ensures
        b == ends_with(s@, lit@),
{
    let p = str_chars(lit);
    ends_with_chars(s, p.as_slice())
}

/// `p` occurs in `s` at position `i`.
pub open spec fn occurs_at(s: Seq<char>, p: Seq<char>, i: int) -> bool {
    0 <= i && i + p.len() <= s.len() && s.subrange(i, i + p.len()) == p
}

/// The first position at or after `i` where `p` occurs in `s` (as
/// `str::find` from `i`).
pub open spec fn find_sub_from(s: Seq<char>, p: Seq<char>, i: int) -> Option<int>
    decreases s.len() + 1 - i,
{
    if i < 0 || i + p.len() > s.len() {
        None
    } else if occurs_at(s, p, i) {
        Some(i)
    } else {
        find_sub_from(s, p, i + 1)
    }
}

/// The last position at or before `i` where `p` occurs in `s`.
pub open spec fn rfind_sub_to(s: Seq<char>, p: Seq<char>, i: int) -> Option<int>
    decreases i + 1,
{
    if i < 0 {
        None
    } else if occurs_at(s, p, i) {
        Some(i)
    } else {
        rfind_sub_to(s, p, i - 1)
    }
}

/// The last position where `p` occurs in `s` (as `str::rfind`).
pub open spec fn rfind_sub(s: Seq<char>, p: Seq<char>) -> Option<int> {
    rfind_sub_to(s, p, s.len() - p.len())
}

fn occurs_at_exec(s: &[char], p: &[char], i: usize) -> (r: bool)
    requires
        i + p.len() <= s.len(),
    ensures
        r == occurs_at(s@, p@, i as int),
{
    let mut j: usize = 0;
    while j < p.len()
        invariant
            i + p.len() <= s.len(),
            j <= p.len(),
            forall|t: int| 0 <= t < j ==> s@[i + t] == p@[t],
        decreases p.len() - j,
    {
        if s[i + j] != p[j] {
            assert(s@.subrange(i as int, i + p@.len())[j as int] != p@[j as int]);
            return false;
        }
        j = j + 1;
    }
    assert(s@.subrange(i as int, i + p@.len()) =~= p@);
    true
}

/// The first position where `p` occurs in `s`.
pub fn find_text(s: &[char], p: &[char]) -> (r: Option<usize>)
    ensures
        match find_sub_from(s@, p@, 0) {
            Some(i) => r matches Some(j) && j == i,
            None => r is None,
        },
{
    if p.len() > s.len() {
        return None;
    }
    if p.len() == 0 {
        assert(s@.subrange(0, 0) =~= p@);
        return Some(0);
    }
    let mut i: usize = 0;
    while i <= s.len() - p.len()
        invariant
            1 <= p.len() <= s.len(),
            i <= s.len() - p.len() + 1,
            find_sub_from(s@, p@, 0) == find_sub_from(s@, p@, i as int),
        decreases s.len() - i,
    {
        if occurs_at_exec(s, p, i) {
            return Some(i);
        }
        i = i + 1;
    }
    None
}

/// The last position where `p` occurs in `s`.
pub fn rfind_text(s: &[char], p: &[char]) -> (r: Option<usize>)
    ensures
        match rfind_sub(s@, p@) {
            Some(i) => r matches Some(j) && j == i,
            None => r is None,
        },
{
    if p.len() > s.len() {
        return None;
    }
    if p.len() == 0 {
        assert(s@.subrange(s@.len() as int, s@.len() as int) =~= p@);
        return Some(s.len());
    }
    let mut i: usize = s.len() - p.len() + 1;
    while i > 0
        invariant
            p.len() <= s.len(),
            i <= s.len() - p.len() + 1,
            rfind_sub(s@, p@) == rfind_sub_to(s@, p@, i - 1),
        decreases i,
    {
        if occurs_at_exec(s, p, i - 1) {
            return Some(i - 1);
        }
        i = i - 1;
    }
    None
}

/// Unicode white space, as `char::is_whitespace`.
pub fn char_is_ws(c: char) -> (b: bool)
    ensures
        b == is_ws(c),
{
    ('\u{9}' <= c && c <= '\u{d}') || c == ' ' || c == '\u{85}' || c == '\u{a0}' || c
        == '\u{1680}' || ('\u{2000}' <= c && c <= '\u{200a}') || c == '\u{2028}' || c == '\u{2029}'
        || c == '\u{202f}' || c == '\u{205f}' || c == '\u{3000}'
}

proof fn lemma_trim_start_skip(s: Seq<char>, a: int)
    requires
        0 <= a <= s.len(),
        forall|k: int| 0 <= k < a ==> is_ws(s[k]),
    ensures
        trim_start(s) == trim_start(s.subrange(a, s.len() as int)),
    decreases a,
{
    if a > 0 {
        assert(s.len() > 0 && is_ws(s[0]));
        let t = s.drop_first();
        assert forall|k: int| 0 <= k < a - 1 implies is_ws(t[k]) by {
            assert(t[k] == s[k + 1]);
        }
        lemma_trim_start_skip(t, a - 1);
        assert(t.subrange(a - 1, t.len() as int) =~= s.subrange(a, s.len() as int));
    } else {
        assert(s.subrange(0, s.len() as int) =~= s);
    }
}

proof fn lemma_trim_end_skip(s: Seq<char>, b: int)
    requires
        0 <= b <= s.len(),
        forall|k: int| b <= k < s.len() ==> is_ws(s[k]),
    ensures
        trim_end(s) == trim_end(s.subrange(0, b)),
    decreases s.len() - b,
{
    if b < s.len() {
        assert(is_ws(s.last()));
        let t = s.drop_last();
        lemma_trim_end_skip(t, b);
        assert(t.subrange(0, b) =~= s.subrange(0, b));
    } else {
        assert(s.subrange(0, b) =~= s);
    }
}

/// `s` without leading and trailing white space (as `str::trim`).
pub fn trim_chars(s: &[char]) -> (r: Vec<char>)
    ensures
        r@ == trim(s@),
{
    let mut a: usize = 0;
    while a < s.len() && char_is_ws(s[a])
        invariant
            a <= s.len(),
            forall|k: int| 0 <= k < a ==> is_ws(s@[k]),
        decreases s.len() - a,
    {
        a = a + 1;
    }
    proof {
        lemma_trim_start_skip(s@, a as int);
    }
    let ghost mid = s@.subrange(a as int, s@.len() as int);
    assert(trim_start(mid) == mid);
    let mut b: usize = s.len();
    while b > a && char_is_ws(s[b - 1])
        invariant
            a <= b <= s.len(),
            forall|k: int| b <= k < s.len() ==> is_ws(s@[k]),
        decreases b,
    {
        b = b - 1;
    }
    proof {
        lemma_trim_end_skip(mid, b - a);
        assert(mid.subrange(0, b - a) =~= s@.subrange(a as int, b as int));
        let r = s@.subrange(a as int, b as int);
        if r.len() > 0 {
            assert(r.last() == s@[b - 1]);
        }
    }
    sub_chars(s, a, b)
}

/// ASCII letters lowered (as `str::to_ascii_lowercase`).
pub fn to_ascii_lowercase_chars(s: &[char]) -> (r: Vec<char>)
    ensures
        r@ == ascii_lowercase(s@),
{
    let mut r: Vec<char> = Vec::new();
    let mut i: usize = 0;
    while i < s.len()
        invariant
            i <= s.len(),
            r@ == ascii_lowercase(s@.subrange(0, i as int)),
        decreases s.len() - i,
    {
        let c = s[i];
        let l = if 'A' <= c && c <= 'Z' {
            ((c as u8) + 32) as char
        } else {
            c
        };
        assert(l == ascii_lower(c));
        r.push(l);
        i = i + 1;
        assert(r@ =~= ascii_lowercase(s@.subrange(0, i as int)));
    }
    assert(s@.subrange(0, s@.len() as int) =~= s@);
    r
}

/// Parse an unsigned decimal no larger than `max` (as `str::parse`).
pub fn parse_unsigned_chars(s: &[char], max: u64) -> (r: Option<u64>)
    ensures
        match parse_unsigned(s@, max as nat) {
            Some(v) => r == Some(v as u64),
            None => r is None,
        },
{
    let start: usize = if s.len() > 0 && s[0] == '+' { 1 } else { 0 };
    let ghost digits = s@.subrange(start as int, s@.len() as int);
    assert(digits =~= (if s@.len() > 0 && s@[0] == '+' {
        s@.drop_first()
    } else {
        s@
    }));
    if start == s.len() {
        return None;
    }
    let mut v: u64 = 0;
    let mut i = start;
    while i < s.len()
        invariant
            start <= i <= s.len(),
            digits == s@.subrange(start as int, s@.len() as int),
            digits == (if s@.len() > 0 && s@[0] == '+' {
                s@.drop_first()
            } else {
                s@
            }),
            all_digits(s@.subrange(start as int, i as int)),
            v as nat == digits_value(s@.subrange(start as int, i as int)),
            v <= max,
        decreases s.len() - i,
    {
        let c = s[i];
        if c < '0' || c > '9' {
            assert(digits[i - start] == c);
            assert(!all_digits(digits));
            return None;
        }
        let d = (c as u32 - '0' as u32) as u64;
        let ghost pre = s@.subrange(start as int, i + 1);
        assert(pre.drop_last() =~= s@.subrange(start as int, i as int));
        assert(all_digits(pre));
        if d > max || v > (max - d) / 10 {
            proof {
                assert(digits_value(pre) == v * 10 + d);
                assert(v * 10 + d > max) by (nonlinear_arith)
                    requires
                        d > max || v > (max - d) / 10,
                ;
                if all_digits(digits) {
                    lemma_digits_value_prefix(digits, (i + 1 - start) as int);
                    assert(digits.subrange(0, i + 1 - start) =~= pre);
                }
            }
            return None;
        }
        assert(v * 10 + d <= max) by (nonlinear_arith)
            requires
                d <= max,
                v <= (max - d) / 10,
        ;
        v = v * 10 + d;
        i = i + 1;
    }
    assert(s@.subrange(start as int, s@.len() as int) =~= digits);
    Some(v)
}

/// A prefix of a digit string never has a larger value.
proof fn lemma_digits_value_prefix(s: Seq<char>, k: int)
    requires
        0 <= k <= s.len(),
        all_digits(s),
    ensures
        digits_value(s.subrange(0, k)) <= digits_value(s),
    decreases s.len() - k,
{
    if k < s.len() {
        lemma_digits_value_prefix(s, k + 1);
        let p = s.subrange(0, k + 1);
        assert(p.drop_last() =~= s.subrange(0, k));
        assert('0' <= p.last() <= '9');
    } else {
        assert(s.subrange(0, k) =~= s);
    }
}

} // verus!
