//! Decoding a block's bytes by the FreeArc method string it was written
//! with. `storing` is copied, `lzma:*` goes to lzma-rs behind a header
//! built from the method's parameters, `zstd[:N]` goes to the zstd
//! crate, and chains (`a+b+c`) are decoded stage by stage from the right.
//! CLS plugin codecs are decoded by an outside plugin host: the
//! [`ChainDecoder`] hands those stages to its caller.

use vstd::prelude::*;
use vstd::string::StringExecFns;

use crate::chars::{
    contains_char, eq_str, find_from, has_char, is_ws, lemma_find_from, parse_unsigned, parse_unsigned_chars,
    split_chars, split_on, trim_end, trim_start,
    starts_with, starts_with_str, sub_chars, trim, trim_chars,
};
use crate::cls_host::{is_cls_chars, is_cls_method};
use crate::error::{ArcError, ArcErrorView};
use crate::footer::res_view;
use crate::varint::{le_bytes, push_le};

verus! {

/// `orig_size` of a chain stage whose output size is not known.
pub const ORIG_SIZE_UNKNOWN: u64 = 0xffff_ffff_ffff_ffff;

// ----- the outside decoders -----

/// What `zstd::stream::copy_decode` writes for `input`, or the text of
/// the error it returns.
pub uninterp spec fn zstd_decode(input: Seq<u8>) -> Result<Seq<u8>, Seq<char>>;

/// What `lzma_rs::lzma_decompress` writes for the header-prefixed LZMA
/// stream `stream`, or the text of the error it returns.
pub uninterp spec fn lzma_decode(stream: Seq<u8>) -> Result<Seq<u8>, Seq<char>>;

/// Decoded bytes, or an error text, as mathematical values.
pub open spec fn bytes_or_text(r: Result<Vec<u8>, String>) -> Result<Seq<u8>, Seq<char>> {
    match r {
        Ok(v) => Ok(v@),
        Err(s) => Err(s@),
    }
}

/// Calls `zstd::stream::copy_decode(input, &mut out)`; trusted to give
/// back `zstd_decode(input)`: the bytes written on success, the error's
/// text otherwise.
#[verifier::external_body]
fn zstd_copy_decode(input: &[u8]) -> (r: Result<Vec<u8>, String>)
    ensures
        bytes_or_text(r) == zstd_decode(input@),
{
    let mut out: Vec<u8> = Vec::new();
    match zstd::stream::copy_decode(input, &mut out) {
        Ok(()) => Ok(out),
        Err(e) => Err(e.to_string()),
    }
}

/// Calls `lzma_rs::lzma_decompress` on `stream`; trusted to give back
/// `lzma_decode(stream)`: the bytes written on success, the error's text
/// otherwise.
#[verifier::external_body]
fn lzma_rs_decompress(stream: &[u8]) -> (r: Result<Vec<u8>, String>)
    ensures
        bytes_or_text(r) == lzma_decode(stream@),
{
    let mut out: Vec<u8> = Vec::new();
    match lzma_rs::lzma_decompress(&mut std::io::Cursor::new(stream), &mut out) {
        Ok(()) => Ok(out),
        Err(e) => Err(e.to_string()),
    }
}

// ----- LZMA parameters -----

/// `digits` as a `u32` decimal times `unit`, if that fits in a `u32`.
pub open spec fn scaled_size(digits: Seq<char>, unit: nat) -> Option<u32> {
    match parse_unsigned(digits, 0xffff_ffff) {
        Some(n) => if n * unit <= 0xffff_ffff {
            Some((n * unit) as u32)
        } else {
            None
        },
        None => None,
    }
}

/// A FreeArc size token: a decimal with an optional `k`, `m` or `g`
/// suffix (either case) for KiB, MiB and GiB.
pub open spec fn parse_size(s: Seq<char>) -> Option<u32> {
    if s.len() > 0 && (s.last() == 'k' || s.last() == 'K') {
        scaled_size(s.drop_last(), 1024)
    } else if s.len() > 0 && (s.last() == 'm' || s.last() == 'M') {
        scaled_size(s.drop_last(), 1024 * 1024)
    } else if s.len() > 0 && (s.last() == 'g' || s.last() == 'G') {
        scaled_size(s.drop_last(), 1024 * 1024 * 1024)
    } else {
        scaled_size(s, 1)
    }
}

fn parse_size_chars(s: &[char]) -> (r: Option<u32>)
    ensures
        r == parse_size(s@),
{
    let n = s.len();
    let (end, unit): (usize, u64) = if n > 0 && (s[n - 1] == 'k' || s[n - 1] == 'K') {
        (n - 1, 1024)
    } else if n > 0 && (s[n - 1] == 'm' || s[n - 1] == 'M') {
        (n - 1, 1024 * 1024)
    } else if n > 0 && (s[n - 1] == 'g' || s[n - 1] == 'G') {
        (n - 1, 1024 * 1024 * 1024)
    } else {
        (n, 1)
    };
    let digits = sub_chars(s, 0, end);
    proof {
        if end < n {
            assert(digits@ =~= s@.drop_last());
        } else {
            assert(digits@ =~= s@);
        }
    }
    match parse_unsigned_chars(digits.as_slice(), 0xffff_ffff) {
        Some(v) => {
            assert(v * unit <= 0xffff_ffff * 0x4000_0000) by (nonlinear_arith)
                requires
                    v <= 0xffff_ffff,
                    unit <= 0x4000_0000,
            ;
            let p = v * unit;
            if p <= 0xffff_ffff {
                Some(p as u32)
            } else {
                None
            }
        },
        None => None,
    }
}

/// `props` with its literal-context bits set to `lc` (at most 8).
pub open spec fn set_lc(props: u8, lc: nat) -> u8 {
    ((props - props % 9) + (if lc < 8 { lc } else { 8 })) as u8
}

/// `props` with its literal-position bits set to `lp` (at most 4).
pub open spec fn set_lp(props: u8, lp: nat) -> u8 {
    ((props / 9 / 5 * 5 + (if lp < 4 { lp } else { 4 })) * 9 + props % 9) as u8
}

/// `props` with its position bits set to `pb` (at most 4).
pub open spec fn set_pb(props: u8, pb: nat) -> u8 {
    (((if pb < 4 { pb } else { 4 }) * 5 + props / 9 % 5) * 9 + props % 9) as u8
}

proof fn lemma_props_fields(pb: int, lp: int, lc: int)
    requires
        0 <= pb <= 4,
        0 <= lp <= 4,
        0 <= lc <= 8,
    ensures
        ({
            let p = (pb * 5 + lp) * 9 + lc;
            &&& 0 <= p <= 224
            &&& p % 9 == lc
            &&& p / 9 % 5 == lp
            &&& p / 45 == pb
        }),
{
    let p = (pb * 5 + lp) * 9 + lc;
    vstd::arithmetic::div_mod::lemma_fundamental_div_mod_converse(p, 9, pb * 5 + lp, lc);
    vstd::arithmetic::div_mod::lemma_fundamental_div_mod_converse(pb * 5 + lp, 5, pb, lp);
    vstd::arithmetic::div_mod::lemma_div_denominator(p, 9, 5);
}

proof fn lemma_props_split(p: int)
    requires
        0 <= p <= 224,
    ensures
        p == (p / 45 * 5 + p / 9 % 5) * 9 + p % 9,
        0 <= p / 45 <= 4,
        0 <= p / 9 % 5 <= 4,
        0 <= p % 9 <= 8,
{
    vstd::arithmetic::div_mod::lemma_fundamental_div_mod(p, 9);
    vstd::arithmetic::div_mod::lemma_fundamental_div_mod(p / 9, 5);
    vstd::arithmetic::div_mod::lemma_div_denominator(p, 9, 5);
    assert(p / 9 <= 24) by (nonlinear_arith)
        requires
            0 <= p <= 224,
    ;
}

/// The LZMA properties byte holds three fields, `lc` (`props % 9`),
/// `lp` (`props / 9 % 5`) and `pb` (`props / 45`). Setting one field
/// (to the value given, at most its largest, 8 for `lc` and 4 for the
/// others) leaves the other two as they were.
pub proof fn lemma_set_props_fields(props: u8, v: nat)
    requires
        props <= 224,
    ensures
        set_pb(props, v) <= 224,
        set_pb(props, v) % 9 == props % 9,
        set_pb(props, v) / 9 % 5 == props / 9 % 5,
        set_pb(props, v) / 45 == (if v < 4 { v } else { 4 }),
        set_lp(props, v) <= 224,
        set_lp(props, v) % 9 == props % 9,
        set_lp(props, v) / 9 % 5 == (if v < 4 { v } else { 4 }),
        set_lp(props, v) / 45 == props / 45,
        set_lc(props, v) <= 224,
        set_lc(props, v) % 9 == (if v < 8 { v } else { 8 }),
        set_lc(props, v) / 9 % 5 == props / 9 % 5,
        set_lc(props, v) / 45 == props / 45,
{
    let p = props as int;
    lemma_props_split(p);
    let pb = p / 45;
    let lp = p / 9 % 5;
    let lc = p % 9;
    let m4 = if v < 4 { v as int } else { 4 };
    let m8 = if v < 8 { v as int } else { 8 };
    // setting pb
    lemma_props_fields(m4, lp, lc);
    assert(((if v < 4 { v } else { 4 }) * 5 + p / 9 % 5) * 9 + p % 9 == (m4 * 5 + lp) * 9 + lc);
    // setting lp
    vstd::arithmetic::div_mod::lemma_div_denominator(p, 9, 5);
    lemma_props_fields(pb, m4, lc);
    assert((p / 9 / 5 * 5 + (if v < 4 { v } else { 4 })) * 9 + p % 9 == (pb * 5 + m4) * 9 + lc);
    // setting lc
    lemma_props_fields(pb, lp, m8);
    assert((p - p % 9) + (if v < 8 { v } else { 8 }) == (pb * 5 + lp) * 9 + m8);
}

/// The effect of one `:`-separated parameter token on the decoder's
/// `(dictionary size, properties byte)`. `d<size>` sets the dictionary
/// (an unreadable size leaves it), `lc`/`lp`/`pb` followed by a `u8`
/// set the property fields; every other token is an encoder hint.
pub open spec fn lzma_token(st: (u32, u8), tok: Seq<char>) -> (u32, u8) {
    if tok.len() >= 1 && tok[0] == 'd' {
        match parse_size(tok.skip(1)) {
            Some(d) => (d, st.1),
            None => st,
        }
    } else if tok.len() >= 2 && tok[0] == 'l' && tok[1] == 'c' {
        match parse_unsigned(tok.skip(2), 255) {
            Some(v) => (st.0, set_lc(st.1, v)),
            None => st,
        }
    } else if tok.len() >= 2 && tok[0] == 'l' && tok[1] == 'p' {
        match parse_unsigned(tok.skip(2), 255) {
            Some(v) => (st.0, set_lp(st.1, v)),
            None => st,
        }
    } else if tok.len() >= 2 && tok[0] == 'p' && tok[1] == 'b' {
        match parse_unsigned(tok.skip(2), 255) {
            Some(v) => (st.0, set_pb(st.1, v)),
            None => st,
        }
    } else {
        st
    }
}

/// The tokens applied from the left.
pub open spec fn lzma_fold(toks: Seq<Seq<char>>, st: (u32, u8)) -> (u32, u8)
    decreases toks.len(),
{
    if toks.len() == 0 {
        st
    } else {
        lzma_fold(toks.drop_first(), lzma_token(st, toks[0]))
    }
}

/// Dictionary size and properties byte for an `lzma:` method's
/// parameters, from the defaults 1 MiB and `0x5d` (lc=3, lp=0, pb=2).
pub open spec fn lzma_settings(params: Seq<char>) -> (u32, u8) {
    lzma_fold(crate::chars::split_on(params, ':'), (0x10_0000, 0x5d))
}

/// The standard 13-byte LZMA header (properties, dictionary size, size
/// of the decoded data) in front of the block's body.
pub open spec fn lzma_stream(params: Seq<char>, orig: u64, body: Seq<u8>) -> Seq<u8> {
    let st = lzma_settings(params);
    seq![st.1] + le_bytes(st.0 as nat, 4) + le_bytes(orig as nat, 8) + body
}

proof fn lemma_lzma_token_props(st: (u32, u8), tok: Seq<char>)
    requires
        st.1 <= 224,
    ensures
        lzma_token(st, tok).1 <= 224,
{
    let p = st.1 as int;
    assert(p - p % 9 <= 216 && p / 9 / 5 <= 4 && p / 9 % 5 <= 4 && p % 9 <= 8) by (nonlinear_arith)
        requires
            0 <= p <= 224,
    ;
}

fn lzma_token_exec(dict: u32, props: u8, tok: &[char]) -> (r: (u32, u8))
    requires
        props <= 224,
    ensures
        r == lzma_token((dict, props), tok@),
        r.1 <= 224,
{
    proof {
        lemma_lzma_token_props((dict, props), tok@);
    }
    let n = tok.len();
    if n >= 1 && tok[0] == 'd' {
        let rest = sub_chars(tok, 1, n);
        assert(rest@ =~= tok@.skip(1));
        match parse_size_chars(rest.as_slice()) {
            Some(d) => (d, props),
            None => (dict, props),
        }
    } else if n >= 2 && tok[0] == 'l' && (tok[1] == 'c' || tok[1] == 'p') || n >= 2 && tok[0] == 'p'
        && tok[1] == 'b' {
        let rest = sub_chars(tok, 2, n);
        assert(rest@ =~= tok@.skip(2));
        match parse_unsigned_chars(rest.as_slice(), 255) {
            Some(v) => {
                let v8 = v as u8;
                let lc = props % 9;
                let pb_lp = props / 9;
                assert(props - lc <= 216 && pb_lp / 5 <= 4 && pb_lp % 5 <= 4 && lc <= 8)
                    by (nonlinear_arith)
                    requires
                        props <= 224,
                        lc == props % 9,
                        pb_lp == props / 9,
                ;
                let p: u8 = if tok[0] == 'l' && tok[1] == 'c' {
                    (props - lc) + (if v8 < 8 { v8 } else { 8 })
                } else if tok[0] == 'l' {
                    (pb_lp / 5 * 5 + (if v8 < 4 { v8 } else { 4 })) * 9 + lc
                } else {
                    ((if v8 < 4 { v8 } else { 4 }) * 5 + pb_lp % 5) * 9 + lc
                };
                (dict, p)
            },
            None => (dict, props),
        }
    } else {
        (dict, props)
    }
}

fn lzma_settings_exec(params: &[char]) -> (r: (u32, u8))
    ensures
        r == lzma_settings(params@),
{
    let toks = crate::chars::split_chars(params, ':');
    let ghost tv = toks@.map_values(|v: Vec<char>| v@);
    let mut dict: u32 = 0x10_0000;
    let mut props: u8 = 0x5d;
    let mut i: usize = 0;
    assert(tv.skip(0) =~= tv);
    while i < toks.len()
        invariant
            i <= toks.len(),
            tv == toks@.map_values(|v: Vec<char>| v@),
            tv == crate::chars::split_on(params@, ':'),
            props <= 224,
            lzma_fold(tv, (0x10_0000, 0x5d)) == lzma_fold(tv.skip(i as int), (dict, props)),
        decreases toks.len() - i,
    {
        let r = lzma_token_exec(dict, props, toks[i].as_slice());
        proof {
            assert(tv.skip(i as int).drop_first() =~= tv.skip(i + 1));
            assert(tv.skip(i as int)[0] == toks@[i as int]@);
        }
        dict = r.0;
        props = r.1;
        i = i + 1;
    }
    proof {
        assert(tv.skip(i as int) =~= Seq::<Seq<char>>::empty());
    }
    (dict, props)
}

// ----- one stage -----

/// The text of `UnsupportedCompressor` for a failed outside decoder.
pub open spec fn decoder_failed(prefix: Seq<char>, msg: Seq<char>) -> ArcErrorView {
    ArcErrorView::UnsupportedCompressor(prefix + msg)
}

/// A `storing` stage: the bytes themselves, whose length must be
/// `orig` unless that is unknown.
pub open spec fn storing_stage(input: Seq<u8>, orig: u64) -> Result<Seq<u8>, ArcErrorView> {
    if orig != ORIG_SIZE_UNKNOWN && input.len() != orig {
        Err(ArcErrorView::Truncated)
    } else {
        Ok(input)
    }
}

/// An `lzma:<params>` stage.
pub open spec fn lzma_stage(params: Seq<char>, input: Seq<u8>, orig: u64) -> Result<
    Seq<u8>,
    ArcErrorView,
> {
    match lzma_decode(lzma_stream(params, orig, input)) {
        Ok(out) => Ok(out),
        Err(msg) => Err(decoder_failed("lzma decode failed: "@, msg)),
    }
}

/// A `zstd[:N]` stage; the level is an encoder setting.
pub open spec fn zstd_stage(input: Seq<u8>) -> Result<Seq<u8>, ArcErrorView> {
    match zstd_decode(input) {
        Ok(out) => Ok(out),
        Err(msg) => Err(decoder_failed("zstd decode failed: "@, msg)),
    }
}

/// One stage decoded in this library, or `None` for a CLS codec, which
/// needs the plugin host. Anything else is an unsupported compressor.
pub open spec fn native_stage(stage: Seq<char>, input: Seq<u8>, orig: u64) -> Option<
    Result<Seq<u8>, ArcErrorView>,
> {
    if stage == "storing"@ {
        Some(storing_stage(input, orig))
    } else if stage == "lzma"@ {
        Some(lzma_stage(Seq::empty(), input, orig))
    } else if starts_with(stage, "lzma:"@) {
        Some(lzma_stage(stage.skip(5), input, orig))
    } else if stage == "zstd"@ || starts_with(stage, "zstd:"@) {
        Some(zstd_stage(input))
    } else if is_cls_method(stage) {
        None
    } else {
        Some(Err(ArcErrorView::UnsupportedCompressor(stage)))
    }
}

fn decode_lzma(input: &[u8], orig: u64, params: &[char]) -> (r: Result<Vec<u8>, ArcError>)
    ensures
        res_view(r) == lzma_stage(params@, input@, orig),
{
    let (dict, props) = lzma_settings_exec(params);
    let mut wrapped: Vec<u8> = Vec::new();
    wrapped.push(props);
    push_le(&mut wrapped, dict as u64, 4);
    push_le(&mut wrapped, orig, 8);
    let ghost head = wrapped@;
    wrapped.extend_from_slice(input);
    assert(wrapped@ =~= head + input@);
    assert(wrapped@ =~= lzma_stream(params@, orig, input@));
    match lzma_rs_decompress(wrapped.as_slice()) {
        Ok(out) => Ok(out),
        Err(msg) => {
            let mut text = String::from_str("lzma decode failed: ");
            text.append(msg.as_str());
            Err(ArcError::UnsupportedCompressor(text))
        },
    }
}

fn decode_zstd(input: &[u8]) -> (r: Result<Vec<u8>, ArcError>)
    ensures
        res_view(r) == zstd_stage(input@),
{
    match zstd_copy_decode(input) {
        Ok(out) => Ok(out),
        Err(msg) => {
            let mut text = String::from_str("zstd decode failed: ");
            text.append(msg.as_str());
            Err(ArcError::UnsupportedCompressor(text))
        },
    }
}

fn decode_native_stage(stage: &[char], input: &[u8], orig: u64) -> (r: Option<
    Result<Vec<u8>, ArcError>,
>)
    ensures
        match r {
            Some(res) => native_stage(stage@, input@, orig) == Some(res_view(res)),
            None => native_stage(stage@, input@, orig) is None,
        },
{
    if eq_str(stage, "storing") {
        if orig != ORIG_SIZE_UNKNOWN && input.len() as u64 != orig {
            return Some(Err(ArcError::Truncated));
        }
        return Some(Ok(vstd::slice::slice_to_vec(input)));
    }
    if eq_str(stage, "lzma") {
        let params: Vec<char> = Vec::new();
        assert(params@ =~= Seq::<char>::empty());
        return Some(decode_lzma(input, orig, params.as_slice()));
    }
    if starts_with_str(stage, "lzma:") {
        proof {
            reveal_strlit("lzma:");
        }
        let params = sub_chars(stage, 5, stage.len());
        assert(params@ =~= stage@.skip(5));
        return Some(decode_lzma(input, orig, params.as_slice()));
    }
    if eq_str(stage, "zstd") || starts_with_str(stage, "zstd:") {
        return Some(decode_zstd(input));
    }
    if is_cls_chars(stage) {
        return None;
    }
    Some(Err(ArcError::UnsupportedCompressor(crate::bytes::string_from_chars(stage))))
}

// ----- chains -----

/// The stages of a method string in encode order: the `+`-separated
/// pieces, trimmed, or the whole string when there is no `+`.
pub open spec fn method_stages(method: Seq<char>) -> Seq<Seq<char>> {
    if has_char(method, '+') {
        split_on(method, '+').map_values(|p: Seq<char>| trim(p))
    } else {
        seq![method]
    }
}

/// The output size handed to the stage at encode position `idx`: only
/// the first (decoded last) knows it.
pub open spec fn stage_orig(idx: int, orig: u64) -> u64 {
    if idx == 0 {
        orig
    } else {
        ORIG_SIZE_UNKNOWN
    }
}

/// What a plugin host makes of a CLS stage: the stage, its input and its
/// `orig_size` give decoded bytes or an error.
pub type HostFn = spec_fn(Seq<char>, Seq<u8>, u64) -> Result<Seq<u8>, ArcErrorView>;

/// Decoding the first `k` stages of a chain, from the last of them down
/// to the first, starting from `buf`; CLS stages are answered by `host`.
pub open spec fn run_chain(
    stages: Seq<Seq<char>>,
    k: nat,
    buf: Seq<u8>,
    orig: u64,
    host: HostFn,
) -> Result<Seq<u8>, ArcErrorView>
    decreases k,
{
    if k == 0 || k > stages.len() {
        Ok(buf)
    } else {
        let idx = k - 1;
        let o = stage_orig(idx, orig);
        let step = match native_stage(stages[idx], buf, o) {
            Some(r) => r,
            None => host(stages[idx], buf, o),
        };
        match step {
            Ok(next) => run_chain(stages, (k - 1) as nat, next, orig, host),
            Err(e) => Err(e),
        }
    }
}

/// Decoding `input` by `method`, with `host` for the CLS stages.
pub open spec fn decode_with(method: Seq<char>, input: Seq<u8>, orig: u64, host: HostFn) -> Result<
    Seq<u8>,
    ArcErrorView,
> {
    run_chain(method_stages(method), method_stages(method).len(), input, orig, host)
}

/// The error a CLS stage gets when no plugin host is configured.
pub open spec fn host_missing(stage: Seq<char>) -> ArcErrorView {
    ArcErrorView::UnsupportedCompressor(
        stage + ": CELLAR_CLS_HOST not set (point at cellar-freearc-cls-host.exe to enable)"@,
    )
}

/// No plugin host: every CLS stage fails with [`host_missing`].
pub open spec fn no_host() -> HostFn {
    |stage: Seq<char>, b: Seq<u8>, o: u64| Err(host_missing(stage))
}

/// Where decoding stands after running native stages as far as they go.
pub enum ChainProgress {
    /// Decoding ended with this result.
    Done(Result<Seq<u8>, ArcErrorView>),
    /// Stage `k - 1` is a CLS codec, to be run on these bytes.
    Waiting(nat, Seq<u8>),
}

/// Run the first `k` stages from the last down until one needs the
/// plugin host or decoding ends.
pub open spec fn advance(stages: Seq<Seq<char>>, k: nat, buf: Seq<u8>, orig: u64) -> ChainProgress
    decreases k,
{
    if k == 0 || k > stages.len() {
        ChainProgress::Done(Ok(buf))
    } else {
        let idx = k - 1;
        match native_stage(stages[idx], buf, stage_orig(idx, orig)) {
            None => ChainProgress::Waiting(k, buf),
            Some(Ok(next)) => advance(stages, (k - 1) as nat, next, orig),
            Some(Err(e)) => ChainProgress::Done(Err(e)),
        }
    }
}

/// Running native stages until a CLS stage, answering that stage with
/// the host and going on, decodes exactly as the whole chain does: the
/// step-wise [`ChainDecoder`] agrees with [`run_chain`] for every host.
pub proof fn lemma_advance_then_host(
    stages: Seq<Seq<char>>,
    k: nat,
    buf: Seq<u8>,
    orig: u64,
    host: HostFn,
)
    ensures
        run_chain(stages, k, buf, orig, host) == match advance(stages, k, buf, orig) {
            ChainProgress::Done(r) => r,
            ChainProgress::Waiting(j, b) => match host(stages[j - 1], b, stage_orig(j - 1, orig)) {
                Ok(next) => run_chain(stages, (j - 1) as nat, next, orig, host),
                Err(e) => Err(e),
            },
        },
        advance(stages, k, buf, orig) matches ChainProgress::Waiting(j, b) ==> 1 <= j <= k
            && j <= stages.len() && native_stage(stages[j - 1], b, stage_orig(j - 1, orig))
            is None,
    decreases k,
{
    if k == 0 || k > stages.len() {
    } else {
        let idx = k - 1;
        match native_stage(stages[idx], buf, stage_orig(idx, orig)) {
            None => {},
            Some(Ok(next)) => {
                lemma_advance_then_host(stages, (k - 1) as nat, next, orig, host);
            },
            Some(Err(e)) => {},
        }
    }
}

fn stages_of(method: &[char]) -> (r: Vec<Vec<char>>)
    ensures
        r@.map_values(|v: Vec<char>| v@) == method_stages(method@),
{
    if contains_char(method, '+') {
        let parts = split_chars(method, '+');
        let ghost pv = parts@.map_values(|v: Vec<char>| v@);
        let mut out: Vec<Vec<char>> = Vec::new();
        let mut i: usize = 0;
        while i < parts.len()
            invariant
                i <= parts.len(),
                pv == parts@.map_values(|v: Vec<char>| v@),
                out@.map_values(|v: Vec<char>| v@) =~= pv.take(i as int).map_values(
                    |p: Seq<char>| trim(p),
                ),
            decreases parts.len() - i,
        {
            let t = trim_chars(parts[i].as_slice());
            let ghost before = out@.map_values(|v: Vec<char>| v@);
            out.push(t);
            proof {
                assert(pv[i as int] == parts@[i as int]@);
                assert(out@.map_values(|v: Vec<char>| v@) =~= before.push(t@));
                assert(pv.take(i + 1).map_values(|p: Seq<char>| trim(p)) =~= pv.take(
                    i as int,
                ).map_values(|p: Seq<char>| trim(p)).push(trim(pv[i as int])));
            }
            i = i + 1;
        }
        assert(pv.take(i as int) =~= pv);
        out
    } else {
        let whole = sub_chars(method, 0, method.len());
        assert(whole@ =~= method@);
        let out = vec![whole];
        assert(out@.map_values(|v: Vec<char>| v@) =~= seq![method@]);
        out
    }
}

/// One step of decoding, as the caller of a [`ChainDecoder`] sees it.
pub enum DecodeStep {
    /// Stage `method` is a CLS codec: run it on `input` in the plugin
    /// host with `orig_size`, and hand the result to
    /// [`ChainDecoder::resume`].
    NeedHost { method: String, input: Vec<u8>, orig_size: u64 },
    /// Decoding ended with this result.
    Finished(Result<Vec<u8>, ArcError>),
}

/// `step` is what the progress `p` asks of the caller.
pub open spec fn step_shows(step: DecodeStep, stages: Seq<Seq<char>>, orig: u64, p: ChainProgress) -> bool {
    match p {
        ChainProgress::Done(r) => step matches DecodeStep::Finished(res) && res_view(res) == r,
        ChainProgress::Waiting(j, b) => step matches DecodeStep::NeedHost { method, input, orig_size }
            && method@ == stages[j - 1] && input@ == b && orig_size == stage_orig(j - 1, orig),
    }
}

/// A chain being decoded, paused whenever a stage needs the CLS plugin
/// host, which runs outside this library.
pub struct ChainDecoder {
    stages: Vec<Vec<char>>,
    pending: usize,
    orig_size: u64,
}

impl ChainDecoder {
    /// The stages of the method, in encode order.
    pub closed spec fn stages(&self) -> Seq<Seq<char>> {
        self.stages@.map_values(|v: Vec<char>| v@)
    }

    /// When waiting for the host: one more than the index of the stage
    /// it waits for; `0` once decoding has ended.
    pub closed spec fn pending(&self) -> nat {
        self.pending as nat
    }

    /// The expected size of the fully decoded data.
    pub closed spec fn orig(&self) -> u64 {
        self.orig_size
    }

    /// The decoder is waiting for the host to run stage `pending - 1`.
    pub closed spec fn waiting(&self) -> bool {
        1 <= self.pending <= self.stages@.len()
    }

    closed spec fn wf(&self) -> bool {
        self.pending <= self.stages@.len()
    }

    /// Run native stages from the pending one down, until one needs the
    /// host or decoding ends.
    fn run(&mut self, buf: Vec<u8>) -> (step: DecodeStep)
        requires
            old(self).wf(),
        ensures
            final(self).stages() == old(self).stages(),
            final(self).orig() == old(self).orig(),
            final(self).wf(),
            step_shows(step, old(self).stages(), old(self).orig(), advance(old(self).stages(), old(self).pending(), buf@, old(self).orig())),
            step is NeedHost <==> final(self).waiting(),
            advance(old(self).stages(), old(self).pending(), buf@, old(self).orig()) matches ChainProgress::Waiting(j, _)
                ==> final(self).pending() == j,
    {
        let ghost st = self.stages();
        let ghost o0 = self.orig_size;
        let ghost target = advance(st, self.pending as nat, buf@, self.orig_size);
        let mut buf = buf;
        let mut need_host = false;
        let mut failed: Option<ArcError> = None;
        while self.pending > 0 && !need_host
            invariant
                self.stages() == st,
                self.orig_size == o0,
                self.wf(),
                failed matches Some(e) ==> self.pending == 0 && !need_host && target
                    == ChainProgress::Done(Err(e@)),
                !need_host && failed is None ==> advance(st, self.pending as nat, buf@, o0)
                    == target,
                need_host ==> self.pending >= 1 && target == ChainProgress::Waiting(
                    self.pending as nat,
                    buf@,
                ),
            decreases self.pending + (if need_host { 0int } else { 1int }),
        {
            let idx = self.pending - 1;
            let o = if idx == 0 { self.orig_size } else { ORIG_SIZE_UNKNOWN };
            assert(self.stages@[idx as int]@ == st[idx as int]);
            match decode_native_stage(self.stages[idx].as_slice(), buf.as_slice(), o) {
                None => {
                    need_host = true;
                },
                Some(Ok(next)) => {
                    buf = next;
                    self.pending = idx;
                },
                Some(Err(e)) => {
                    self.pending = 0;
                    failed = Some(e);
                },
            }
        }
        if let Some(e) = failed {
            return DecodeStep::Finished(Err(e));
        }
        if need_host {
            let idx = self.pending - 1;
            let o = if idx == 0 { self.orig_size } else { ORIG_SIZE_UNKNOWN };
            assert(self.stages@[idx as int]@ == st[idx as int]);
            let method = crate::bytes::string_from_chars(self.stages[idx].as_slice());
            return DecodeStep::NeedHost { method, input: buf, orig_size: o };
        }
        DecodeStep::Finished(Ok(buf))
    }

    /// Begin decoding `compressed` by `method`, with `orig_size` the
    /// expected size of the decoded data (or [`ORIG_SIZE_UNKNOWN`]).
    /// Native stages run at once; the step returned either ends decoding
    /// or asks for the plugin host.
    pub fn start(method: &str, compressed: &[u8], orig_size: u64) -> (r: (ChainDecoder, DecodeStep))
        ensures
            r.0.stages() == method_stages(method@),
            r.0.orig() == orig_size,
            step_shows(r.1, r.0.stages(), orig_size, advance(r.0.stages(), r.0.stages().len(), compressed@, orig_size)),
            r.1 is NeedHost <==> r.0.waiting(),
            advance(r.0.stages(), r.0.stages().len(), compressed@, orig_size) matches ChainProgress::Waiting(j, _)
                ==> r.0.pending() == j,
    {
        let chars = crate::bytes::str_chars(method);
        let stages = stages_of(chars.as_slice());
        let n = stages.len();
        let mut dec = ChainDecoder { stages, pending: n, orig_size };
        let input = vstd::slice::slice_to_vec(compressed);
        let step = dec.run(input);
        (dec, step)
    }

    /// Whether the decoder waits for the plugin host's result.
    pub fn is_waiting(&self) -> (b: bool)
        ensures
            b == self.waiting(),
    {
        1 <= self.pending && self.pending <= self.stages.len()
    }

    /// Hand over what the plugin host made of the stage asked for, and
    /// go on: an error ends decoding with that error; decoded bytes are
    /// the input of the next stage down.
    pub fn resume(&mut self, host_result: Result<Vec<u8>, ArcError>) -> (step: DecodeStep)
        requires
            old(self).waiting(),
        ensures
            final(self).stages() == old(self).stages(),
            final(self).orig() == old(self).orig(),
            match host_result {
                Err(e) => step matches DecodeStep::Finished(Err(e2)) && e2@ == e@ && !final(self).waiting(),
                Ok(b) => {
                    &&& step_shows(step, old(self).stages(), old(self).orig(), advance(old(self).stages(), (old(self).pending() - 1) as nat, b@, old(self).orig()))
                    &&& (step is NeedHost <==> final(self).waiting())
                    &&& (advance(old(self).stages(), (old(self).pending() - 1) as nat, b@, old(self).orig()) matches ChainProgress::Waiting(j, _)
                        ==> final(self).pending() == j)
                },
            },
    {
        match host_result {
            Err(e) => {
                self.pending = 0;
                DecodeStep::Finished(Err(e))
            },
            Ok(b) => {
                self.pending = self.pending - 1;
                self.run(b)
            },
        }
    }
}

/// The error for a CLS stage when no plugin host is configured.
fn host_missing_error(stage: &str) -> (e: ArcError)
    ensures
        e@ == host_missing(stage@),
{
    let mut text = String::from_str(stage);
    text.append(": CELLAR_CLS_HOST not set (point at cellar-freearc-cls-host.exe to enable)");
    ArcError::UnsupportedCompressor(text)
}

/// Decompress `compressed` according to the FreeArc method string.
/// `orig_size` is the expected decompressed size (or
/// [`ORIG_SIZE_UNKNOWN`]). Native stages are decoded here; a CLS stage
/// fails as it does when no plugin host is configured (drive a
/// [`ChainDecoder`] to run those stages in the host).
pub fn decompress(method: &str, compressed: &[u8], orig_size: u64) -> (r: Result<Vec<u8>, ArcError>)
    ensures
        res_view(r) == decode_with(method@, compressed@, orig_size, no_host()),
{
    let (dec, step) = ChainDecoder::start(method, compressed, orig_size);
    proof {
        lemma_advance_then_host(dec.stages(), dec.stages().len(), compressed@, orig_size, no_host());
    }
    match step {
        DecodeStep::Finished(r) => r,
        DecodeStep::NeedHost { method: stage, input: _, orig_size: _ } => Err(
            host_missing_error(stage.as_str()),
        ),
    }
}

// ----- support levels -----

/// How `decompress` handles a method string.
#[derive(Debug, Clone, Copy, PartialEq, Eq, Structural)]
pub enum SupportLevel {
    /// Decoded in this library.
    Native,
    /// Needs the CLS plugin host and a matching `cls-*.dll`.
    Hybrid,
    /// No decoder at all.
    Unsupported,
}

/// A single method this library decodes itself.
pub open spec fn is_native_method(m: Seq<char>) -> bool {
    ||| m == "storing"@
    ||| m == "lzma"@
    ||| starts_with(m, "lzma:"@)
    ||| m == "zstd"@
    ||| starts_with(m, "zstd:"@)
}

/// The support level of a single (unchained) method.
pub open spec fn single_support(m: Seq<char>) -> SupportLevel {
    if is_native_method(m) {
        SupportLevel::Native
    } else if is_cls_method(m) {
        SupportLevel::Hybrid
    } else {
        SupportLevel::Unsupported
    }
}

/// The weaker of two levels: `Unsupported` below `Hybrid` below `Native`.
pub open spec fn weaker(a: SupportLevel, b: SupportLevel) -> SupportLevel {
    if a == SupportLevel::Unsupported || b == SupportLevel::Unsupported {
        SupportLevel::Unsupported
    } else if a == SupportLevel::Hybrid || b == SupportLevel::Hybrid {
        SupportLevel::Hybrid
    } else {
        SupportLevel::Native
    }
}

/// The weakest level among `stages`.
pub open spec fn chain_support(stages: Seq<Seq<char>>) -> SupportLevel
    decreases stages.len(),
{
    if stages.len() == 0 {
        SupportLevel::Native
    } else {
        weaker(chain_support(stages.drop_last()), single_support(stages.last()))
    }
}

/// The support level of a method string: the weakest of its stages.
pub open spec fn support_of(method: Seq<char>) -> SupportLevel {
    chain_support(method_stages(method))
}

fn stage_support(stage: &[char]) -> (r: SupportLevel)
    ensures
        r == single_support(stage@),
{
    if eq_str(stage, "storing") || eq_str(stage, "lzma") || starts_with_str(stage, "lzma:")
        || eq_str(stage, "zstd") || starts_with_str(stage, "zstd:") {
        SupportLevel::Native
    } else if is_cls_chars(stage) {
        SupportLevel::Hybrid
    } else {
        SupportLevel::Unsupported
    }
}

/// Classify a method string by how it would be handled, without
/// decoding anything. A chain is as weak as its weakest stage.
pub fn support_level(method: &str) -> (r: SupportLevel)
    ensures
        r == support_of(method@),
{
    let chars = crate::bytes::str_chars(method);
    let stages = stages_of(chars.as_slice());
    let ghost sv = stages@.map_values(|v: Vec<char>| v@);
    let mut overall = SupportLevel::Native;
    let mut i: usize = 0;
    while i < stages.len()
        invariant
            i <= stages.len(),
            sv == stages@.map_values(|v: Vec<char>| v@),
            overall == chain_support(sv.take(i as int)),
        decreases stages.len() - i,
    {
        let level = stage_support(stages[i].as_slice());
        proof {
            assert(sv.take(i + 1).drop_last() =~= sv.take(i as int));
            assert(sv.take(i + 1).last() == stages@[i as int]@);
        }
        overall = match level {
            SupportLevel::Unsupported => SupportLevel::Unsupported,
            SupportLevel::Hybrid => if overall == SupportLevel::Unsupported {
                SupportLevel::Unsupported
            } else {
                SupportLevel::Hybrid
            },
            SupportLevel::Native => overall,
        };
        i = i + 1;
    }
    assert(sv.take(i as int) =~= sv);
    overall
}

/// True when `decompress` will at least attempt the method (its level
/// is `Native` or `Hybrid`).
pub fn is_supported(method: &str) -> (b: bool)
    ensures
        b == (support_of(method@) != SupportLevel::Unsupported),
{
    match support_level(method) {
        SupportLevel::Unsupported => false,
        _ => true,
    }
}

proof fn lemma_unsupported_run(
    stages: Seq<Seq<char>>,
    k: nat,
    buf: Seq<u8>,
    orig: u64,
    host: HostFn,
)
    requires
        k <= stages.len(),
        chain_support(stages.take(k as int)) == SupportLevel::Unsupported,
        forall|s: Seq<char>, b: Seq<u8>, o: u64|
            (#[trigger] host(s, b, o)) is Err ==> host(s, b, o)->Err_0 is UnsupportedCompressor,
    ensures
        run_chain(stages, k, buf, orig, host) matches Err(ArcErrorView::UnsupportedCompressor(_)),
    decreases k,
{
    let t = stages.take(k as int);
    if k == 0 {
        assert(t.len() == 0);
    } else {
        let idx = k - 1;
        assert(t.drop_last() =~= stages.take(idx));
        assert(t.last() == stages[idx]);
        let o = stage_orig(idx, orig);
        if single_support(stages[idx]) == SupportLevel::Unsupported {
            assert(native_stage(stages[idx], buf, o) == Some(
                Err::<Seq<u8>, ArcErrorView>(ArcErrorView::UnsupportedCompressor(stages[idx])),
            ));
        } else {
            assert(chain_support(stages.take(idx)) == SupportLevel::Unsupported);
            if idx == 0 {
                assert(stages.take(0).len() == 0);
            }
            assert(o == ORIG_SIZE_UNKNOWN);
            match native_stage(stages[idx], buf, o) {
                Some(Ok(next)) => {
                    lemma_unsupported_run(stages, idx as nat, next, orig, host);
                },
                Some(Err(e)) => {
                    assert(e is UnsupportedCompressor);
                },
                None => {
                    assert(host(stages[idx], buf, o) is Err ==> host(stages[idx], buf, o)->Err_0 is UnsupportedCompressor);
                    if let Ok(next) = host(stages[idx], buf, o) {
                        lemma_unsupported_run(stages, idx as nat, next, orig, host);
                    }
                },
            }
        }
    }
}

/// A method whose support level is `Unsupported` never decodes: it fails
/// with `UnsupportedCompressor` whatever the input, as long as the host
/// reports its own failures that way too (as the missing host does).
pub proof fn lemma_unsupported_never_decodes(
    method: Seq<char>,
    input: Seq<u8>,
    orig: u64,
    host: HostFn,
)
    requires
        support_of(method) == SupportLevel::Unsupported,
        forall|s: Seq<char>, b: Seq<u8>, o: u64|
            (#[trigger] host(s, b, o)) is Err ==> host(s, b, o)->Err_0 is UnsupportedCompressor,
    ensures
        decode_with(method, input, orig, host) matches Err(ArcErrorView::UnsupportedCompressor(_)),
{
    let st = method_stages(method);
    assert(st.take(st.len() as int) =~= st);
    lemma_unsupported_run(st, st.len(), input, orig, host);
}

// ----- checksums -----

/// One bit of the reflected CRC-32 shift register (polynomial
/// `0xEDB88320`).
pub open spec fn crc_bit(c: u32) -> u32 {
    if c & 1 == 1 {
        (c >> 1) ^ 0xEDB8_8320
    } else {
        c >> 1
    }
}

pub open spec fn crc_bits(c: u32, n: nat) -> u32
    decreases n,
{
    if n == 0 {
        c
    } else {
        crc_bits(crc_bit(c), (n - 1) as nat)
    }
}

/// The register after feeding `data`, least significant bit first.
pub open spec fn crc_update(c: u32, data: Seq<u8>) -> u32
    decreases data.len(),
{
    if data.len() == 0 {
        c
    } else {
        crc_update(crc_bits(c ^ (data[0] as u32), 8), data.drop_first())
    }
}

/// CRC-32 (IEEE 802.3, the pkzip checksum) of `data`.
pub open spec fn crc32_ieee(data: Seq<u8>) -> u32 {
    !crc_update(0xFFFF_FFFF, data)
}

/// CRC-32 over a byte slice, by `crc32fast::hash`; trusted to compute the
/// IEEE CRC-32 that crate's documentation names.
#[verifier::external_body]
pub fn crc32(data: &[u8]) -> (c: u32)
    ensures
        c == crc32_ieee(data@),
{
    crc32fast::hash(data)
}

// ----- laws of chains -----

/// `trim_start` keeps only characters of `s`.
proof fn lemma_trim_start_absent(s: Seq<char>, c: char)
    requires
        !has_char(s, c),
    ensures
        !has_char(trim_start(s), c),
    decreases s.len(),
{
    if s.len() > 0 && is_ws(s[0]) {
        assert forall|i: int| 0 <= i < s.drop_first().len() implies s.drop_first()[i] != c by {
            assert(s.drop_first()[i] == s[i + 1]);
        }
        lemma_trim_start_absent(s.drop_first(), c);
    }
}

/// `trim_end` keeps only characters of `s`.
proof fn lemma_trim_end_absent(s: Seq<char>, c: char)
    requires
        !has_char(s, c),
    ensures
        !has_char(trim_end(s), c),
    decreases s.len(),
{
    if s.len() > 0 && is_ws(s.last()) {
        assert forall|i: int| 0 <= i < s.drop_last().len() implies s.drop_last()[i] != c by {
            assert(s.drop_last()[i] == s[i]);
        }
        lemma_trim_end_absent(s.drop_last(), c);
    }
}

/// No piece of `split_on(s, c)` holds `c`.
proof fn lemma_split_pieces_absent(s: Seq<char>, c: char)
    ensures
        forall|j: int| 0 <= j < split_on(s, c).len() ==> !has_char(#[trigger] split_on(s, c)[j], c),
    decreases s.len(),
{
    lemma_find_from(s, c, 0);
    match find_from(s, c, 0) {
        None => {},
        Some(i) => {
            if 0 <= i < s.len() {
                let rest = s.subrange(i + 1, s.len() as int);
                lemma_split_pieces_absent(rest, c);
                let head = s.subrange(0, i);
                assert forall|k: int| 0 <= k < head.len() implies head[k] != c by {
                    assert(head[k] == s[k]);
                }
                assert forall|j: int| 0 <= j < split_on(s, c).len() implies !has_char(
                    #[trigger] split_on(s, c)[j],
                    c,
                ) by {
                    if j > 0 {
                        assert(split_on(s, c)[j] == split_on(rest, c)[j - 1]);
                    }
                }
            }
        },
    }
}

/// The stages of a chain hold no `+`, so each is a method of one stage.
proof fn lemma_stages_single(method: Seq<char>)
    requires
        has_char(method, '+'),
    ensures
        forall|i: int| 0 <= i < method_stages(method).len() ==> method_stages(
            #[trigger] method_stages(method)[i],
        ) == seq![method_stages(method)[i]],
{
    lemma_split_pieces_absent(method, '+');
    let pieces = split_on(method, '+');
    assert forall|i: int| 0 <= i < method_stages(method).len() implies method_stages(
        #[trigger] method_stages(method)[i],
    ) == seq![method_stages(method)[i]] by {
        assert(!has_char(pieces[i], '+'));
        lemma_trim_start_absent(pieces[i], '+');
        lemma_trim_end_absent(trim_start(pieces[i]), '+');
        assert(method_stages(method)[i] == trim(pieces[i]));
    }
}

/// Decoding the first `k` of `stages` one after the other, each by
/// itself as a method: the last first, each stage's output the next
/// one's input, the first error ending it, and only the first stage
/// (decoded last) told the original size.
pub open spec fn decode_stages(
    stages: Seq<Seq<char>>,
    k: nat,
    buf: Seq<u8>,
    orig: u64,
    host: HostFn,
) -> Result<Seq<u8>, ArcErrorView>
    decreases k,
{
    if k == 0 || k > stages.len() {
        Ok(buf)
    } else {
        match decode_with(stages[k - 1], buf, stage_orig(k - 1, orig), host) {
            Ok(next) => decode_stages(stages, (k - 1) as nat, next, orig, host),
            Err(e) => Err(e),
        }
    }
}

proof fn lemma_run_is_decode_stages(
    stages: Seq<Seq<char>>,
    k: nat,
    buf: Seq<u8>,
    orig: u64,
    host: HostFn,
)
    requires
        forall|i: int| 0 <= i < stages.len() ==> method_stages(#[trigger] stages[i]) == seq![stages[i]],
    ensures
        run_chain(stages, k, buf, orig, host) == decode_stages(stages, k, buf, orig, host),
    decreases k,
{
    if k > 0 && k <= stages.len() {
        let s = stages[k - 1];
        let o = stage_orig(k - 1, orig);
        assert(method_stages(s) == seq![s]);
        assert(stage_orig(0, o) == o);
        reveal_with_fuel(run_chain, 2);
        let step = match native_stage(s, buf, o) {
            Some(r) => r,
            None => host(s, buf, o),
        };
        assert(decode_with(s, buf, o, host) == match step {
            Ok(next) => Ok(next),
            Err(e) => Err(e),
        });
        match step {
            Ok(next) => lemma_run_is_decode_stages(stages, (k - 1) as nat, next, orig, host),
            Err(_) => {},
        }
    }
}

/// A chain `a+b+...` decodes right to left: the last stage first, each
/// stage decoding the previous one's output as a method of its own, the
/// first error returned, and only the leftmost stage given `orig`.
/// `decompress` is this with no plugin host.
pub proof fn lemma_chain_right_to_left(method: Seq<char>, input: Seq<u8>, orig: u64, host: HostFn)
    requires
        has_char(method, '+'),
    ensures
        decode_with(method, input, orig, host) == decode_stages(
            method_stages(method),
            method_stages(method).len(),
            input,
            orig,
            host,
        ),
{
    lemma_stages_single(method);
    lemma_run_is_decode_stages(method_stages(method), method_stages(method).len(), input, orig, host);
}

proof fn lemma_chain_support_cases(stages: Seq<Seq<char>>)
    ensures
        chain_support(stages) == SupportLevel::Unsupported <==> exists|i: int|
            0 <= i < stages.len() && single_support(#[trigger] stages[i]) == SupportLevel::Unsupported,
        chain_support(stages) == SupportLevel::Native <==> forall|i: int|
            0 <= i < stages.len() ==> single_support(#[trigger] stages[i]) == SupportLevel::Native,
    decreases stages.len(),
{
    if stages.len() > 0 {
        let pre = stages.drop_last();
        lemma_chain_support_cases(pre);
        assert(forall|i: int| 0 <= i < pre.len() ==> pre[i] == stages[i]);
        if exists|i: int| 0 <= i < stages.len() && single_support(#[trigger] stages[i]) == SupportLevel::Unsupported {
            let i = choose|i: int| 0 <= i < stages.len() && single_support(#[trigger] stages[i]) == SupportLevel::Unsupported;
            if i < pre.len() {
                assert(single_support(pre[i]) == SupportLevel::Unsupported);
            }
        }
        if chain_support(stages) != SupportLevel::Native {
            if single_support(stages.last()) != SupportLevel::Native {
                assert(single_support(stages[stages.len() - 1]) != SupportLevel::Native);
            } else {
                let i = choose|i: int| 0 <= i < pre.len() && !(single_support(#[trigger] pre[i]) == SupportLevel::Native);
                assert(single_support(stages[i]) != SupportLevel::Native);
            }
        }
    }
}

/// The support level of a chain is the weakest of its stages' levels:
/// `Unsupported` if any stage is, else `Hybrid` if any stage needs the
/// plugin host, else `Native`.
pub proof fn lemma_chain_support_weakest(method: Seq<char>)
    requires
        has_char(method, '+'),
    ensures
        support_of(method) == SupportLevel::Unsupported <==> exists|i: int|
            0 <= i < method_stages(method).len() && support_of(#[trigger] method_stages(method)[i])
                == SupportLevel::Unsupported,
        support_of(method) == SupportLevel::Native <==> forall|i: int|
            0 <= i < method_stages(method).len() ==> support_of(#[trigger] method_stages(method)[i])
                == SupportLevel::Native,
{
    let st = method_stages(method);
    lemma_stages_single(method);
    lemma_chain_support_cases(st);
    assert forall|i: int| 0 <= i < st.len() implies support_of(#[trigger] st[i]) == single_support(st[i]) by {
        assert(method_stages(st[i]) == seq![st[i]]);
        assert(seq![st[i]].drop_last() =~= Seq::<Seq<char>>::empty());
        reveal_with_fuel(chain_support, 2);
    }
}

} // verus!
