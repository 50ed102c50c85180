//! Recognition of the closed-source FreeArc CLS plugin codecs, whose
//! decoding runs in a plugin host outside this library.

use vstd::prelude::*;
use vstd::string::StrSliceExecFns;

use vstd::string::StringExecFns;

use crate::bytes::{str_chars, string_from_chars, string_from_utf8_lossy, text_of};
use crate::chars::{trim, trim_chars};
use crate::error::{dec_text, int_text, ArcError, ArcErrorView};
use crate::chars::{
    contains_char, eq_str, find_char, has_char, lemma_find_from, split_once, split_once_chars,
};

verus! {

/// Codec names that live in a `cls-<name>.dll` plugin.
pub open spec fn is_known_cls(codec: Seq<char>) -> bool {
    ||| codec == "lolzi"@
    ||| codec == "lolzx"@
    ||| codec == "lolly"@
    ||| codec == "lollypop"@
    ||| codec == "lollypop2"@
    ||| codec == "srep"@
    ||| codec == "delta"@
    ||| codec == "dispack"@
    ||| codec == "dispack070"@
    ||| codec == "msc"@
}

/// The codec name of a method string: everything before its first `:`.
pub open spec fn codec_of(method: Seq<char>) -> Seq<char> {
    match split_once(method, ':') {
        Some((codec, _)) => codec,
        None => method,
    }
}

/// The parameters of a method string: everything after its first `:`.
pub open spec fn params_of(method: Seq<char>) -> Seq<char> {
    match split_once(method, ':') {
        Some((_, params)) => params,
        None => Seq::empty(),
    }
}

/// A single (unchained) call of a known CLS codec.
pub open spec fn is_cls_method(method: Seq<char>) -> bool {
    !has_char(method, '+') && is_known_cls(codec_of(method))
}

/// Split a method string on its first `:` into `(codec, params)`;
/// without a `:` the params are empty.
pub fn split_codec<'a>(method: &'a str) -> (r: (&'a str, &'a str))
    ensures
        r.0@ == codec_of(method@),
        r.1@ == params_of(method@),
{
    let cs = str_chars(method);
    match find_char(cs.as_slice(), ':', 0) {
        Some(i) => {
            proof {
                lemma_find_from(method@, ':', 0);
            }
            let codec = method.substring_char(0, i);
            let params = method.substring_char(i + 1, cs.len());
            (codec, params)
        },
        None => {
            proof {
                reveal_strlit("");
            }
            (method, "")
        },
    }
}

/// Whether `codec` names one of the known CLS plugins.
fn known_cls_codec(c: &[char]) -> (b: bool)
    ensures
        b == is_known_cls(c@),
{
    eq_str(c, "lolzi") || eq_str(c, "lolzx") || eq_str(c, "lolly") || eq_str(c, "lollypop")
        || eq_str(c, "lollypop2") || eq_str(c, "srep") || eq_str(c, "delta") || eq_str(
        c,
        "dispack",
    ) || eq_str(c, "dispack070") || eq_str(c, "msc")
}

/// [`looks_like_cls`] over the characters of a method string.
pub fn is_cls_chars(method: &[char]) -> (b: bool)
    ensures
        b == is_cls_method(method@),
{
    if contains_char(method, '+') {
        return false;
    }
    match split_once_chars(method, ':') {
        Some((codec, _)) => known_cls_codec(codec.as_slice()),
        None => known_cls_codec(method),
    }
}

/// True when `method` is a single CLS codec call (no chain) for a plugin
/// name we recognise.
pub fn looks_like_cls(method: &str) -> (b: bool)
    ensures
        b == is_cls_method(method@),
{
    let cs = str_chars(method);
    is_cls_chars(cs.as_slice())
}

/// What `str::to_uppercase` makes of a text (full Unicode upper-casing).
pub uninterp spec fn unicode_upper(s: Seq<char>) -> Seq<char>;

/// `str::to_uppercase`; trusted to give `unicode_upper(s)`.
#[verifier::external_body]
fn to_uppercase(s: &str) -> (r: String)
    ensures
        r@ == unicode_upper(s@),
{
    s.to_uppercase()
}

/// The plugin file names tried for `codec`, in order: plugin sets ship
/// with mixed casing, so both prefixes with the name as given and in
/// upper case.
pub open spec fn dll_names_of(codec: Seq<char>) -> Seq<Seq<char>> {
    seq![
        "cls-"@ + codec + ".dll"@,
        "CLS-"@ + codec + ".dll"@,
        "cls-"@ + unicode_upper(codec) + ".dll"@,
        "CLS-"@ + unicode_upper(codec) + ".dll"@,
    ]
}

/// The plugin file names tried for `codec`, in order.
pub fn dll_candidates(codec: &str) -> (r: Vec<String>)
    ensures
        r@.map_values(|s: String| s@) == dll_names_of(codec@),
{
    let up = to_uppercase(codec);
    let mut r: Vec<String> = Vec::new();
    r.push(String::from_str("cls-").concat(codec).concat(".dll"));
    r.push(String::from_str("CLS-").concat(codec).concat(".dll"));
    r.push(String::from_str("cls-").concat(up.as_str()).concat(".dll"));
    r.push(String::from_str("CLS-").concat(up.as_str()).concat(".dll"));
    assert(r@.map_values(|s: String| s@) =~= dll_names_of(codec@));
    r
}

/// The error when the plugin host, run for `method`, exited with
/// `code`: the code and the host's trimmed error output ("no stderr"
/// when there is none).
pub open spec fn host_exit_error(method: Seq<char>, code: i32, stderr: Seq<u8>) -> ArcErrorView {
    let t = trim(text_of(stderr));
    ArcErrorView::UnsupportedCompressor(
        method + ": cls host exited "@ + int_text(code as int) + " ("@ + (if t.len() == 0 {
            "no stderr"@
        } else {
            t
        }) + ")"@,
    )
}

/// The error for a plugin host run for `method` that exited with `code`.
pub fn host_exited(method: &str, code: i32, stderr: &[u8]) -> (r: ArcError)
    ensures
        r@ == host_exit_error(method@, code, stderr@),
{
    let e = string_from_utf8_lossy(stderr);
    let cs = str_chars(e.as_str());
    let t = trim_chars(cs.as_slice());
    let detail = if t.len() == 0 {
        String::from_str("no stderr")
    } else {
        string_from_chars(t.as_slice())
    };
    let c = dec_text(code as i64);
    ArcError::UnsupportedCompressor(
        String::from_str(method).concat(": cls host exited ").concat(c.as_str()).concat(" (").concat(
            detail.as_str(),
        ).concat(")"),
    )
}

/// The error when the plugin host is not set up for `method`: the
/// environment variable `var` is missing, with a hint of what it names.
pub fn host_not_configured(method: &str, var: &str, hint: &str) -> (r: ArcError)
    ensures
        r@ == ArcErrorView::UnsupportedCompressor(method@ + ": "@ + var@ + " not set ("@ + hint@ + ")"@),
{
    ArcError::UnsupportedCompressor(
        String::from_str(method).concat(": ").concat(var).concat(" not set (").concat(hint).concat(
            ")",
        ),
    )
}

/// How `{:?}` shows a list of texts: each quoted and escaped, separated
/// by ", ", in brackets.
pub open spec fn debug_list(items: Seq<Seq<char>>) -> Seq<char> {
    seq!['['] + crate::cellar::wine::join_with(items.map_values(|s: Seq<char>| crate::error::debug_text(s)), ", "@) + seq![']']
}

/// The error when none of the plugin files `tried` for `codec` exists in
/// the plugin directory `dir`.
pub fn no_plugin_error(method: &str, codec: &str, dir: &str, tried: &[String]) -> (r: ArcError)
    ensures
        r@ == ArcErrorView::UnsupportedCompressor(
            method@ + ": no cls-"@ + codec@ + ".dll in CELLAR_CLS_DIR ("@ + dir@ + "), tried "@ + debug_list(
                tried@.map_values(|s: String| s@),
            ),
        ),
{
    let ghost tv = tried@.map_values(|s: String| s@);
    let ghost dv = tv.map_values(|s: Seq<char>| crate::error::debug_text(s));
    let mut list = String::from_str("[");
    let ghost start = list@;
    let mut i: usize = 0;
    while i < tried.len()
        invariant
            i <= tried.len(),
            tv == tried@.map_values(|s: String| s@),
            dv == tv.map_values(|s: Seq<char>| crate::error::debug_text(s)),
            list@ == start + crate::cellar::wine::join_with(dv.subrange(0, i as int), ", "@),
        decreases tried.len() - i,
    {
        let ghost sub = dv.subrange(0, i + 1);
        assert(sub.drop_last() =~= dv.subrange(0, i as int));
        if i > 0 {
            list.append(", ");
        }
        let q = crate::error::debug_quoted(tried[i].as_str());
        list.append(q.as_str());
        proof {
            assert(dv[i as int] == crate::error::debug_text(tried@[i as int]@));
            if i == 0 {
                assert(crate::cellar::wine::join_with(dv.subrange(0, 0), ", "@) =~= Seq::<char>::empty());
                assert(list@ =~= start + crate::cellar::wine::join_with(sub, ", "@));
            } else {
                assert(list@ =~= start + crate::cellar::wine::join_with(dv.subrange(0, i as int), ", "@)
                    + ", "@ + dv[i as int]);
            }
        }
        i = i + 1;
    }
    assert(dv.subrange(0, i as int) =~= dv);
    list.append("]");
    proof {
        reveal_strlit("[");
        reveal_strlit("]");
        assert(start =~= seq!['[']);
        assert(list@ =~= debug_list(tv));
    }
    ArcError::UnsupportedCompressor(
        String::from_str(method).concat(": no cls-").concat(codec).concat(
            ".dll in CELLAR_CLS_DIR (",
        ).concat(dir).concat("), tried ").concat(list.as_str()),
    )
}

} // verus!
