//! Per-bottle D3DMetal version pinning.
//!
//! A chosen version is written to `~/.cellar/bottles/<id>/d3dmetal-version`,
//! which the launch script reads; "default" (or nothing) means the
//! runtime's own D3DMetal. This module holds the file's place, what its
//! contents mean, and what pinning a version does to it; reading,
//! writing and removing the file are the caller's.

use vstd::prelude::*;
use vstd::string::StringExecFns;

use crate::bytes::{str_chars, string_from_chars};
use crate::cellar::prereq::texts_view;
use crate::cellar::wine::{bottle_dir_in, bottle_dir_under, joined, path_join};
use crate::chars::{eq_str, is_ws, trim, trim_chars, trim_end, trim_start};

verus! {

/// Why a D3DMetal operation failed.
#[derive(Debug)]
pub enum D3DMetalError {
    NoHome,
    BottleMissing { id: String },
    Io { message: String },
}

/// The pin file of bottle `id` for the home directory `home`.
pub fn pin_path_in(home: &str, id: &str) -> (r: String)
    ensures
        r@ == joined(bottle_dir_under(home@, id@), "d3dmetal-version"@),
{
    let d = bottle_dir_in(home, id);
    path_join(d.as_str(), "d3dmetal-version")
}

/// Where user-installed D3DMetal frameworks live, one directory per
/// version, for the home directory `home`.
pub fn frameworks_dir_in(home: &str) -> (r: String)
    ensures
        r@ == joined(joined(home@, ".cellar"@), "d3dmetal"@),
{
    let c = path_join(home, ".cellar");
    path_join(c.as_str(), "d3dmetal")
}

/// The version a pin file holding `contents` pins: its trimmed text,
/// unless that is empty or "default" (the runtime's own).
pub open spec fn pinned_of(contents: Seq<char>) -> Option<Seq<char>> {
    let v = trim(contents);
    if v.len() == 0 || v == "default"@ {
        None
    } else {
        Some(v)
    }
}

/// The version pinned by a pin file holding `contents`.
pub fn pinned_version(contents: &str) -> (r: Option<String>)
    ensures
        match pinned_of(contents@) {
            Some(v) => r matches Some(s) && s@ == v,
            None => r is None,
        },
{
    let cs = str_chars(contents);
    let v = trim_chars(cs.as_slice());
    if v.len() == 0 || eq_str(v.as_slice(), "default") {
        None
    } else {
        Some(string_from_chars(v.as_slice()))
    }
}

proof fn lemma_trim_start_head(s: Seq<char>)
    ensures
        trim_start(s).len() > 0 ==> !is_ws(trim_start(s)[0]),
    decreases s.len(),
{
    if s.len() > 0 && is_ws(s[0]) {
        lemma_trim_start_head(s.drop_first());
    }
}

proof fn lemma_trim_end_prefix(s: Seq<char>)
    ensures
        trim_end(s).len() <= s.len(),
        trim_end(s) == s.subrange(0, trim_end(s).len() as int),
        trim_end(s).len() > 0 ==> !is_ws(trim_end(s).last()),
    decreases s.len(),
{
    if s.len() > 0 && is_ws(s.last()) {
        lemma_trim_end_prefix(s.drop_last());
        assert(s.drop_last().subrange(0, trim_end(s).len() as int) =~= s.subrange(
            0,
            trim_end(s).len() as int,
        ));
    } else {
        assert(s.subrange(0, s.len() as int) =~= s);
    }
}

/// Pinning a version and reading the pin file back gives the version,
/// trimmed. (Pinning " default " writes "default", which reads back as
/// no pin; that input is left out.)
pub proof fn lemma_pin_then_read(version: Seq<char>)
    requires
        trim(version).len() > 0,
        trim(version) != "default"@,
    ensures
        pinned_of(trim(version).push('\n')) == Some(trim(version)),
{
    let t = trim(version);
    let u = trim_start(version);
    lemma_trim_start_head(version);
    lemma_trim_end_prefix(u);
    assert(t[0] == u[0]);
    let w = t.push('\n');
    assert(w[0] == t[0]);
    assert(trim_start(w) == w);
    assert(is_ws('\n'));
    assert(w.drop_last() =~= t);
    assert(trim_end(w) == trim_end(t));
    lemma_trim_end_prefix(t);
    assert(trim_end(t) == t);
}

/// What pinning a version does to the pin file.
#[derive(Debug)]
pub enum PinAction {
    /// Remove the file (a missing file is fine): back to the default.
    Remove,
    /// Write the file with these contents.
    Write { contents: String },
}

/// Pinning `version` removes the pin when it is blank or exactly
/// "default", and otherwise writes the trimmed version and a newline.
pub fn pin_action(version: &str) -> (r: PinAction)
    ensures
        (trim(version@).len() == 0 || version@ == "default"@) ==> r is Remove,
        !(trim(version@).len() == 0 || version@ == "default"@) ==> (r matches PinAction::Write {
            contents,
        } && contents@ == trim(version@).push('\n')),
{
    let cs = str_chars(version);
    let v = trim_chars(cs.as_slice());
    if v.len() == 0 || eq_str(cs.as_slice(), "default") {
        PinAction::Remove
    } else {
        let mut s = string_from_chars(v.as_slice());
        crate::bytes::string_push(&mut s, '\n');
        PinAction::Write { contents: s }
    }
}

/// The versions a bottle can be pinned to: "default", then each
/// user-installed framework.
pub fn version_choices(installed: Vec<String>) -> (r: Vec<String>)
    ensures
        texts_view(r@) == seq!["default"@] + texts_view(installed@),
{
    let mut r: Vec<String> = Vec::new();
    r.push(String::from_str("default"));
    let mut i: usize = 0;
    while i < installed.len()
        invariant
            i <= installed.len(),
            texts_view(r@) =~= seq!["default"@] + texts_view(installed@).subrange(0, i as int),
        decreases installed.len() - i,
    {
        let ghost before = texts_view(r@);
        r.push(installed[i].clone());
        assert(texts_view(r@) =~= before.push(installed@[i as int]@));
        assert(texts_view(installed@).subrange(0, i + 1) =~= texts_view(installed@).subrange(
            0,
            i as int,
        ).push(installed@[i as int]@));
        i = i + 1;
    }
    assert(texts_view(installed@).subrange(0, i as int) =~= texts_view(installed@));
    r
}

} // verus!
