//! Diagnostic scripts: bottle inspection and crash-report bundling.
//!
//! The scripts themselves are run by the caller; this module turns how
//! they ended into results: a failed run's error, and the path of the
//! crash-report archive that the script names in its output.

use vstd::prelude::*;
use vstd::string::StringExecFns;

use crate::bytes::{str_chars, string_from_chars, string_from_utf8_lossy, text_of};
use crate::cellar::wine::lines_of;
use crate::chars::{find_sub_from, find_text, rfind_sub, rfind_text, split_chars, trim, trim_chars};

verus! {

/// Why a diagnostic script could not give its report.
#[derive(Debug)]
pub enum ToolError {
    ScriptMissing { script: String },
    SpawnFailed { message: String },
    ScriptFailed { code: Option<i32>, stderr: String },
}

pub enum ToolErrorView {
    ScriptMissing { script: Seq<char> },
    SpawnFailed { message: Seq<char> },
    ScriptFailed { code: Option<i32>, stderr: Seq<char> },
}

impl View for ToolError {
    type V = ToolErrorView;

    open spec fn view(&self) -> ToolErrorView {
        match self {
            ToolError::ScriptMissing { script } => ToolErrorView::ScriptMissing { script: script@ },
            ToolError::SpawnFailed { message } => ToolErrorView::SpawnFailed { message: message@ },
            ToolError::ScriptFailed { code, stderr } => ToolErrorView::ScriptFailed {
                code: *code,
                stderr: stderr@,
            },
        }
    }
}

/// A bundled crash report.
#[derive(Debug)]
pub struct CrashReport {
    /// The `.zip` the script made, as named on its "Crash report:" line;
    /// `None` when no such line was found.
    pub zip_path: Option<String>,
    /// The script's whole output.
    pub log: String,
}

/// A script that exited with `code` and wrote `stderr`: its error,
/// with the error output trimmed.
pub fn script_failed(code: Option<i32>, stderr: &[u8]) -> (r: ToolError)
    ensures
        r@ == (ToolErrorView::ScriptFailed { code, stderr: trim(text_of(stderr@)) }),
{
    let e = string_from_utf8_lossy(stderr);
    let cs = str_chars(e.as_str());
    let t = trim_chars(cs.as_slice());
    ToolError::ScriptFailed { code, stderr: string_from_chars(t.as_slice()) }
}

/// The marker that precedes the archive's path in the script's output.
pub open spec fn marker() -> Seq<char> {
    "Crash report: "@
}

/// The archive path a line names: what follows the marker, without a
/// trailing " (<size>)" and trimmed; `None` without the marker or when
/// nothing is left.
pub open spec fn zip_path_in_line(line: Seq<char>) -> Option<Seq<char>> {
    match find_sub_from(line, marker(), 0) {
        None => None,
        Some(i) => {
            let rest = line.subrange(i + marker().len(), line.len() as int);
            let path = match rfind_sub(rest, " ("@) {
                Some(j) => rest.subrange(0, j),
                None => rest,
            };
            if trim(path).len() == 0 {
                None
            } else {
                Some(trim(path))
            }
        },
    }
}

/// The path named by the first line that names one.
pub open spec fn first_zip_path(lines: Seq<Seq<char>>) -> Option<Seq<char>>
    decreases lines.len(),
{
    if lines.len() == 0 {
        None
    } else {
        match zip_path_in_line(lines[0]) {
            Some(p) => Some(p),
            None => first_zip_path(lines.drop_first()),
        }
    }
}

fn zip_path_of_line(line: &[char], mk: &[char], tail: &[char]) -> (r: Option<Vec<char>>)
    requires
        mk@ == marker(),
        tail@ == " ("@,
    ensures
        match zip_path_in_line(line@) {
            Some(p) => r matches Some(v) && v@ == p,
            None => r is None,
        },
{
    let n = line.len();
    match find_text(line, mk) {
        None => None,
        Some(i) => {
            proof {
                lemma_find_sub_range(line@, marker(), 0);
                assert(i + mk@.len() <= line@.len());
            }
            let rest = crate::chars::sub_chars(line, i + mk.len(), n);
            let path = match rfind_text(rest.as_slice(), tail) {
                Some(j) => {
                    proof {
                        lemma_rfind_sub_range(rest@, tail@, rest@.len() - tail@.len());
                    }
                    crate::chars::sub_chars(rest.as_slice(), 0, j)
                },
                None => rest,
            };
            let t = trim_chars(path.as_slice());
            if t.len() == 0 {
                None
            } else {
                Some(t)
            }
        },
    }
}

proof fn lemma_find_sub_range(s: Seq<char>, p: Seq<char>, i: int)
    ensures
        find_sub_from(s, p, i) matches Some(j) ==> 0 <= j && j + p.len() <= s.len(),
    decreases s.len() + 1 - i,
{
    if !(i < 0 || i + p.len() > s.len()) && !crate::chars::occurs_at(s, p, i) {
        lemma_find_sub_range(s, p, i + 1);
    }
}

proof fn lemma_rfind_sub_range(s: Seq<char>, p: Seq<char>, i: int)
    ensures
        crate::chars::rfind_sub_to(s, p, i) matches Some(j) ==> 0 <= j && j + p.len() <= s.len(),
    decreases i + 1,
{
    if i >= 0 && !crate::chars::occurs_at(s, p, i) {
        lemma_rfind_sub_range(s, p, i - 1);
    }
}

/// The crash-report archive named in the script's output `log`.
pub fn crash_zip_path(log: &str) -> (r: Option<String>)
    ensures
        match first_zip_path(lines_of(log@)) {
            Some(p) => r matches Some(s) && s@ == p,
            None => r is None,
        },
{
    let mk = str_chars("Crash report: ");
    let tail = str_chars(" (");
    let lines = crate::cellar::wine::text_lines(log);
    let ghost lv = lines@.map_values(|v: Vec<char>| v@);
    let mut i: usize = 0;
    assert(lv.subrange(0, lv.len() as int) =~= lv);
    while i < lines.len()
        invariant
            i <= lines.len(),
            lv == lines@.map_values(|v: Vec<char>| v@),
            lv == lines_of(log@),
            mk@ == marker(),
            tail@ == " ("@,
            first_zip_path(lv) == first_zip_path(lv.subrange(i as int, lv.len() as int)),
        decreases lines.len() - i,
    {
        let ghost rest = lv.subrange(i as int, lv.len() as int);
        assert(rest.drop_first() =~= lv.subrange(i + 1, lv.len() as int));
        assert(rest[0] == lines@[i as int]@);
        match zip_path_of_line(lines[i].as_slice(), mk.as_slice(), tail.as_slice()) {
            Some(p) => {
                return Some(string_from_chars(p.as_slice()));
            },
            None => {},
        }
        i = i + 1;
    }
    None
}

/// The crash report for a script run that printed `log`.
pub fn crash_report(log: String) -> (r: CrashReport)
    ensures
        r.log@ == log@,
        match first_zip_path(lines_of(log@)) {
            Some(p) => r.zip_path matches Some(s) && s@ == p,
            None => r.zip_path is None,
        },
{
    let zip_path = crash_zip_path(log.as_str());
    CrashReport { zip_path, log }
}

} // verus!
