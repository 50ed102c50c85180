//! Recognising repack installers.
//!
//! A folder holding a FitGirl, DODI or KaOs repack, a plain Inno Setup
//! installer or an MSI package is recognised from the names of its
//! top-level entries; the installer `.exe` to run is the best-ranked
//! `setup*.exe` / `install*.exe` file found there. Listing the folder
//! and running the installer are the caller's.

use vstd::prelude::*;
use vstd::string::StringExecFns;

use crate::bytes::str_chars;
use crate::cellar::profiles::{contains_str, has_substring, to_lowercase, unicode_lower};
use crate::chars::{ends_with, ends_with_str, starts_with, starts_with_str, eq_str};

verus! {

/// Why detecting or running an installer failed.
#[derive(Debug)]
pub enum InstallerError {
    NotFound { path: String },
    WineMissing,
    BottleError { message: String },
    SpawnFailed { message: String },
}

/// The kind of installer a folder holds.
#[derive(Debug, Clone, Copy, PartialEq, Eq, Structural)]
pub enum InstallerKind {
    FitGirl,
    Dodi,
    Kaos,
    InnoSetup,
    Msi,
    Unknown,
}

/// What a folder was found to hold.
#[derive(Debug)]
pub struct DetectResult {
    pub kind: InstallerKind,
    /// The installer to run, by its full path.
    pub setup_exe: Option<String>,
    /// Why the folder got its kind (e.g. "found fitgirl-bins").
    pub hints: Vec<String>,
}

pub struct DetectResultView {
    pub kind: InstallerKind,
    pub setup_exe: Option<Seq<char>>,
    pub hints: Seq<Seq<char>>,
}

impl View for DetectResult {
    type V = DetectResultView;

    open spec fn view(&self) -> DetectResultView {
        DetectResultView {
            kind: self.kind,
            setup_exe: match self.setup_exe {
                Some(s) => Some(s@),
                None => None,
            },
            hints: self.hints@.map_values(|h: String| h@),
        }
    }
}

/// One top-level entry of the folder looked at.
pub struct RootEntry {
    /// The entry's file name.
    pub name: String,
    /// The entry's full path.
    pub path: String,
    /// A regular file (not a directory).
    pub is_file: bool,
}

pub struct RootEntryView {
    pub name: Seq<char>,
    pub path: Seq<char>,
    pub is_file: bool,
}

impl View for RootEntry {
    type V = RootEntryView;

    open spec fn view(&self) -> RootEntryView {
        RootEntryView { name: self.name@, path: self.path@, is_file: self.is_file }
    }
}

pub open spec fn entries_view(e: Seq<RootEntry>) -> Seq<RootEntryView> {
    e.map_values(|x: RootEntry| x@)
}

/// Rank of an installer by its lower-cased file name; lower wins.
/// Sub-installers that the main wizard chains to rank last, plain
/// `setup.exe` first, then FitGirl's selective and multi-language
/// wizards, other `setup*` names, `install.exe` and other `install*`.
pub open spec fn priority_of(n: Seq<char>) -> u32 {
    if has_substring(n, "language"@) || has_substring(n, "redist"@) || has_substring(
        n,
        "vcredist"@,
    ) {
        100
    } else if n == "setup.exe"@ {
        0
    } else if starts_with(n, "setup-fitgirl-selective"@) {
        1
    } else if starts_with(n, "setup-multi"@) {
        2
    } else if starts_with(n, "setup"@) {
        3
    } else if n == "install.exe"@ {
        4
    } else if starts_with(n, "install"@) {
        5
    } else {
        99
    }
}

/// Rank of the installer file `name` (its file name, any case).
pub fn installer_exe_priority(name: &str) -> (r: u32)
    ensures
        r == priority_of(unicode_lower(name@)),
{
    let lower = to_lowercase(name);
    let l = str_chars(lower.as_str());
    if contains_str(l.as_slice(), "language") || contains_str(l.as_slice(), "redist")
        || contains_str(l.as_slice(), "vcredist") {
        return 100;
    }
    if eq_str(l.as_slice(), "setup.exe") {
        return 0;
    }
    if starts_with_str(l.as_slice(), "setup-fitgirl-selective") {
        return 1;
    }
    if starts_with_str(l.as_slice(), "setup-multi") {
        return 2;
    }
    if starts_with_str(l.as_slice(), "setup") {
        return 3;
    }
    if eq_str(l.as_slice(), "install.exe") {
        return 4;
    }
    if starts_with_str(l.as_slice(), "install") {
        return 5;
    }
    99
}

/// A regular file named `setup*.exe` or `install*.exe`, ignoring case.
pub open spec fn is_setup_candidate(e: RootEntryView) -> bool {
    let l = unicode_lower(e.name);
    e.is_file && ends_with(l, ".exe"@) && (starts_with(l, "setup"@) || starts_with(l, "install"@))
}

/// The installer to pick among `entries`: the candidate of lowest rank,
/// the earliest listed among equals; `None` when there is no candidate.
pub open spec fn best_setup(entries: Seq<RootEntryView>) -> Option<int>
    decreases entries.len(),
{
    if entries.len() == 0 {
        None
    } else {
        let before = best_setup(entries.drop_last());
        let last = entries.len() - 1;
        if !is_setup_candidate(entries[last]) {
            before
        } else {
            match before {
                None => Some(last),
                Some(j) => if priority_of(unicode_lower(entries[last].name)) < priority_of(
                    unicode_lower(entries[j].name),
                ) {
                    Some(last)
                } else {
                    Some(j)
                },
            }
        }
    }
}

proof fn lemma_best_setup_range(entries: Seq<RootEntryView>)
    ensures
        best_setup(entries) matches Some(i) ==> 0 <= i < entries.len() && is_setup_candidate(
            entries[i],
        ),
    decreases entries.len(),
{
    if entries.len() > 0 {
        lemma_best_setup_range(entries.drop_last());
    }
}

/// The installer picked is a candidate of the lowest rank among all
/// candidates, and every candidate listed before it ranks strictly
/// worse; when none is picked, the folder holds no candidate.
pub proof fn lemma_best_setup_is_best(entries: Seq<RootEntryView>)
    ensures
        best_setup(entries) matches Some(i) ==> {
            &&& 0 <= i < entries.len()
            &&& is_setup_candidate(entries[i])
            &&& forall|j: int|
                0 <= j < entries.len() && is_setup_candidate(#[trigger] entries[j]) ==> priority_of(
                    unicode_lower(entries[i].name),
                ) <= priority_of(unicode_lower(entries[j].name))
            &&& forall|j: int|
                0 <= j < i && is_setup_candidate(#[trigger] entries[j]) ==> priority_of(
                    unicode_lower(entries[j].name),
                ) > priority_of(unicode_lower(entries[i].name))
        },
        best_setup(entries) is None ==> forall|j: int|
            0 <= j < entries.len() ==> !is_setup_candidate(#[trigger] entries[j]),
    decreases entries.len(),
{
    if entries.len() > 0 {
        let prev = entries.drop_last();
        let last = entries.len() - 1;
        lemma_best_setup_is_best(prev);
        assert forall|j: int| 0 <= j < prev.len() implies #[trigger] prev[j] == entries[j] by {}
        let pr = |e: RootEntryView| priority_of(unicode_lower(e.name));
        if !is_setup_candidate(entries[last]) {
            match best_setup(prev) {
                Some(i) => {
                    assert forall|j: int|
                        0 <= j < entries.len() && is_setup_candidate(
                            #[trigger] entries[j],
                        ) implies pr(entries[i]) <= pr(entries[j]) by {
                        assert(j < last);
                        assert(prev[j] == entries[j]);
                    }
                    assert forall|j: int| 0 <= j < i && is_setup_candidate(
                        #[trigger] entries[j],
                    ) implies pr(entries[j]) > pr(entries[i]) by {
                        assert(prev[j] == entries[j]);
                    }
                },
                None => {
                    assert forall|j: int| 0 <= j < entries.len() implies !is_setup_candidate(
                        #[trigger] entries[j],
                    ) by {
                        if j < last {
                            assert(prev[j] == entries[j]);
                        }
                    }
                },
            }
        } else {
            match best_setup(prev) {
                None => {
                    assert forall|j: int|
                        0 <= j < entries.len() && is_setup_candidate(
                            #[trigger] entries[j],
                        ) implies pr(entries[last]) <= pr(entries[j]) by {
                        if j < last {
                            assert(prev[j] == entries[j]);
                            assert(!is_setup_candidate(prev[j]));
                        }
                    }
                    assert forall|j: int| 0 <= j < last && is_setup_candidate(
                        #[trigger] entries[j],
                    ) implies pr(entries[j]) > pr(entries[last]) by {
                        assert(prev[j] == entries[j]);
                        assert(!is_setup_candidate(prev[j]));
                    }
                },
                Some(i) => {
                    if pr(entries[last]) < pr(entries[i]) {
                        assert forall|j: int|
                            0 <= j < entries.len() && is_setup_candidate(
                                #[trigger] entries[j],
                            ) implies pr(entries[last]) <= pr(entries[j]) by {
                            if j < last {
                                assert(prev[j] == entries[j]);
                                assert(pr(prev[i]) <= pr(prev[j]));
                            }
                        }
                        assert forall|j: int| 0 <= j < last && is_setup_candidate(
                            #[trigger] entries[j],
                        ) implies pr(entries[j]) > pr(entries[last]) by {
                            assert(prev[j] == entries[j]);
                            assert(pr(prev[i]) <= pr(prev[j]));
                        }
                    } else {
                        assert forall|j: int|
                            0 <= j < entries.len() && is_setup_candidate(
                                #[trigger] entries[j],
                            ) implies pr(entries[i]) <= pr(entries[j]) by {
                            if j < last {
                                assert(prev[j] == entries[j]);
                                assert(pr(prev[i]) <= pr(prev[j]));
                            }
                        }
                        assert forall|j: int| 0 <= j < i && is_setup_candidate(
                            #[trigger] entries[j],
                        ) implies pr(entries[j]) > pr(entries[i]) by {
                            assert(prev[j] == entries[j]);
                        }
                    }
                },
            }
        }
    }
}

fn is_candidate(e: &RootEntry) -> (r: bool)
    ensures
        r == is_setup_candidate(e@),
{
    if !e.is_file {
        return false;
    }
    let lower = to_lowercase(e.name.as_str());
    let l = str_chars(lower.as_str());
    ends_with_str(l.as_slice(), ".exe") && (starts_with_str(l.as_slice(), "setup")
        || starts_with_str(l.as_slice(), "install"))
}

/// Index of the installer to run among the folder's entries.
pub fn find_setup_exe(entries: &[RootEntry]) -> (r: Option<usize>)
    ensures
        match best_setup(entries_view(entries@)) {
            Some(i) => r matches Some(j) && j == i,
            None => r is None,
        },
{
    let ghost ev = entries_view(entries@);
    let mut best: Option<usize> = None;
    let mut best_rank: u32 = 0;
    let mut i: usize = 0;
    while i < entries.len()
        invariant
            i <= entries.len(),
            ev == entries_view(entries@),
            match best_setup(ev.subrange(0, i as int)) {
                Some(k) => best matches Some(j) && j == k && best_rank == priority_of(
                    unicode_lower(ev[k].name),
                ),
                None => best is None,
            },
        decreases entries.len() - i,
    {
        proof {
            let s = ev.subrange(0, i + 1);
            assert(s.drop_last() =~= ev.subrange(0, i as int));
            assert(s[i as int] == ev[i as int]);
            lemma_best_setup_range(ev.subrange(0, i as int));
            if let Some(k) = best_setup(ev.subrange(0, i as int)) {
                assert(s[k] == ev[k]);
            }
        }
        if is_candidate(&entries[i]) {
            let rank = installer_exe_priority(entries[i].name.as_str());
            match best {
                None => {
                    best = Some(i);
                    best_rank = rank;
                },
                Some(_) => {
                    if rank < best_rank {
                        best = Some(i);
                        best_rank = rank;
                    }
                },
            }
        }
        i = i + 1;
    }
    assert(ev.subrange(0, i as int) =~= ev);
    best
}

/// The kind an entry's lower-cased name points to, if any.
pub open spec fn hint_kind(l: Seq<char>) -> Option<InstallerKind> {
    if has_substring(l, "fitgirl"@) || starts_with(l, "fg-"@) {
        Some(InstallerKind::FitGirl)
    } else if l == "dodi-bins"@ || starts_with(l, "dodi"@) {
        Some(InstallerKind::Dodi)
    } else if starts_with(l, "kaos"@) {
        Some(InstallerKind::Kaos)
    } else {
        None
    }
}

/// Kind and hints from the entry names, in order: each telling entry
/// adds the hint "found <name>" (lower-cased) and the last one decides.
pub open spec fn scan_hints(names: Seq<Seq<char>>) -> (InstallerKind, Seq<Seq<char>>)
    decreases names.len(),
{
    if names.len() == 0 {
        (InstallerKind::Unknown, Seq::empty())
    } else {
        let (k, h) = scan_hints(names.drop_last());
        let l = unicode_lower(names.last());
        match hint_kind(l) {
            Some(k2) => (k2, h.push("found "@ + l)),
            None => (k, h),
        }
    }
}

/// With no repack recognised, the installer's own name may tell: an
/// `.msi` package, or an Inno Setup wizard named like a setup program.
pub open spec fn refine_kind(k: InstallerKind, setup_name: Option<Seq<char>>) -> InstallerKind {
    if k != InstallerKind::Unknown {
        k
    } else {
        match setup_name {
            None => InstallerKind::Unknown,
            Some(n) => {
                let l = unicode_lower(n);
                if ends_with(l, ".msi"@) {
                    InstallerKind::Msi
                } else if has_substring(l, "setup"@) || has_substring(l, "install"@) {
                    InstallerKind::InnoSetup
                } else {
                    InstallerKind::Unknown
                }
            },
        }
    }
}

/// The file name `n` has the extension `exe` (as `Path::extension`:
/// a name that is only a dot and the extension has none).
pub open spec fn has_exe_extension(n: Seq<char>) -> bool {
    ends_with(n, ".exe"@) && n.len() > 4
}

/// The installer picked, by path and file name: the best candidate in
/// the folder, else the path looked at itself when it names an `.exe`.
pub open spec fn setup_choice(
    entries: Seq<RootEntryView>,
    given_path: Seq<char>,
    given_name: Seq<char>,
) -> Option<(Seq<char>, Seq<char>)> {
    match best_setup(entries) {
        Some(i) => Some((entries[i].path, entries[i].name)),
        None => if has_exe_extension(given_name) {
            Some((given_path, given_name))
        } else {
            None
        },
    }
}

/// What detection reports for a folder with `entries`, looked at
/// through `given_path` (the folder, or a file in it) named `given_name`.
pub open spec fn detection(
    entries: Seq<RootEntryView>,
    given_path: Seq<char>,
    given_name: Seq<char>,
) -> DetectResultView {
    let (k, hints) = scan_hints(entries.map_values(|e: RootEntryView| e.name));
    let choice = setup_choice(entries, given_path, given_name);
    DetectResultView {
        kind: refine_kind(
            k,
            match choice {
                Some(c) => Some(c.1),
                None => None,
            },
        ),
        setup_exe: match choice {
            Some(c) => Some(c.0),
            None => None,
        },
        hints,
    }
}

fn kind_of_name(name: &str) -> (r: (Option<InstallerKind>, String))
    ensures
        r.0 == hint_kind(unicode_lower(name@)),
        r.1@ == unicode_lower(name@),
{
    let lower = to_lowercase(name);
    let l = str_chars(lower.as_str());
    let k = if contains_str(l.as_slice(), "fitgirl") || starts_with_str(l.as_slice(), "fg-") {
        Some(InstallerKind::FitGirl)
    } else if eq_str(l.as_slice(), "dodi-bins") || starts_with_str(l.as_slice(), "dodi") {
        Some(InstallerKind::Dodi)
    } else if starts_with_str(l.as_slice(), "kaos") {
        Some(InstallerKind::Kaos)
    } else {
        None
    };
    (k, lower)
}

fn refine(k: InstallerKind, setup_name: Option<&str>) -> (r: InstallerKind)
    ensures
        r == refine_kind(
            k,
            match setup_name {
                Some(n) => Some(n@),
                None => None,
            },
        ),
{
    if k != InstallerKind::Unknown {
        return k;
    }
    match setup_name {
        None => InstallerKind::Unknown,
        Some(n) => {
            let lower = to_lowercase(n);
            let l = str_chars(lower.as_str());
            if ends_with_str(l.as_slice(), ".msi") {
                InstallerKind::Msi
            } else if contains_str(l.as_slice(), "setup") || contains_str(l.as_slice(), "install") {
                InstallerKind::InnoSetup
            } else {
                InstallerKind::Unknown
            }
        },
    }
}

/// Recognise the installer in a folder from its top-level `entries`.
/// `given_path` is what the user pointed at (the folder, or a file in
/// it) and `given_name` its file name.
pub fn detect_installer(entries: &[RootEntry], given_path: &str, given_name: &str) -> (r:
    DetectResult)
    ensures
        r@ == detection(entries_view(entries@), given_path@, given_name@),
{
    let ghost ev = entries_view(entries@);
    let ghost names = ev.map_values(|e: RootEntryView| e.name);
    let mut kind = InstallerKind::Unknown;
    let mut hints: Vec<String> = Vec::new();
    let mut i: usize = 0;
    while i < entries.len()
        invariant
            i <= entries.len(),
            ev == entries_view(entries@),
            names == ev.map_values(|e: RootEntryView| e.name),
            scan_hints(names.subrange(0, i as int)) == (
                kind,
                hints@.map_values(|h: String| h@),
            ),
        decreases entries.len() - i,
    {
        proof {
            let s = names.subrange(0, i + 1);
            assert(s.drop_last() =~= names.subrange(0, i as int));
            assert(s.last() == entries@[i as int].name@);
        }
        let (k, lower) = kind_of_name(entries[i].name.as_str());
        match k {
            Some(k2) => {
                let ghost before = hints@.map_values(|h: String| h@);
                let hint = String::from_str("found ").concat(lower.as_str());
                hints.push(hint);
                kind = k2;
                assert(hints@.map_values(|h: String| h@) =~= before.push("found "@ + lower@));
            },
            None => {},
        }
        i = i + 1;
    }
    assert(names.subrange(0, i as int) =~= names);
    let given_chars = str_chars(given_name);
    let found = find_setup_exe(entries);
    let (setup_exe, kind) = match found {
        Some(j) => {
            proof {
                lemma_best_setup_range(ev);
            }
            (
                Some(entries[j].path.clone()),
                refine(kind, Some(entries[j].name.as_str())),
            )
        },
        None => {
            if ends_with_str(given_chars.as_slice(), ".exe") && given_chars.len() > 4 {
                (Some(String::from_str(given_path)), refine(kind, Some(given_name)))
            } else {
                (None, refine(kind, None))
            }
        },
    };
    DetectResult { kind, setup_exe, hints }
}

/// How an installer is run in a bottle: inside Wine's virtual desktop
/// (so installers that need a parent window get one), with an Inno
/// Setup log on C:, audio off and Wine's log cut down to errors.
pub struct InstallerCommand {
    pub program: String,
    pub args: Vec<String>,
    pub env: Vec<(String, String)>,
}

/// The arguments Wine runs `installer` with.
pub open spec fn installer_args_of(installer: Seq<char>) -> Seq<Seq<char>> {
    seq!["explorer"@, "/desktop=cellar-installer,1280x720"@, installer, "/LOG=C:\\cellar-install.log"@]
}

/// The environment an installer runs with in the prefix `prefix`.
pub open spec fn installer_env_of(prefix: Seq<char>) -> Seq<(Seq<char>, Seq<char>)> {
    seq![("WINEPREFIX"@, prefix), ("WINEAUDIODRIVER"@, Seq::empty()), ("WINEDEBUG"@, "-all,err+seh"@)]
}

/// The command that runs `installer` with `wine_bin` in `prefix`.
pub fn installer_command(wine_bin: &str, prefix: &str, installer: &str) -> (r: InstallerCommand)
    ensures
        r.program@ == wine_bin@,
        r.args@.map_values(|a: String| a@) == installer_args_of(installer@),
        r.env@.map_values(|e: (String, String)| (e.0@, e.1@)) == installer_env_of(prefix@),
{
    let mut args: Vec<String> = Vec::new();
    args.push(String::from_str("explorer"));
    args.push(String::from_str("/desktop=cellar-installer,1280x720"));
    args.push(String::from_str(installer));
    args.push(String::from_str("/LOG=C:\\cellar-install.log"));
    let mut env: Vec<(String, String)> = Vec::new();
    env.push((String::from_str("WINEPREFIX"), String::from_str(prefix)));
    let empty = String::new();
    env.push((String::from_str("WINEAUDIODRIVER"), empty));
    env.push((String::from_str("WINEDEBUG"), String::from_str("-all,err+seh")));
    assert(args@.map_values(|a: String| a@) =~= installer_args_of(installer@));
    assert(env@.map_values(|e: (String, String)| (e.0@, e.1@)) =~= installer_env_of(prefix@));
    InstallerCommand { program: String::from_str(wine_bin), args, env }
}


proof fn lemma_no_hints_unknown(names: Seq<Seq<char>>)
    requires
        forall|k: int| 0 <= k < names.len() ==> hint_kind(unicode_lower(#[trigger] names[k])) is None,
    ensures
        scan_hints(names).0 == InstallerKind::Unknown,
    decreases names.len(),
{
    if names.len() > 0 {
        assert(forall|k: int| 0 <= k < names.drop_last().len() ==> names.drop_last()[k] == names[k]);
        lemma_no_hints_unknown(names.drop_last());
        assert(hint_kind(unicode_lower(names[names.len() - 1])) is None);
    }
}

/// With no entry name hinting at a repack, the installer's own name
/// decides the kind: an installer whose lower-cased name ends in `.msi`
/// is an MSI package; otherwise one whose lower-cased name contains
/// "setup" or "install" is an Inno Setup wizard; otherwise the kind is
/// unknown. The installer found is reported either way.
pub proof fn lemma_kind_from_setup_name(
    entries: Seq<RootEntryView>,
    given_path: Seq<char>,
    given_name: Seq<char>,
    path: Seq<char>,
    name: Seq<char>,
)
    requires
        forall|k: int| 0 <= k < entries.len() ==> hint_kind(unicode_lower(#[trigger] entries[k].name)) is None,
        setup_choice(entries, given_path, given_name) == Some((path, name)),
    ensures
        detection(entries, given_path, given_name).setup_exe == Some(path),
        ends_with(unicode_lower(name), ".msi"@) ==> detection(entries, given_path, given_name).kind
            == InstallerKind::Msi,
        !ends_with(unicode_lower(name), ".msi"@) && (has_substring(unicode_lower(name), "setup"@)
            || has_substring(unicode_lower(name), "install"@)) ==> detection(
            entries,
            given_path,
            given_name,
        ).kind == InstallerKind::InnoSetup,
        !ends_with(unicode_lower(name), ".msi"@) && !has_substring(unicode_lower(name), "setup"@)
            && !has_substring(unicode_lower(name), "install"@) ==> detection(
            entries,
            given_path,
            given_name,
        ).kind == InstallerKind::Unknown,
{
    let names = entries.map_values(|e: RootEntryView| e.name);
    assert forall|k: int| 0 <= k < names.len() implies hint_kind(unicode_lower(#[trigger] names[k])) is None by {
        assert(names[k] == entries[k].name);
    }
    lemma_no_hints_unknown(names);
}


proof fn lemma_last_hint_decides(names: Seq<Seq<char>>, j: int)
    requires
        0 <= j < names.len(),
        hint_kind(unicode_lower(names[j])) is Some,
        forall|k: int| j < k < names.len() ==> hint_kind(unicode_lower(#[trigger] names[k])) is None,
    ensures
        Some(scan_hints(names).0) == hint_kind(unicode_lower(names[j])),
    decreases names.len(),
{
    if j < names.len() - 1 {
        let pre = names.drop_last();
        assert(forall|k: int| 0 <= k < pre.len() ==> pre[k] == names[k]);
        assert(hint_kind(unicode_lower(names[names.len() - 1])) is None);
        lemma_last_hint_decides(pre, j);
    }
}

/// A repack recognised by an entry's name decides the kind, whatever
/// the installer is called: the last entry whose lower-cased name hints
/// at a repack (FitGirl, DODI, KaOs) gives it.
pub proof fn lemma_repack_hint_decides(
    entries: Seq<RootEntryView>,
    given_path: Seq<char>,
    given_name: Seq<char>,
    j: int,
)
    requires
        0 <= j < entries.len(),
        hint_kind(unicode_lower(entries[j].name)) is Some,
        forall|k: int| j < k < entries.len() ==> hint_kind(unicode_lower(#[trigger] entries[k].name)) is None,
    ensures
        Some(detection(entries, given_path, given_name).kind) == hint_kind(unicode_lower(entries[j].name)),
{
    let names = entries.map_values(|e: RootEntryView| e.name);
    assert forall|k: int| j < k < names.len() implies hint_kind(unicode_lower(#[trigger] names[k])) is None by {
        assert(names[k] == entries[k].name);
    }
    assert(names[j] == entries[j].name);
    lemma_last_hint_decides(names, j);
    assert(scan_hints(names).0 != InstallerKind::Unknown) by {
        assert(hint_kind(unicode_lower(names[j])) != Some(InstallerKind::Unknown));
    }
}

} // verus!
