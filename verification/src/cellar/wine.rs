//! Wine bottles.
//!
//! A bottle is a Wine prefix plus a small metadata file, laid out under
//! the user's home as `~/.cellar/bottles/<id>/bottle.json` and
//! `~/.cellar/bottles/<id>/prefix/`. This module holds that layout, the
//! rules for which executables in a bottle are worth offering as game
//! launchers and in what order, the environment `winetricks` runs with,
//! and the summaries of a failed `wineboot`. Creating, listing and
//! deleting bottles on disk, and running Wine, are the caller's.

use vstd::prelude::*;
use vstd::string::StringExecFns;

use crate::bytes::{str_chars, string_from_chars, string_from_utf8_lossy, text_of};
use crate::cellar::order::{order_desc, stable_order_desc};
use crate::cellar::prereq::texts_view;
use crate::cellar::profiles::{to_lowercase, unicode_lower};
use crate::chars::{ends_with, ends_with_str, eq_str, split_chars, split_on, starts_with, starts_with_str};

verus! {

/// Why a bottle operation failed.
#[derive(Debug)]
pub enum WineError {
    HomeNotFound,
    AlreadyExists { id: String },
    NotFound { id: String },
    IoError { message: String },
    SpawnFailed { message: String },
}

pub enum WineErrorView {
    HomeNotFound,
    AlreadyExists { id: Seq<char> },
    NotFound { id: Seq<char> },
    IoError { message: Seq<char> },
    SpawnFailed { message: Seq<char> },
}

impl View for WineError {
    type V = WineErrorView;

    open spec fn view(&self) -> WineErrorView {
        match self {
            WineError::HomeNotFound => WineErrorView::HomeNotFound,
            WineError::AlreadyExists { id } => WineErrorView::AlreadyExists { id: id@ },
            WineError::NotFound { id } => WineErrorView::NotFound { id: id@ },
            WineError::IoError { message } => WineErrorView::IoError { message: message@ },
            WineError::SpawnFailed { message } => WineErrorView::SpawnFailed { message: message@ },
        }
    }
}

/// A bottle's metadata.
#[derive(Debug, Clone)]
pub struct Bottle {
    pub id: String,
    pub name: String,
    /// Windows version reported to the guest: "win10", "win11", "win7", ...
    pub windows_version: String,
    /// Creation time, milliseconds since the Unix epoch.
    pub created_ms: u128,
    /// Absolute path of the Wine prefix; derived from the id, not stored.
    pub prefix_path: String,
}

pub struct BottleView {
    pub id: Seq<char>,
    pub name: Seq<char>,
    pub windows_version: Seq<char>,
    pub created_ms: u128,
    pub prefix_path: Seq<char>,
}

impl View for Bottle {
    type V = BottleView;

    open spec fn view(&self) -> BottleView {
        BottleView {
            id: self.id@,
            name: self.name@,
            windows_version: self.windows_version@,
            created_ms: self.created_ms,
            prefix_path: self.prefix_path@,
        }
    }
}

impl Bottle {
    /// An independent copy.
    pub fn duplicate(&self) -> (b: Bottle)
        ensures
            b@ == self@,
    {
        Bottle {
            id: self.id.clone(),
            name: self.name.clone(),
            windows_version: self.windows_version.clone(),
            created_ms: self.created_ms,
            prefix_path: self.prefix_path.clone(),
        }
    }
}

/// An executable found in a bottle that may be a game's launcher.
#[derive(Debug, Clone)]
pub struct ExeCandidate {
    pub path: String,
    pub name: String,
    pub parent_dir: String,
    pub size: u64,
    pub modified_ms: u128,
}

pub struct ExeCandidateView {
    pub path: Seq<char>,
    pub name: Seq<char>,
    pub parent_dir: Seq<char>,
    pub size: u64,
    pub modified_ms: u128,
}

impl View for ExeCandidate {
    type V = ExeCandidateView;

    open spec fn view(&self) -> ExeCandidateView {
        ExeCandidateView {
            path: self.path@,
            name: self.name@,
            parent_dir: self.parent_dir@,
            size: self.size,
            modified_ms: self.modified_ms,
        }
    }
}

impl ExeCandidate {
    /// An independent copy.
    pub fn duplicate(&self) -> (c: ExeCandidate)
        ensures
            c@ == self@,
    {
        ExeCandidate {
            path: self.path.clone(),
            name: self.name.clone(),
            parent_dir: self.parent_dir.clone(),
            size: self.size,
            modified_ms: self.modified_ms,
        }
    }
}

/// `part` appended to the path `base`, as `Path::join` does on Unix: an
/// absolute `part` replaces `base`, and a separator is put between them
/// unless `base` is empty or already ends with one.
pub open spec fn joined(base: Seq<char>, part: Seq<char>) -> Seq<char> {
    if part.len() > 0 && part[0] == '/' {
        part
    } else if base.len() == 0 || base.last() == '/' {
        base + part
    } else {
        base + "/"@ + part
    }
}

/// `part` appended to the path `base` (see [`joined`]).
pub fn path_join(base: &str, part: &str) -> (r: String)
    ensures
        r@ == joined(base@, part@),
{
    let b = str_chars(base);
    let p = str_chars(part);
    if p.len() > 0 && p[0] == '/' {
        return String::from_str(part);
    }
    if b.len() == 0 || b[b.len() - 1] == '/' {
        String::from_str(base).concat(part)
    } else {
        String::from_str(base).concat("/").concat(part)
    }
}

/// The directory of bottle `id` for a user whose home is `home`.
pub open spec fn bottle_dir_under(home: Seq<char>, id: Seq<char>) -> Seq<char> {
    joined(joined(joined(home, ".cellar"@), "bottles"@), id)
}

/// The directory of bottle `id` under the home directory `home`.
pub fn bottle_dir_in(home: &str, id: &str) -> (r: String)
    ensures
        r@ == bottle_dir_under(home@, id@),
{
    let c = path_join(home, ".cellar");
    let b = path_join(c.as_str(), "bottles");
    path_join(b.as_str(), id)
}

/// The metadata file of bottle `id` under the home directory `home`.
pub fn bottle_metadata_in(home: &str, id: &str) -> (r: String)
    ensures
        r@ == joined(bottle_dir_under(home@, id@), "bottle.json"@),
{
    let d = bottle_dir_in(home, id);
    path_join(d.as_str(), "bottle.json")
}

/// The Wine prefix of bottle `id` under the home directory `home`.
pub fn bottle_prefix_in(home: &str, id: &str) -> (r: String)
    ensures
        r@ == joined(bottle_dir_under(home@, id@), "prefix"@),
{
    let d = bottle_dir_in(home, id);
    path_join(d.as_str(), "prefix")
}

/// `directories::BaseDirs::new()` and its `home_dir()`: the user's home
/// directory, or `None` when none can be found. It depends on the
/// environment, so nothing is stated of it.
#[verifier::external_body]
fn home_dir() -> (r: Option<String>) {
    directories::BaseDirs::new().map(|d| d.home_dir().to_string_lossy().into_owned())
}

/// The directory of bottle `id` in the current user's home.
pub fn bottle_dir(id: &str) -> (r: Result<String, WineError>)
    ensures
        r matches Ok(p) ==> exists|h: Seq<char>| p@ == bottle_dir_under(h, id@),
        r matches Err(e) ==> e@ == WineErrorView::HomeNotFound,
{
    match home_dir() {
        None => Err(WineError::HomeNotFound),
        Some(h) => Ok(bottle_dir_in(h.as_str(), id)),
    }
}

/// The metadata file of bottle `id` in the current user's home.
pub fn bottle_metadata_path(id: &str) -> (r: Result<String, WineError>)
    ensures
        r matches Ok(p) ==> exists|h: Seq<char>| p@ == joined(bottle_dir_under(h, id@), "bottle.json"@),
        r matches Err(e) ==> e@ == WineErrorView::HomeNotFound,
{
    match home_dir() {
        None => Err(WineError::HomeNotFound),
        Some(h) => Ok(bottle_metadata_in(h.as_str(), id)),
    }
}

/// The Wine prefix of bottle `id` in the current user's home.
pub fn bottle_prefix_path(id: &str) -> (r: Result<String, WineError>)
    ensures
        r matches Ok(p) ==> exists|h: Seq<char>| p@ == joined(bottle_dir_under(h, id@), "prefix"@),
        r matches Err(e) ==> e@ == WineErrorView::HomeNotFound,
{
    match home_dir() {
        None => Err(WineError::HomeNotFound),
        Some(h) => Ok(bottle_prefix_in(h.as_str(), id)),
    }
}

/// A fresh bottle's metadata, before its prefix path is filled in.
pub fn new_bottle(id: String, name: String, windows_version: String, created_ms: u128) -> (b:
    Bottle)
    ensures
        b@ == (BottleView {
            id: id@,
            name: name@,
            windows_version: windows_version@,
            created_ms,
            prefix_path: Seq::empty(),
        }),
{
    Bottle { id, name, windows_version, created_ms, prefix_path: String::new() }
}

/// `std::time::SystemTime::now()` as milliseconds since the Unix epoch
/// (0 for a clock set before it). It reads the clock, so nothing is
/// stated of it.
#[verifier::external_body]
pub(crate) fn now_ms() -> (r: u128) {
    std::time::SystemTime::now().duration_since(std::time::UNIX_EPOCH).map(|d| d.as_millis()).unwrap_or(0)
}

/// The DXVK DLLs copied into bottles (D3D10, D3D11 and DXGI).
pub open spec fn dxvk_dll_names() -> Seq<Seq<char>> {
    seq!["d3d10core.dll"@, "d3d11.dll"@, "dxgi.dll"@]
}

/// The DXVK DLLs copied into bottles.
pub fn dxvk_dlls() -> (r: Vec<String>)
    ensures
        r@.map_values(|s: String| s@) == dxvk_dll_names(),
{
    let mut r: Vec<String> = Vec::new();
    r.push(String::from_str("d3d10core.dll"));
    r.push(String::from_str("d3d11.dll"));
    r.push(String::from_str("dxgi.dll"));
    assert(r@.map_values(|s: String| s@) =~= dxvk_dll_names());
    r
}

/// Directories of a bottle's C: drive never searched for launchers
/// (lower-cased names).
pub open spec fn uninteresting_dir(l: Seq<char>) -> bool {
    l == "windows"@ || l == "programdata"@ || l == "$recycle.bin"@ || l == "users"@ || l
        == "documents and settings"@ || l == "system volume information"@
}

/// The directory `name` is skipped when looking for launchers.
pub fn is_uninteresting_dir(name: &str) -> (r: bool)
    ensures
        r == uninteresting_dir(unicode_lower(name@)),
{
    let lower = to_lowercase(name);
    let l = str_chars(lower.as_str());
    let l = l.as_slice();
    eq_str(l, "windows") || eq_str(l, "programdata") || eq_str(l, "$recycle.bin") || eq_str(
        l,
        "users",
    ) || eq_str(l, "documents and settings") || eq_str(l, "system volume information")
}

/// Executables shipped with Wine or dropped by installers as helpers
/// (lower-cased names): never a game's launcher.
pub open spec fn helper_exe(l: Seq<char>) -> bool {
    l == "uninstall.exe"@ || l == "unins000.exe"@ || l == "unins001.exe"@ || l == "unins002.exe"@
        || l == "setup.exe"@ || l == "regsvr32.exe"@ || l == "rundll32.exe"@ || l
        == "winemenubuilder.exe"@ || l == "iexplore.exe"@ || l == "explorer.exe"@ || l
        == "vcredist_x64.exe"@ || l == "vcredist_x86.exe"@
}

/// Smallest size, in bytes, of a file offered as a launcher.
pub const MIN_LAUNCHER_SIZE: u64 = 65536;

/// A file named `name` of `size` bytes is offered as a launcher: an
/// `.exe` (any case), not a known helper, and at least 64 KiB.
pub open spec fn keeps_exe(name: Seq<char>, size: u64) -> bool {
    let l = unicode_lower(name);
    ends_with(l, ".exe"@) && !helper_exe(l) && size >= MIN_LAUNCHER_SIZE
}

/// Whether a file named `name` of `size` bytes is offered as a launcher.
pub fn is_launcher_candidate(name: &str, size: u64) -> (r: bool)
    ensures
        r == keeps_exe(name@, size),
{
    let lower = to_lowercase(name);
    let l = str_chars(lower.as_str());
    let l = l.as_slice();
    if !ends_with_str(l, ".exe") {
        return false;
    }
    let helper = eq_str(l, "uninstall.exe") || eq_str(l, "unins000.exe") || eq_str(
        l,
        "unins001.exe",
    ) || eq_str(l, "unins002.exe") || eq_str(l, "setup.exe") || eq_str(l, "regsvr32.exe")
        || eq_str(l, "rundll32.exe") || eq_str(l, "winemenubuilder.exe") || eq_str(
        l,
        "iexplore.exe",
    ) || eq_str(l, "explorer.exe") || eq_str(l, "vcredist_x64.exe") || eq_str(
        l,
        "vcredist_x86.exe",
    );
    !helper && size >= MIN_LAUNCHER_SIZE
}

/// How many launchers are offered when the caller names no limit.
pub const DEFAULT_MAX_CANDIDATES: usize = 20;

pub open spec fn candidates_view(c: Seq<ExeCandidate>) -> Seq<ExeCandidateView> {
    c.map_values(|x: ExeCandidate| x@)
}

pub open spec fn sizes_of(c: Seq<ExeCandidateView>) -> Seq<u128> {
    c.map_values(|x: ExeCandidateView| x.size as u128)
}

/// The launchers offered from `found`: biggest first (equal sizes in
/// the order found), at most `max` of them.
pub open spec fn ranked(found: Seq<ExeCandidateView>, max: nat) -> Seq<ExeCandidateView> {
    let o = order_desc(sizes_of(found));
    let n = if max < found.len() {
        max as int
    } else {
        found.len() as int
    };
    Seq::new(n as nat, |p: int| found[o[p]])
}

/// The launchers to offer: biggest first (a game's launcher tends to be
/// the heaviest `.exe`), equal sizes in the order found, at most
/// `max_count` of them (20 when `None`).
pub fn rank_exe_candidates(found: Vec<ExeCandidate>, max_count: Option<usize>) -> (r: Vec<
    ExeCandidate,
>)
    ensures
        candidates_view(r@) == ranked(
            candidates_view(found@),
            match max_count {
                Some(m) => m as nat,
                None => DEFAULT_MAX_CANDIDATES as nat,
            },
        ),
{
    let ghost fv = candidates_view(found@);
    let mut keys: Vec<u128> = Vec::new();
    let mut i: usize = 0;
    while i < found.len()
        invariant
            i <= found.len(),
            fv == candidates_view(found@),
            keys@ =~= sizes_of(fv).subrange(0, i as int),
        decreases found.len() - i,
    {
        keys.push(found[i].size as u128);
        i = i + 1;
    }
    assert(keys@ =~= sizes_of(fv));
    let order = stable_order_desc(keys.as_slice());
    proof {
        crate::cellar::order::lemma_order_desc(keys@);
    }
    let max = match max_count {
        Some(m) => m,
        None => DEFAULT_MAX_CANDIDATES,
    };
    let n = if max < found.len() {
        max
    } else {
        found.len()
    };
    let mut r: Vec<ExeCandidate> = Vec::new();
    let mut p: usize = 0;
    while p < n
        invariant
            p <= n,
            n <= found.len(),
            order@.len() == found.len(),
            fv == candidates_view(found@),
            keys@ == sizes_of(fv),
            forall|q: int| 0 <= q < order@.len() ==> #[trigger] order@[q] == order_desc(keys@)[q],
            forall|q: int| 0 <= q < order@.len() ==> 0 <= #[trigger] order_desc(keys@)[q] < keys@.len(),
            candidates_view(r@) =~= Seq::new(p as nat, |q: int| fv[order_desc(keys@)[q]]),
        decreases n - p,
    {
        let k = order[p];
        assert(order_desc(keys@)[p as int] < keys@.len());
        let ghost before = candidates_view(r@);
        r.push(found[k].duplicate());
        assert(candidates_view(r@) =~= before.push(fv[order_desc(keys@)[p as int]]));
        p = p + 1;
    }
    r
}

pub open spec fn bottles_view(b: Seq<Bottle>) -> Seq<BottleView> {
    b.map_values(|x: Bottle| x@)
}

/// Bottles newest first; bottles created in the same millisecond keep
/// the order they came in.
pub open spec fn newest_first_order(bottles: Seq<BottleView>) -> Seq<BottleView> {
    let o = order_desc(bottles.map_values(|b: BottleView| b.created_ms));
    Seq::new(bottles.len(), |p: int| bottles[o[p]])
}

/// The bottles, newest first (ties in the order given).
pub fn newest_first(bottles: Vec<Bottle>) -> (r: Vec<Bottle>)
    ensures
        bottles_view(r@) == newest_first_order(bottles_view(bottles@)),
{
    let ghost bv = bottles_view(bottles@);
    let ghost kv = bv.map_values(|b: BottleView| b.created_ms);
    let mut keys: Vec<u128> = Vec::new();
    let mut i: usize = 0;
    while i < bottles.len()
        invariant
            i <= bottles.len(),
            bv == bottles_view(bottles@),
            kv == bv.map_values(|b: BottleView| b.created_ms),
            keys@ =~= kv.subrange(0, i as int),
        decreases bottles.len() - i,
    {
        keys.push(bottles[i].created_ms);
        i = i + 1;
    }
    assert(keys@ =~= kv);
    let order = stable_order_desc(keys.as_slice());
    proof {
        crate::cellar::order::lemma_order_desc(keys@);
    }
    let mut r: Vec<Bottle> = Vec::new();
    let mut p: usize = 0;
    while p < bottles.len()
        invariant
            p <= bottles.len(),
            order@.len() == bottles.len(),
            bv == bottles_view(bottles@),
            keys@ == kv,
            kv == bv.map_values(|b: BottleView| b.created_ms),
            forall|q: int| 0 <= q < order@.len() ==> #[trigger] order@[q] == order_desc(keys@)[q],
            forall|q: int| 0 <= q < order@.len() ==> 0 <= #[trigger] order_desc(keys@)[q] < keys@.len(),
            bottles_view(r@) =~= Seq::new(p as nat, |q: int| bv[order_desc(keys@)[q]]),
        decreases bottles.len() - p,
    {
        let k = order[p];
        assert(order_desc(keys@)[p as int] < keys@.len());
        let ghost before = bottles_view(r@);
        r.push(bottles[k].duplicate());
        assert(bottles_view(r@) =~= before.push(bv[order_desc(keys@)[p as int]]));
        p = p + 1;
    }
    r
}

/// The launchers offered are at most `max` of those found, each one of
/// them, biggest first.
pub proof fn lemma_ranked_biggest_first(found: Seq<ExeCandidateView>, max: nat)
    ensures
        ranked(found, max).len() == if max < found.len() {
            max as int
        } else {
            found.len() as int
        },
        forall|p: int, q: int|
            0 <= p < q < ranked(found, max).len() ==> (#[trigger] ranked(found, max)[p]).size
                >= (#[trigger] ranked(found, max)[q]).size,
        forall|p: int|
            0 <= p < ranked(found, max).len() ==> exists|i: int|
                0 <= i < found.len() && found[i] == #[trigger] ranked(found, max)[p],
{
    let keys = sizes_of(found);
    let o = order_desc(keys);
    crate::cellar::order::lemma_order_desc(keys);
    let r = ranked(found, max);
    assert forall|p: int, q: int| 0 <= p < q < r.len() implies (#[trigger] r[p]).size
        >= (#[trigger] r[q]).size by {
        assert(keys[o[p]] > keys[o[q]] || keys[o[p]] == keys[o[q]]);
        assert(keys[o[p]] == found[o[p]].size as u128);
        assert(keys[o[q]] == found[o[q]].size as u128);
    }
    assert forall|p: int| 0 <= p < r.len() implies exists|i: int|
        0 <= i < found.len() && found[i] == #[trigger] r[p] by {
        assert(0 <= o[p] < found.len());
        assert(found[o[p]] == r[p]);
    }
}

/// The bottles listed newest first are the bottles given, rearranged
/// (each exactly once), and no bottle comes before a newer one.
pub proof fn lemma_newest_first_sorted(bottles: Seq<BottleView>)
    ensures
        newest_first_order(bottles).len() == bottles.len(),
        forall|p: int, q: int|
            0 <= p < q < bottles.len() ==> (#[trigger] newest_first_order(bottles)[p]).created_ms
                >= (#[trigger] newest_first_order(bottles)[q]).created_ms,
        exists|o: Seq<int>|
            crate::cellar::order::is_permutation_of(o, bottles.len() as int) && forall|p: int|
                0 <= p < bottles.len() ==> #[trigger] newest_first_order(bottles)[p] == bottles[o[p]],
{
    let keys = bottles.map_values(|b: BottleView| b.created_ms);
    let o = order_desc(keys);
    crate::cellar::order::lemma_order_desc(keys);
    let r = newest_first_order(bottles);
    assert forall|p: int, q: int| 0 <= p < q < bottles.len() implies (#[trigger] r[p]).created_ms
        >= (#[trigger] r[q]).created_ms by {
        assert(keys[o[p]] > keys[o[q]] || keys[o[p]] == keys[o[q]]);
    }
    assert forall|p: int| 0 <= p < bottles.len() implies #[trigger] r[p] == bottles[o[p]] by {}
}

/// Verbs whose payload Microsoft serves over HTTPS; for these the
/// bundled SHA check of `winetricks` is skipped, as Microsoft updates
/// the redistributables faster than `winetricks` ships new sums.
pub open spec fn skips_sha_check(verb: Seq<char>) -> bool {
    starts_with(verb, "vcrun"@) || starts_with(verb, "dotnet"@) || starts_with(verb, "d3dx"@) || verb
        == "ucrtbase2019"@ || verb == "dotnetdesktop6"@ || verb == "dotnetdesktop7"@
}

/// Whether `winetricks` runs `verb` without its SHA check.
pub fn verb_skips_sha_check(verb: &str) -> (r: bool)
    ensures
        r == skips_sha_check(verb@),
{
    let v = str_chars(verb);
    let v = v.as_slice();
    starts_with_str(v, "vcrun") || starts_with_str(v, "dotnet") || starts_with_str(v, "d3dx")
        || eq_str(v, "ucrtbase2019") || eq_str(v, "dotnetdesktop6") || eq_str(v, "dotnetdesktop7")
}

pub open spec fn pairs_view(v: Seq<(String, String)>) -> Seq<(Seq<char>, Seq<char>)> {
    v.map_values(|e: (String, String)| (e.0@, e.1@))
}

/// The environment `winetricks` runs `verb` with, in order.
pub open spec fn winetricks_env_of(prefix: Seq<char>, wine: Seq<char>, verb: Seq<char>) -> Seq<
    (Seq<char>, Seq<char>),
> {
    let base = seq![
        ("WINEPREFIX"@, prefix),
        ("WINE"@, wine),
        ("WINETRICKS_LATEST_VERSION_CHECK"@, "disabled"@),
        ("WINE_LARGE_ADDRESS_AWARE"@, "1"@),
    ];
    if skips_sha_check(verb) {
        base.push(("WINETRICKS_FORCE"@, "1"@))
    } else {
        base
    }
}

fn pair(k: &str, v: &str) -> (r: (String, String))
    ensures
        r.0@ == k@,
        r.1@ == v@,
{
    (String::from_str(k), String::from_str(v))
}

/// The environment `winetricks` runs `verb` with, for the prefix
/// `prefix` and the Wine binary `wine`.
pub fn winetricks_env(prefix: &str, wine: &str, verb: &str) -> (r: Vec<(String, String)>)
    ensures
        pairs_view(r@) == winetricks_env_of(prefix@, wine@, verb@),
{
    let mut r: Vec<(String, String)> = Vec::new();
    r.push(pair("WINEPREFIX", prefix));
    r.push(pair("WINE", wine));
    r.push(pair("WINETRICKS_LATEST_VERSION_CHECK", "disabled"));
    r.push(pair("WINE_LARGE_ADDRESS_AWARE", "1"));
    if verb_skips_sha_check(verb) {
        r.push(pair("WINETRICKS_FORCE", "1"));
    }
    assert(pairs_view(r@) =~= winetricks_env_of(prefix@, wine@, verb@));
    r
}

/// The `PATH` Wine's tools run with: the Wine binary's directory (when
/// known), Homebrew's and `/usr/local`'s, then the current `PATH`.
pub open spec fn augmented_path_of(wine_dir: Seq<char>, cur: Seq<char>) -> Seq<char> {
    if wine_dir.len() == 0 {
        "/opt/homebrew/bin:/usr/local/bin:"@ + cur
    } else {
        wine_dir + ":/opt/homebrew/bin:/usr/local/bin:"@ + cur
    }
}

/// The `PATH` for running Wine's tools.
pub fn augmented_path(wine_dir: &str, cur_path: &str) -> (r: String)
    ensures
        r@ == augmented_path_of(wine_dir@, cur_path@),
{
    if wine_dir.unicode_len() == 0 {
        String::from_str("/opt/homebrew/bin:/usr/local/bin:").concat(cur_path)
    } else {
        String::from_str(wine_dir).concat(":/opt/homebrew/bin:/usr/local/bin:").concat(cur_path)
    }
}

/// `l` without one trailing carriage return.
pub open spec fn strip_cr(l: Seq<char>) -> Seq<char> {
    if l.len() > 0 && l.last() == '\r' {
        l.drop_last()
    } else {
        l
    }
}

/// The lines of `s`, as `str::lines` gives them: split at `\n`, a `\r`
/// before the `\n` dropped, and no empty last line after a final `\n`.
pub open spec fn lines_of(s: Seq<char>) -> Seq<Seq<char>> {
    let parts = split_on(s, '\n');
    let init = parts.drop_last().map_values(|p: Seq<char>| strip_cr(p));
    if parts.last().len() == 0 {
        init
    } else {
        init.push(parts.last())
    }
}

/// `parts` joined with `sep` between them.
pub open spec fn join_with(parts: Seq<Seq<char>>, sep: Seq<char>) -> Seq<char>
    decreases parts.len(),
{
    if parts.len() == 0 {
        Seq::empty()
    } else if parts.len() == 1 {
        parts[0]
    } else {
        join_with(parts.drop_last(), sep) + sep + parts.last()
    }
}

/// The last (at most) six lines of `s`, joined with " | ".
pub open spec fn tail_of(s: Seq<char>) -> Seq<char> {
    let ls = lines_of(s);
    let from = if ls.len() > 6 {
        ls.len() - 6
    } else {
        0
    };
    join_with(ls.subrange(from, ls.len() as int), " | "@)
}

proof fn lemma_split_on_nonempty(s: Seq<char>, c: char)
    ensures
        split_on(s, c).len() >= 1,
    decreases s.len(),
{
    if let Some(i) = crate::chars::find_from(s, c, 0) {
        if 0 <= i < s.len() {
            lemma_split_on_nonempty(s.subrange(i + 1, s.len() as int), c);
        }
    }
}

fn strip_cr_chars(l: &Vec<char>) -> (r: Vec<char>)
    ensures
        r@ == strip_cr(l@),
{
    if l.len() > 0 && l[l.len() - 1] == '\r' {
        crate::chars::sub_chars(l.as_slice(), 0, l.len() - 1)
    } else {
        l.clone()
    }
}

/// The last lines of a process's error output, for reporting a failed
/// run: the output read as UTF-8 (invalid sequences replaced), its last
/// six lines joined with " | ".
pub fn stderr_tail(stderr: &[u8]) -> (r: String)
    ensures
        r@ == tail_of(text_of(stderr@)),
{
    let text = string_from_utf8_lossy(stderr);
    let lines = text_lines(text.as_str());
    let ghost lv = lines@.map_values(|v: Vec<char>| v@);
    let from: usize = if lines.len() > 6 {
        lines.len() - 6
    } else {
        0
    };
    let mut out: Vec<char> = Vec::new();
    let mut k: usize = from;
    while k < lines.len()
        invariant
            from <= k <= lines.len(),
            lv == lines@.map_values(|v: Vec<char>| v@),
            out@ == join_with(lv.subrange(from as int, k as int), " | "@),
        decreases lines.len() - k,
    {
        let ghost sub = lv.subrange(from as int, k + 1);
        assert(sub.drop_last() =~= lv.subrange(from as int, k as int));
        if k > from {
            let sep = str_chars(" | ");
            out.extend_from_slice(sep.as_slice());
        }
        out.extend_from_slice(lines[k].as_slice());
        proof {
            if k > from {
                assert(out@ =~= join_with(lv.subrange(from as int, k as int), " | "@) + " | "@
                    + lv[k as int]);
            } else {
                assert(out@ =~= lv[k as int]);
            }
        }
        k = k + 1;
    }
    string_from_chars(out.as_slice())
}

/// The lines of `text`, as `str::lines` gives them.
pub fn text_lines(text: &str) -> (lines: Vec<Vec<char>>)
    ensures
        lines@.map_values(|v: Vec<char>| v@) == lines_of(text@),
{
    let cs = str_chars(text);
    let parts = split_chars(cs.as_slice(), '\n');
    let ghost ps = parts@.map_values(|v: Vec<char>| v@);
    proof {
        lemma_split_on_nonempty(cs@, '\n');
    }
    let last = parts.len() - 1;
    let mut lines: Vec<Vec<char>> = Vec::new();
    let mut i: usize = 0;
    while i < last
        invariant
            i <= last,
            last == parts@.len() - 1,
            ps == parts@.map_values(|v: Vec<char>| v@),
            lines@.map_values(|v: Vec<char>| v@) =~= ps.subrange(0, i as int).map_values(
                |p: Seq<char>| strip_cr(p),
            ),
        decreases last - i,
    {
        let ghost before = lines@.map_values(|v: Vec<char>| v@);
        lines.push(strip_cr_chars(&parts[i]));
        assert(lines@.map_values(|v: Vec<char>| v@) =~= before.push(strip_cr(ps[i as int])));
        assert(ps.subrange(0, i + 1).map_values(|p: Seq<char>| strip_cr(p)) =~= ps.subrange(
            0,
            i as int,
        ).map_values(|p: Seq<char>| strip_cr(p)).push(strip_cr(ps[i as int])));
        i = i + 1;
    }
    assert(ps.subrange(0, last as int) =~= ps.drop_last());
    if parts[last].len() > 0 {
        let ghost before = lines@.map_values(|v: Vec<char>| v@);
        lines.push(parts[last].clone());
        assert(lines@.map_values(|v: Vec<char>| v@) =~= before.push(ps.last()));
    }
    assert(lines@.map_values(|v: Vec<char>| v@) == lines_of(text@));
    lines
}

/// The error for a `wineboot --init` that exited unsuccessfully with
/// `code` and wrote `stderr`: the exit code as `{:?}` shows it and the
/// last lines of the error output.
pub fn wineboot_failed(code: Option<i32>, stderr: &[u8]) -> (r: WineError)
    ensures
        r@ == (WineErrorView::SpawnFailed {
            message: "wineboot --init exited with "@ + crate::cellar::runtime::exit_code_debug(code)
                + ". stderr tail: "@ + tail_of(text_of(stderr@)),
        }),
{
    let c = crate::cellar::runtime::exit_code_text(code);
    let tail = stderr_tail(stderr);
    WineError::SpawnFailed {
        message: String::from_str("wineboot --init exited with ").concat(c.as_str()).concat(
            ". stderr tail: ",
        ).concat(tail.as_str()),
    }
}


// ----- where winetricks and DXVK are looked for -----

/// The optional first candidate (an override from the environment).
pub open spec fn chosen_first(chosen: Option<Seq<char>>) -> Seq<Seq<char>> {
    match chosen {
        Some(c) => seq![c],
        None => Seq::empty(),
    }
}

/// Where `winetricks` is looked for, best first: the `CELLAR_WINETRICKS`
/// override (`chosen`), cellar's own copy, Whisky's, then Homebrew's.
pub open spec fn winetricks_candidates_of(chosen: Option<Seq<char>>, home: Seq<char>) -> Seq<Seq<char>> {
    chosen_first(chosen) + seq![
        home + "/.cellar/bin/winetricks"@,
        home + "/Library/Application Support/com.isaacmarovitz.Whisky/Libraries/winetricks"@,
        "/opt/homebrew/bin/winetricks"@,
    ]
}

/// Where a DXVK build is looked for, best first: the `CELLAR_DXVK_DIR`
/// override (`chosen`), then Whisky's. A directory counts when it holds
/// `x64/d3d11.dll`.
pub open spec fn dxvk_sources_of(chosen: Option<Seq<char>>, home: Seq<char>) -> Seq<Seq<char>> {
    chosen_first(chosen) + seq![home + "/Library/Application Support/com.isaacmarovitz.Whisky/Libraries/DXVK"@]
}

fn push_chosen(chosen: Option<&str>) -> (r: Vec<String>)
    ensures
        texts_view(r@) == chosen_first(
            match chosen {
                Some(c) => Some(c@),
                None => None,
            },
        ),
{
    let mut r: Vec<String> = Vec::new();
    match chosen {
        Some(c) => r.push(String::from_str(c)),
        None => {},
    }
    assert(texts_view(r@) =~= chosen_first(
        match chosen {
            Some(c) => Some(c@),
            None => None,
        },
    ));
    r
}

/// Where `winetricks` is looked for, best first.
pub fn winetricks_candidates(chosen: Option<&str>, home: &str) -> (r: Vec<String>)
    ensures
        texts_view(r@) == winetricks_candidates_of(
            match chosen {
                Some(c) => Some(c@),
                None => None,
            },
            home@,
        ),
{
    let mut r = push_chosen(chosen);
    let ghost head = texts_view(r@);
    r.push(String::from_str(home).concat("/.cellar/bin/winetricks"));
    r.push(
        String::from_str(home).concat(
            "/Library/Application Support/com.isaacmarovitz.Whisky/Libraries/winetricks",
        ),
    );
    r.push(String::from_str("/opt/homebrew/bin/winetricks"));
    assert(texts_view(r@) =~= head + seq![
        home@ + "/.cellar/bin/winetricks"@,
        home@ + "/Library/Application Support/com.isaacmarovitz.Whisky/Libraries/winetricks"@,
        "/opt/homebrew/bin/winetricks"@,
    ]);
    r
}

/// Where a DXVK build is looked for, best first.
pub fn dxvk_sources(chosen: Option<&str>, home: &str) -> (r: Vec<String>)
    ensures
        texts_view(r@) == dxvk_sources_of(
            match chosen {
                Some(c) => Some(c@),
                None => None,
            },
            home@,
        ),
{
    let mut r = push_chosen(chosen);
    let ghost head = texts_view(r@);
    r.push(String::from_str(home).concat("/Library/Application Support/com.isaacmarovitz.Whisky/Libraries/DXVK"));
    assert(texts_view(r@) =~= head + seq![
        home@ + "/Library/Application Support/com.isaacmarovitz.Whisky/Libraries/DXVK"@,
    ]);
    r
}


/// The first of `candidates` found (`present[i]` tells whether
/// `candidates[i]` was found).
pub fn first_found(candidates: &[String], present: &[bool]) -> (r: Option<String>)
    requires
        candidates@.len() == present@.len(),
    ensures
        match crate::cellar::prereq::first_present(present@) {
            Some(i) => r matches Some(p) && p@ == candidates@[i]@,
            None => r is None,
        },
{
    crate::cellar::prereq::find_proton_tarball(candidates, present)
}


/// What is offered as a launcher: never a file smaller than 64 KiB,
/// never a file whose lower-cased name does not end in `.exe`, and never
/// one of the helpers Wine and installers ship (uninstallers, setup
/// programs, system tools, runtime redistributables), whatever its size;
/// any other `.exe` of at least 64 KiB is offered.
pub proof fn lemma_launcher_candidates(name: Seq<char>, size: u64)
    ensures
        size < 65536 ==> !keeps_exe(name, size),
        !ends_with(unicode_lower(name), ".exe"@) ==> !keeps_exe(name, size),
        ({
            let l = unicode_lower(name);
            l == "setup.exe"@ || l == "uninstall.exe"@ || l == "unins000.exe"@ || l == "unins001.exe"@
                || l == "unins002.exe"@ || l == "regsvr32.exe"@ || l == "rundll32.exe"@
                || l == "winemenubuilder.exe"@ || l == "iexplore.exe"@ || l == "explorer.exe"@
                || l == "vcredist_x64.exe"@ || l == "vcredist_x86.exe"@
        }) ==> !keeps_exe(name, size),
        ({
            let l = unicode_lower(name);
            &&& ends_with(l, ".exe"@)
            &&& size >= 65536
            &&& l != "uninstall.exe"@ && l != "unins000.exe"@ && l != "unins001.exe"@ && l != "unins002.exe"@
            &&& l != "setup.exe"@ && l != "regsvr32.exe"@ && l != "rundll32.exe"@
            &&& l != "winemenubuilder.exe"@ && l != "iexplore.exe"@ && l != "explorer.exe"@
            &&& l != "vcredist_x64.exe"@ && l != "vcredist_x86.exe"@
        }) ==> keeps_exe(name, size),
{
}

} // verus!
