//! Profile prerequisites.
//!
//! Profiles name prerequisites such as `proton_winrt_dlls`,
//! `winetricks_mf` or `homebrew_gstreamer`. This module decides how each
//! is checked and installed: which file in a bottle proves it is there,
//! what a check reports from what was found on disk, which `winetricks`
//! verb installs it (or that the user must act), where a GE-Proton
//! tarball is looked for, and which registry values the WinRT staging
//! writes. Looking at the disk and running processes are the caller's.

use vstd::prelude::*;
use vstd::string::StringExecFns;

use crate::bytes::str_chars;
use crate::cellar::wine::join_with;
use crate::chars::eq_str;
use crate::error::{dec_text, int_text};

verus! {

/// Why a prerequisite could not be installed.
#[derive(Debug)]
pub enum PrereqError {
    UnknownRequire { id: String },
    BottleMissing { id: String },
    WineMissing,
    DependencyMissing { what: String, hint: String },
    ManualActionRequired { what: String, hint: String },
    SpawnFailed { message: String },
    IoError { message: String },
    ProcessFailed { stage: String, exit_code: i32 },
}

pub enum PrereqErrorView {
    UnknownRequire { id: Seq<char> },
    BottleMissing { id: Seq<char> },
    WineMissing,
    DependencyMissing { what: Seq<char>, hint: Seq<char> },
    ManualActionRequired { what: Seq<char>, hint: Seq<char> },
    SpawnFailed { message: Seq<char> },
    IoError { message: Seq<char> },
    ProcessFailed { stage: Seq<char>, exit_code: i32 },
}

impl View for PrereqError {
    type V = PrereqErrorView;

    open spec fn view(&self) -> PrereqErrorView {
        match self {
            PrereqError::UnknownRequire { id } => PrereqErrorView::UnknownRequire { id: id@ },
            PrereqError::BottleMissing { id } => PrereqErrorView::BottleMissing { id: id@ },
            PrereqError::WineMissing => PrereqErrorView::WineMissing,
            PrereqError::DependencyMissing { what, hint } => PrereqErrorView::DependencyMissing {
                what: what@,
                hint: hint@,
            },
            PrereqError::ManualActionRequired { what, hint } =>
                PrereqErrorView::ManualActionRequired { what: what@, hint: hint@ },
            PrereqError::SpawnFailed { message } => PrereqErrorView::SpawnFailed {
                message: message@,
            },
            PrereqError::IoError { message } => PrereqErrorView::IoError { message: message@ },
            PrereqError::ProcessFailed { stage, exit_code } => PrereqErrorView::ProcessFailed {
                stage: stage@,
                exit_code: *exit_code,
            },
        }
    }
}

/// Whether a prerequisite is already in place, and why.
#[derive(Debug, Clone)]
pub struct CheckResult {
    pub satisfied: bool,
    pub detail: Option<String>,
}

/// How a prerequisite is checked.
#[derive(Debug)]
pub enum CheckProbe {
    /// By a file of the bottle, given relative to its prefix.
    InPrefix { path: String },
    /// By Homebrew's GStreamer plugin directory and its gst-libav plugin.
    Gstreamer,
    /// There is no rule for it.
    NoRule,
}

/// The file of a bottle, relative to its prefix, that shows the
/// prerequisite `rid` is installed; `None` for the other kinds.
pub open spec fn prefix_probe(rid: Seq<char>) -> Option<Seq<char>> {
    if rid == "proton_winrt_dlls"@ {
        Some("drive_c/windows/system32/coremessaging.dll"@)
    } else if rid == "winetricks_mf"@ {
        Some("drive_c/windows/system32/mfplat.dll"@)
    } else if rid == "winetricks_d3dcompiler_47"@ {
        Some("drive_c/windows/system32/d3dcompiler_47.dll"@)
    } else if rid == "winetricks_vcrun2003"@ {
        Some("drive_c/windows/system32/msvcr71.dll"@)
    } else {
        None
    }
}

/// How `require_id` is checked.
pub fn probe_for(require_id: &str) -> (r: CheckProbe)
    ensures
        match prefix_probe(require_id@) {
            Some(p) => r matches CheckProbe::InPrefix { path } && path@ == p,
            None => if require_id@ == "homebrew_gstreamer"@ {
                r is Gstreamer
            } else {
                r is NoRule
            },
        },
{
    let id = str_chars(require_id);
    let id = id.as_slice();
    if eq_str(id, "proton_winrt_dlls") {
        CheckProbe::InPrefix { path: String::from_str("drive_c/windows/system32/coremessaging.dll") }
    } else if eq_str(id, "winetricks_mf") {
        CheckProbe::InPrefix { path: String::from_str("drive_c/windows/system32/mfplat.dll") }
    } else if eq_str(id, "winetricks_d3dcompiler_47") {
        CheckProbe::InPrefix {
            path: String::from_str("drive_c/windows/system32/d3dcompiler_47.dll"),
        }
    } else if eq_str(id, "winetricks_vcrun2003") {
        CheckProbe::InPrefix { path: String::from_str("drive_c/windows/system32/msvcr71.dll") }
    } else if eq_str(id, "homebrew_gstreamer") {
        CheckProbe::Gstreamer
    } else {
        CheckProbe::NoRule
    }
}

/// What was found on disk for a check.
pub struct ProbeFacts {
    /// The probed file of the bottle exists.
    pub target_exists: bool,
    /// Its size, when its metadata could be read.
    pub target_size: Option<u64>,
    /// Homebrew's `gstreamer-1.0` plugin directory exists.
    pub plugins_present: bool,
    /// gst-libav's plugin exists in it.
    pub libav_present: bool,
}

/// Size above which `mfplat.dll` is Microsoft's (Wine's stub is far
/// smaller).
pub const NATIVE_MFPLAT_MIN: u64 = 500000;

/// What a check of `rid` reports from `f`: satisfied, and the detail.
pub open spec fn verdict(rid: Seq<char>, f: ProbeFacts) -> (bool, Seq<char>) {
    if rid == "proton_winrt_dlls"@ {
        if f.target_exists {
            (true, "coremessaging.dll staged"@)
        } else {
            (false, "coremessaging.dll missing in system32"@)
        }
    } else if rid == "winetricks_mf"@ {
        if f.target_size matches Some(n) && n > NATIVE_MFPLAT_MIN {
            (true, "native mfplat.dll staged"@)
        } else if f.target_exists {
            (false, "mfplat.dll present but looks like wine builtin (run winetricks mf)"@)
        } else {
            (false, "mfplat.dll absent"@)
        }
    } else if rid == "winetricks_d3dcompiler_47"@ {
        if f.target_exists {
            (true, "d3dcompiler_47.dll staged"@)
        } else {
            (false, "d3dcompiler_47.dll absent"@)
        }
    } else if rid == "winetricks_vcrun2003"@ {
        if f.target_exists {
            (true, "msvcr71.dll staged"@)
        } else {
            (false, "msvcr71.dll absent"@)
        }
    } else if rid == "homebrew_gstreamer"@ {
        if f.libav_present {
            (true, "homebrew gstreamer + gst-libav present"@)
        } else if f.plugins_present {
            (false, "gstreamer found but gst-libav missing (run brew install gst-libav)"@)
        } else {
            (false, "/opt/homebrew/lib/gstreamer-1.0 missing"@)
        }
    } else {
        (false, "no detection rule"@)
    }
}

fn result(satisfied: bool, detail: &str) -> (r: CheckResult)
    ensures
        r.satisfied == satisfied,
        r.detail matches Some(d) && d@ == detail@,
{
    CheckResult { satisfied, detail: Some(String::from_str(detail)) }
}

/// Whether the prerequisite `require_id` is in place, from what was
/// found on disk. Only a confirmed artefact counts; an unknown id is
/// reported unsatisfied with the detail "no detection rule".
pub fn check_one(require_id: &str, facts: &ProbeFacts) -> (r: CheckResult)
    ensures
        r.satisfied == verdict(require_id@, *facts).0,
        r.detail matches Some(d) && d@ == verdict(require_id@, *facts).1,
{
    let id = str_chars(require_id);
    let id = id.as_slice();
    if eq_str(id, "proton_winrt_dlls") {
        if facts.target_exists {
            result(true, "coremessaging.dll staged")
        } else {
            result(false, "coremessaging.dll missing in system32")
        }
    } else if eq_str(id, "winetricks_mf") {
        let native = match facts.target_size {
            Some(n) => n > NATIVE_MFPLAT_MIN,
            None => false,
        };
        if native {
            result(true, "native mfplat.dll staged")
        } else if facts.target_exists {
            result(false, "mfplat.dll present but looks like wine builtin (run winetricks mf)")
        } else {
            result(false, "mfplat.dll absent")
        }
    } else if eq_str(id, "winetricks_d3dcompiler_47") {
        if facts.target_exists {
            result(true, "d3dcompiler_47.dll staged")
        } else {
            result(false, "d3dcompiler_47.dll absent")
        }
    } else if eq_str(id, "winetricks_vcrun2003") {
        if facts.target_exists {
            result(true, "msvcr71.dll staged")
        } else {
            result(false, "msvcr71.dll absent")
        }
    } else if eq_str(id, "homebrew_gstreamer") {
        if facts.libav_present {
            result(true, "homebrew gstreamer + gst-libav present")
        } else if facts.plugins_present {
            result(false, "gstreamer found but gst-libav missing (run brew install gst-libav)")
        } else {
            result(false, "/opt/homebrew/lib/gstreamer-1.0 missing")
        }
    } else {
        result(false, "no detection rule")
    }
}

/// How a prerequisite is installed.
#[derive(Debug)]
pub enum InstallPlan {
    /// By running a `winetricks` verb in the bottle.
    Winetricks { verb: String },
    /// By staging Proton's WinRT DLLs into the bottle.
    ProtonWinrt,
}

/// The hint given for Homebrew's GStreamer, which the user installs.
pub open spec fn gstreamer_hint() -> Seq<char> {
    "Run `brew install gstreamer gst-libav` in Terminal. cellar cannot pass through the brew password / network prompt."@
}

/// How `rid` is installed: its `winetricks` verb, the WinRT staging, or
/// the error telling that the user must act or that it is unknown.
pub open spec fn plan_of(rid: Seq<char>) -> Result<Result<Seq<char>, ()>, PrereqErrorView> {
    if rid == "winetricks_mf"@ {
        Ok(Ok("mf"@))
    } else if rid == "winetricks_d3dcompiler_47"@ {
        Ok(Ok("d3dcompiler_47"@))
    } else if rid == "winetricks_vcrun2003"@ {
        Ok(Ok("vcrun2003"@))
    } else if rid == "proton_winrt_dlls"@ {
        Ok(Err(()))
    } else if rid == "homebrew_gstreamer"@ {
        Err(PrereqErrorView::ManualActionRequired { what: "homebrew_gstreamer"@, hint: gstreamer_hint() })
    } else {
        Err(PrereqErrorView::UnknownRequire { id: rid })
    }
}

/// How the prerequisite `require_id` is installed.
pub fn install_plan(require_id: &str) -> (r: Result<InstallPlan, PrereqError>)
    ensures
        match plan_of(require_id@) {
            Ok(Ok(verb)) => r matches Ok(InstallPlan::Winetricks { verb: v }) && v@ == verb,
            Ok(Err(())) => r matches Ok(InstallPlan::ProtonWinrt),
            Err(e) => r matches Err(e2) && e2@ == e,
        },
{
    let id = str_chars(require_id);
    let id = id.as_slice();
    if eq_str(id, "winetricks_mf") {
        Ok(InstallPlan::Winetricks { verb: String::from_str("mf") })
    } else if eq_str(id, "winetricks_d3dcompiler_47") {
        Ok(InstallPlan::Winetricks { verb: String::from_str("d3dcompiler_47") })
    } else if eq_str(id, "winetricks_vcrun2003") {
        Ok(InstallPlan::Winetricks { verb: String::from_str("vcrun2003") })
    } else if eq_str(id, "proton_winrt_dlls") {
        Ok(InstallPlan::ProtonWinrt)
    } else if eq_str(id, "homebrew_gstreamer") {
        Err(
            PrereqError::ManualActionRequired {
                what: String::from_str("homebrew_gstreamer"),
                hint: String::from_str(
                    "Run `brew install gstreamer gst-libav` in Terminal. cellar cannot pass through the brew password / network prompt.",
                ),
            },
        )
    } else {
        Err(PrereqError::UnknownRequire { id: String::from_str(require_id) })
    }
}

/// How a `winetricks` run for `verb` ended: exit code 0 is success; any
/// other code fails at stage "winetricks <verb>".
pub open spec fn winetricks_result(verb: Seq<char>, exit_code: i32) -> Result<(), PrereqErrorView> {
    if exit_code == 0 {
        Ok(())
    } else {
        Err(PrereqErrorView::ProcessFailed { stage: "winetricks "@ + verb, exit_code })
    }
}

/// The detail reported when a `winetricks` run for `verb` ended with
/// `exit_code`.
pub open spec fn winetricks_detail(verb: Seq<char>, exit_code: i32) -> Seq<char> {
    if exit_code == 0 {
        "winetricks "@ + verb + " ok"@
    } else {
        "winetricks "@ + verb + " exited "@ + int_text(exit_code as int)
    }
}

/// The outcome of installing a prerequisite by `winetricks verb` that
/// exited with `exit_code`, and the detail to report.
pub fn winetricks_outcome(verb: &str, exit_code: i32) -> (r: (Result<(), PrereqError>, String))
    ensures
        match winetricks_result(verb@, exit_code) {
            Ok(()) => r.0 is Ok,
            Err(e) => r.0 matches Err(e2) && e2@ == e,
        },
        r.1@ == winetricks_detail(verb@, exit_code),
{
    if exit_code == 0 {
        (Ok(()), String::from_str("winetricks ").concat(verb).concat(" ok"))
    } else {
        let code = dec_text(exit_code as i64);
        (
            Err(
                PrereqError::ProcessFailed {
                    stage: String::from_str("winetricks ").concat(verb),
                    exit_code,
                },
            ),
            String::from_str("winetricks ").concat(verb).concat(" exited ").concat(code.as_str()),
        )
    }
}

/// Where a GE-Proton tarball is looked for, in order, for the home
/// directory `home`.
pub open spec fn tarball_candidates_of(home: Seq<char>) -> Seq<Seq<char>> {
    seq![
        "/tmp/ge-proton.tar.gz"@,
        home + "/.cellar/cache/ge-proton.tar.gz"@,
        home + "/Downloads/ge-proton.tar.gz"@,
    ]
}

pub open spec fn texts_view(v: Seq<String>) -> Seq<Seq<char>> {
    v.map_values(|s: String| s@)
}

/// Where a GE-Proton tarball is looked for, in order.
pub fn proton_tarball_candidates(home: &str) -> (r: Vec<String>)
    ensures
        texts_view(r@) == tarball_candidates_of(home@),
{
    let mut r: Vec<String> = Vec::new();
    r.push(String::from_str("/tmp/ge-proton.tar.gz"));
    r.push(String::from_str(home).concat("/.cellar/cache/ge-proton.tar.gz"));
    r.push(String::from_str(home).concat("/Downloads/ge-proton.tar.gz"));
    assert(texts_view(r@) =~= tarball_candidates_of(home@));
    r
}

/// Index of the first `true` in `present`.
pub open spec fn first_present(present: Seq<bool>) -> Option<int>
    decreases present.len(),
{
    if present.len() == 0 {
        None
    } else if present[0] {
        Some(0)
    } else {
        match first_present(present.drop_first()) {
            Some(i) => Some(i + 1),
            None => None,
        }
    }
}

proof fn lemma_first_present(present: Seq<bool>)
    ensures
        first_present(present) matches Some(i) ==> 0 <= i < present.len() && present[i] && forall|
            j: int,
        | 0 <= j < i ==> !present[j],
        first_present(present) is None ==> forall|j: int| 0 <= j < present.len() ==> !present[j],
    decreases present.len(),
{
    if present.len() > 0 {
        lemma_first_present(present.drop_first());
        assert forall|j: int| 0 < j < present.len() implies present[j] == present.drop_first()[j
            - 1] by {}
    }
}

/// The tarball to use: the first of `candidates` found on disk
/// (`present[i]` tells whether `candidates[i]` exists).
pub fn find_proton_tarball(candidates: &[String], present: &[bool]) -> (r: Option<String>)
    requires
        candidates@.len() == present@.len(),
    ensures
        match first_present(present@) {
            Some(i) => r matches Some(p) && p@ == candidates@[i]@,
            None => r is None,
        },
{
    proof {
        lemma_first_present(present@);
    }
    let mut i: usize = 0;
    while i < present.len()
        invariant
            i <= present.len(),
            candidates@.len() == present@.len(),
            forall|j: int| 0 <= j < i ==> !present@[j],
            first_present(present@) matches Some(k) ==> 0 <= k < present@.len() && present@[k]
                && forall|j: int| 0 <= j < k ==> !present@[j],
            first_present(present@) is None ==> forall|j: int| 0 <= j < present@.len() ==> !present@[j],
        decreases present.len() - i,
    {
        if present[i] {
            proof {
                if let Some(k) = first_present(present@) {
                    if k < i {
                        assert(!present@[k]);
                    }
                    if k > i {
                        assert(!present@[i as int]);
                    }
                }
            }
            return Some(candidates[i].clone());
        }
        i = i + 1;
    }
    None
}

/// The error given when no tarball was found: it names every place
/// looked at, joined with " | ".
pub open spec fn tarball_missing(candidates: Seq<Seq<char>>) -> PrereqErrorView {
    PrereqErrorView::DependencyMissing {
        what: "GE-Proton tarball"@,
        hint: "Download the latest GE-Proton release tarball from https://github.com/GloriousEggroll/proton-ge-custom/releases/latest and save it as one of: "@
            + join_with(candidates, " | "@),
    }
}

/// The error given when no tarball was found among `candidates`.
pub fn tarball_missing_error(candidates: &[String]) -> (r: PrereqError)
    ensures
        r@ == tarball_missing(texts_view(candidates@)),
{
    let ghost cv = texts_view(candidates@);
    let mut joined = String::new();
    let mut i: usize = 0;
    while i < candidates.len()
        invariant
            i <= candidates.len(),
            cv == texts_view(candidates@),
            joined@ == join_with(cv.subrange(0, i as int), " | "@),
        decreases candidates.len() - i,
    {
        let ghost sub = cv.subrange(0, i + 1);
        assert(sub.drop_last() =~= cv.subrange(0, i as int));
        if i > 0 {
            joined.append(" | ");
        }
        joined.append(candidates[i].as_str());
        proof {
            if i == 0 {
                assert(joined@ =~= cv[0]);
            }
        }
        i = i + 1;
    }
    assert(cv.subrange(0, i as int) =~= cv);
    PrereqError::DependencyMissing {
        what: String::from_str("GE-Proton tarball"),
        hint: String::from_str(
            "Download the latest GE-Proton release tarball from https://github.com/GloriousEggroll/proton-ge-custom/releases/latest and save it as one of: ",
        ).concat(joined.as_str()),
    }
}

/// The WinRT DLLs staged from a GE-Proton tarball into a bottle.
pub open spec fn winrt_dll_names() -> Seq<Seq<char>> {
    seq![
        "windows.system.dll"@,
        "windows.gaming.input.dll"@,
        "windows.media.dll"@,
        "windows.media.devices.dll"@,
        "windows.media.speech.dll"@,
        "windows.networking.dll"@,
        "windows.networking.connectivity.dll"@,
        "windows.networking.hostname.dll"@,
        "windows.perception.stub.dll"@,
        "windows.ui.dll"@,
        "windows.ui.composition.dll"@,
        "windows.ui.xaml.dll"@,
        "twinapi.appcore.dll"@,
        "coremessaging.dll"@,
        "wintypes.dll"@,
        "threadpoolwinrt.dll"@,
    ]
}

/// The WinRT DLLs staged into a bottle, in order.
pub fn proton_winrt_dlls() -> (r: Vec<String>)
    ensures
        texts_view(r@) == winrt_dll_names(),
{
    let mut r: Vec<String> = Vec::new();
    r.push(String::from_str("windows.system.dll"));
    r.push(String::from_str("windows.gaming.input.dll"));
    r.push(String::from_str("windows.media.dll"));
    r.push(String::from_str("windows.media.devices.dll"));
    r.push(String::from_str("windows.media.speech.dll"));
    r.push(String::from_str("windows.networking.dll"));
    r.push(String::from_str("windows.networking.connectivity.dll"));
    r.push(String::from_str("windows.networking.hostname.dll"));
    r.push(String::from_str("windows.perception.stub.dll"));
    r.push(String::from_str("windows.ui.dll"));
    r.push(String::from_str("windows.ui.composition.dll"));
    r.push(String::from_str("windows.ui.xaml.dll"));
    r.push(String::from_str("twinapi.appcore.dll"));
    r.push(String::from_str("coremessaging.dll"));
    r.push(String::from_str("wintypes.dll"));
    r.push(String::from_str("threadpoolwinrt.dll"));
    assert(texts_view(r@) =~= winrt_dll_names());
    r
}

/// One value written with `wine reg add`.
#[derive(Debug)]
pub struct RegWrite {
    pub key: String,
    pub value_name: String,
    pub data: String,
    pub reg_type: String,
}

pub struct RegWriteView {
    pub key: Seq<char>,
    pub value_name: Seq<char>,
    pub data: Seq<char>,
    pub reg_type: Seq<char>,
}

impl View for RegWrite {
    type V = RegWriteView;

    open spec fn view(&self) -> RegWriteView {
        RegWriteView {
            key: self.key@,
            value_name: self.value_name@,
            data: self.data@,
            reg_type: self.reg_type@,
        }
    }
}

pub open spec fn writes_view(v: Seq<RegWrite>) -> Seq<RegWriteView> {
    v.map_values(|w: RegWrite| w@)
}

/// The DLLs whose native copy Wine is told to prefer.
pub open spec fn winrt_override_names() -> Seq<Seq<char>> {
    seq![
        "windows.system"@,
        "windows.gaming.input"@,
        "windows.media"@,
        "windows.ui"@,
        "twinapi.appcore"@,
        "coremessaging"@,
        "wintypes"@,
        "threadpoolwinrt"@,
    ]
}

/// The WinRT classes registered for activation, each with its DLL.
pub open spec fn winrt_activation_classes() -> Seq<(Seq<char>, Seq<char>)> {
    seq![
        ("Windows.System.DispatcherQueue"@, "windows.system.dll"@),
        ("Windows.System.DispatcherQueueController"@, "windows.system.dll"@),
        ("Windows.System.DispatcherQueueTimer"@, "windows.system.dll"@),
    ]
}

pub open spec fn override_write(dll: Seq<char>) -> RegWriteView {
    RegWriteView {
        key: "HKCU\\Software\\Wine\\DllOverrides"@,
        value_name: dll,
        data: "native,builtin"@,
        reg_type: "REG_SZ"@,
    }
}

/// The four values registering one activation class.
pub open spec fn activation_writes(class: Seq<char>, dll: Seq<char>) -> Seq<RegWriteView> {
    let key = "HKLM\\Software\\Microsoft\\WindowsRuntime\\ActivatableClassId\\"@ + class;
    seq![
        RegWriteView {
            key,
            value_name: "DllPath"@,
            data: "C:\\windows\\system32\\"@ + dll,
            reg_type: "REG_EXPAND_SZ"@,
        },
        RegWriteView { key, value_name: "ActivationType"@, data: "0"@, reg_type: "REG_DWORD"@ },
        RegWriteView { key, value_name: "TrustLevel"@, data: "0"@, reg_type: "REG_DWORD"@ },
        RegWriteView { key, value_name: "Threading"@, data: "0"@, reg_type: "REG_DWORD"@ },
    ]
}

/// Every value the WinRT staging writes, in order: the DLL overrides,
/// then the four values of each activation class.
pub open spec fn winrt_writes() -> Seq<RegWriteView> {
    let c = winrt_activation_classes();
    winrt_override_names().map_values(|d: Seq<char>| override_write(d)) + activation_writes(
        c[0].0,
        c[0].1,
    ) + activation_writes(c[1].0, c[1].1) + activation_writes(c[2].0, c[2].1)
}

fn reg_write(key: &str, value_name: &str, data: &str, reg_type: &str) -> (r: RegWrite)
    ensures
        r@ == (RegWriteView {
            key: key@,
            value_name: value_name@,
            data: data@,
            reg_type: reg_type@,
        }),
{
    RegWrite {
        key: String::from_str(key),
        value_name: String::from_str(value_name),
        data: String::from_str(data),
        reg_type: String::from_str(reg_type),
    }
}

fn push_activation(out: &mut Vec<RegWrite>, class: &str, dll: &str)
    ensures
        writes_view(final(out)@) == writes_view(old(out)@) + activation_writes(class@, dll@),
{
    let ghost before = writes_view(out@);
    let key = String::from_str("HKLM\\Software\\Microsoft\\WindowsRuntime\\ActivatableClassId\\").concat(
        class,
    );
    let path = String::from_str("C:\\windows\\system32\\").concat(dll);
    out.push(reg_write(key.as_str(), "DllPath", path.as_str(), "REG_EXPAND_SZ"));
    out.push(reg_write(key.as_str(), "ActivationType", "0", "REG_DWORD"));
    out.push(reg_write(key.as_str(), "TrustLevel", "0", "REG_DWORD"));
    out.push(reg_write(key.as_str(), "Threading", "0", "REG_DWORD"));
    assert(writes_view(out@) =~= before + activation_writes(class@, dll@));
}

/// Every registry value the WinRT staging writes, in order.
pub fn winrt_registry_writes() -> (r: Vec<RegWrite>)
    ensures
        writes_view(r@) == winrt_writes(),
{
    let mut r: Vec<RegWrite> = Vec::new();
    let k = "HKCU\\Software\\Wine\\DllOverrides";
    r.push(reg_write(k, "windows.system", "native,builtin", "REG_SZ"));
    r.push(reg_write(k, "windows.gaming.input", "native,builtin", "REG_SZ"));
    r.push(reg_write(k, "windows.media", "native,builtin", "REG_SZ"));
    r.push(reg_write(k, "windows.ui", "native,builtin", "REG_SZ"));
    r.push(reg_write(k, "twinapi.appcore", "native,builtin", "REG_SZ"));
    r.push(reg_write(k, "coremessaging", "native,builtin", "REG_SZ"));
    r.push(reg_write(k, "wintypes", "native,builtin", "REG_SZ"));
    r.push(reg_write(k, "threadpoolwinrt", "native,builtin", "REG_SZ"));
    assert(writes_view(r@) =~= winrt_override_names().map_values(
        |d: Seq<char>| override_write(d),
    ));
    push_activation(&mut r, "Windows.System.DispatcherQueue", "windows.system.dll");
    push_activation(&mut r, "Windows.System.DispatcherQueueController", "windows.system.dll");
    push_activation(&mut r, "Windows.System.DispatcherQueueTimer", "windows.system.dll");
    r
}

/// The arguments of `wine` that write `w`.
pub open spec fn reg_add_args_of(w: RegWriteView) -> Seq<Seq<char>> {
    seq![
        "reg"@,
        "add"@,
        w.key,
        "/v"@,
        w.value_name,
        "/t"@,
        w.reg_type,
        "/d"@,
        w.data,
        "/f"@,
    ]
}

/// The arguments of `wine` that write `w`, forcing an overwrite.
pub fn reg_add_args(w: &RegWrite) -> (r: Vec<String>)
    ensures
        texts_view(r@) == reg_add_args_of(w@),
{
    let mut r: Vec<String> = Vec::new();
    r.push(String::from_str("reg"));
    r.push(String::from_str("add"));
    r.push(w.key.clone());
    r.push(String::from_str("/v"));
    r.push(w.value_name.clone());
    r.push(String::from_str("/t"));
    r.push(w.reg_type.clone());
    r.push(String::from_str("/d"));
    r.push(w.data.clone());
    r.push(String::from_str("/f"));
    assert(texts_view(r@) =~= reg_add_args_of(w@));
    r
}

/// The error for a `wine reg add` of `w` that exited with `exit_code`.
pub fn reg_add_failed(w: &RegWrite, exit_code: i32) -> (r: PrereqError)
    ensures
        r@ == (PrereqErrorView::ProcessFailed {
            stage: "reg add "@ + w@.key + "/"@ + w@.value_name,
            exit_code,
        }),
{
    PrereqError::ProcessFailed {
        stage: String::from_str("reg add ").concat(w.key.as_str()).concat("/").concat(
            w.value_name.as_str(),
        ),
        exit_code,
    }
}

// ----- staging the Proton WinRT DLLs -----

/// The arguments of `tar` extracting `tarball` into `dest`: only the
/// 64- and 32-bit Wine PE DLL directories when `targeted`, else
/// everything.
pub open spec fn tar_args_of(tarball: Seq<char>, dest: Seq<char>, targeted: bool) -> Seq<Seq<char>> {
    let base = seq!["xzf"@, tarball, "-C"@, dest];
    if targeted {
        base + seq![
            "--include=*/files/lib*/wine/x86_64-windows/*.dll"@,
            "--include=*/files/lib*/wine/i386-windows/*.dll"@,
        ]
    } else {
        base
    }
}

/// The arguments of `tar` extracting `tarball` into `dest`.
pub fn tar_args(tarball: &str, dest: &str, targeted: bool) -> (r: Vec<String>)
    ensures
        texts_view(r@) == tar_args_of(tarball@, dest@, targeted),
{
    let mut r: Vec<String> = Vec::new();
    r.push(String::from_str("xzf"));
    r.push(String::from_str(tarball));
    r.push(String::from_str("-C"));
    r.push(String::from_str(dest));
    if targeted {
        r.push(String::from_str("--include=*/files/lib*/wine/x86_64-windows/*.dll"));
        r.push(String::from_str("--include=*/files/lib*/wine/i386-windows/*.dll"));
    }
    assert(texts_view(r@) =~= tar_args_of(tarball@, dest@, targeted));
    r
}

/// Whether the full extract must follow the targeted one: when the
/// targeted `tar` failed or left no `x86_64-windows` directory.
pub fn needs_full_extract(targeted_ok: bool, found_x64: bool) -> (r: bool)
    ensures
        r == (!targeted_ok || !found_x64),
{
    !targeted_ok || !found_x64
}

/// The outcome of the full extract: a failed `tar` (exit code
/// `exit_code`, or -1 when it was killed by a signal) stops the install.
pub fn full_extract_outcome(ok: bool, exit_code: Option<i32>) -> (r: Result<(), PrereqError>)
    ensures
        ok ==> r is Ok,
        !ok ==> (r matches Err(e) && e@ == (PrereqErrorView::ProcessFailed {
            stage: "tar xzf"@,
            exit_code: match exit_code {
                Some(c) => c,
                None => -1i32,
            },
        })),
{
    if ok {
        Ok(())
    } else {
        Err(PrereqError::ProcessFailed {
            stage: String::from_str("tar xzf"),
            exit_code: match exit_code {
                Some(c) => c,
                None => -1,
            },
        })
    }
}

/// The error when the tarball holds no `x86_64-windows` directory.
pub fn x64_dir_missing() -> (r: PrereqError)
    ensures
        r@ == (PrereqErrorView::DependencyMissing {
            what: "x86_64-windows DLLs"@,
            hint: "Tarball did not contain an x86_64-windows directory. Is this a real GE-Proton release?"@,
        }),
{
    PrereqError::DependencyMissing {
        what: String::from_str("x86_64-windows DLLs"),
        hint: String::from_str(
            "Tarball did not contain an x86_64-windows directory. Is this a real GE-Proton release?",
        ),
    }
}

/// The outcome of staging after `copied` 64-bit DLLs were copied:
/// nothing copied stops the install.
pub fn staging_outcome(copied: usize) -> (r: Result<(), PrereqError>)
    ensures
        copied > 0 ==> r is Ok,
        copied == 0 ==> (r matches Err(e) && e@ == (PrereqErrorView::DependencyMissing {
            what: "Proton WinRT DLLs"@,
            hint: "The tarball did not contain any of the expected windows.*.dll, coremessaging.dll, etc."@,
        })),
{
    if copied == 0 {
        Err(PrereqError::DependencyMissing {
            what: String::from_str("Proton WinRT DLLs"),
            hint: String::from_str(
                "The tarball did not contain any of the expected windows.*.dll, coremessaging.dll, etc.",
            ),
        })
    } else {
        Ok(())
    }
}

} // verus!
