//! Runtime detection and game launch.
//!
//! Where a Wine binary is looked for and in which order, what counts as
//! a Wine version report, and the exact command a game is launched
//! with: its arguments, its environment (the bottle prefix, DXVK's DLL
//! overrides, ESYNC / MSYNC and the game's own variables) and its
//! working directory. Probing the disk and spawning Wine are the
//! caller's.

use vstd::prelude::*;
use vstd::string::StringExecFns;
use vstd::utf8::{decode_utf8, valid_utf8};

use crate::bytes::{str_chars, string_from_chars, string_from_utf8, string_from_utf8_lossy, text_of};
use crate::cellar::library::{first_with_id, games_view, Game, GameSettingsView, GameView};
use crate::cellar::prereq::{first_present, texts_view};
use crate::cellar::wine::pairs_view;
use crate::chars::{split_on, trim, trim_chars};
use crate::error::{dec_text, int_text};

verus! {

/// Why a runtime operation failed.
#[derive(Debug)]
pub enum RuntimeError {
    GameNotFound { id: String },
    WineMissing,
    BottleError { message: String },
    SpawnFailed { message: String },
}

pub enum RuntimeErrorView {
    GameNotFound { id: Seq<char> },
    WineMissing,
    BottleError { message: Seq<char> },
    SpawnFailed { message: Seq<char> },
}

impl View for RuntimeError {
    type V = RuntimeErrorView;

    open spec fn view(&self) -> RuntimeErrorView {
        match self {
            RuntimeError::GameNotFound { id } => RuntimeErrorView::GameNotFound { id: id@ },
            RuntimeError::WineMissing => RuntimeErrorView::WineMissing,
            RuntimeError::BottleError { message } => RuntimeErrorView::BottleError {
                message: message@,
            },
            RuntimeError::SpawnFailed { message } => RuntimeErrorView::SpawnFailed {
                message: message@,
            },
        }
    }
}

/// What is installed.
#[derive(Debug)]
pub struct RuntimeStatus {
    pub wine_path: Option<String>,
    pub wine_version: Option<String>,
    pub gptk_present: bool,
    pub rosetta_installed: bool,
}

/// The directories holding a Wine binary, best first, for the home
/// directory `home`: cellar's bundled wine-staging, Mythic, CrossOver,
/// Apple's Game Porting Toolkit (Homebrew on Intel and on Apple
/// silicon, then the app) and Whisky's archived Wine.
pub open spec fn wine_locations(home: Seq<char>) -> Seq<Seq<char>> {
    seq![
        home + "/.cellar/wine-staging/Wine Staging.app/Contents/Resources/wine/bin"@,
        home + "/Library/Application Support/Mythic/Engine/wine/bin"@,
        "/Applications/CrossOver.app/Contents/SharedSupport/CrossOver/bin"@,
        "/usr/local/opt/game-porting-toolkit/bin"@,
        "/opt/homebrew/opt/game-porting-toolkit/bin"@,
        "/Applications/Game Porting Toolkit.app/Contents/Resources/wine/bin"@,
        home + "/Library/Application Support/com.isaacmarovitz.Whisky/Libraries/Wine/bin"@,
    ]
}

/// Each directory of `dirs` in turn, joined with `first`, then with
/// `second`.
pub open spec fn both_names(dirs: Seq<Seq<char>>, first: Seq<char>, second: Seq<char>) -> Seq<Seq<char>>
    decreases dirs.len(),
{
    if dirs.len() == 0 {
        Seq::empty()
    } else {
        both_names(dirs.drop_last(), first, second) + seq![dirs.last() + first, dirs.last() + second]
    }
}

/// The non-empty parts of a sequence of texts, in order.
pub open spec fn nonempty_parts(parts: Seq<Seq<char>>) -> Seq<Seq<char>>
    decreases parts.len(),
{
    if parts.len() == 0 {
        Seq::empty()
    } else if parts.last().len() == 0 {
        nonempty_parts(parts.drop_last())
    } else {
        nonempty_parts(parts.drop_last()).push(parts.last())
    }
}

/// The directories of a `PATH` value: its `:`-separated non-empty parts.
pub open spec fn path_dirs(path_var: Seq<char>) -> Seq<Seq<char>> {
    nonempty_parts(split_on(path_var, ':'))
}

/// Where a Wine binary is looked for, best first: the path set in
/// `CELLAR_WINE` (`chosen`), if any; `wine`, then `wine64` in each of
/// [`wine_locations`]; then `wine64`, then `wine` in each directory of
/// the `PATH` value `path_var`.
pub open spec fn wine_candidates_of(chosen: Option<Seq<char>>, home: Seq<char>, path_var: Seq<char>) -> Seq<
    Seq<char>,
> {
    (match chosen {
        Some(c) => seq![c],
        None => Seq::empty(),
    }) + both_names(wine_locations(home), "/wine"@, "/wine64"@) + both_names(
        path_dirs(path_var),
        "/wine64"@,
        "/wine"@,
    )
}

fn text(s: &str) -> (r: String)
    ensures
        r@ == s@,
{
    String::from_str(s)
}

fn under(home: &str, rest: &str) -> (r: String)
    ensures
        r@ == home@ + rest@,
{
    String::from_str(home).concat(rest)
}

/// Push `dir` joined with `first`, then with `second`.
fn push_both(out: &mut Vec<String>, dir: &str, first: &str, second: &str)
    ensures
        texts_view(final(out)@) == texts_view(old(out)@) + seq![dir@ + first@, dir@ + second@],
{
    let ghost before = texts_view(out@);
    out.push(under(dir, first));
    out.push(under(dir, second));
    assert(texts_view(out@) =~= before + seq![dir@ + first@, dir@ + second@]);
}

/// Push every directory of `dirs` joined with `first`, then with
/// `second`.
fn push_all_both(out: &mut Vec<String>, dirs: &Vec<String>, first: &str, second: &str)
    ensures
        texts_view(final(out)@) == texts_view(old(out)@) + both_names(texts_view(dirs@), first@, second@),
{
    let ghost start = texts_view(out@);
    let ghost dv = texts_view(dirs@);
    let mut i: usize = 0;
    assert(dv.subrange(0, 0) =~= Seq::<Seq<char>>::empty());
    while i < dirs.len()
        invariant
            i <= dirs.len(),
            dv == texts_view(dirs@),
            texts_view(out@) == start + both_names(dv.subrange(0, i as int), first@, second@),
        decreases dirs.len() - i,
    {
        push_both(out, dirs[i].as_str(), first, second);
        proof {
            assert(dv.subrange(0, i + 1).drop_last() =~= dv.subrange(0, i as int));
            assert(dv.subrange(0, i + 1).last() == dv[i as int]);
            assert(start + both_names(dv.subrange(0, i + 1), first@, second@) =~= start + both_names(
                dv.subrange(0, i as int),
                first@,
                second@,
            ) + seq![dv[i as int] + first@, dv[i as int] + second@]);
        }
        i = i + 1;
    }
    assert(dv.subrange(0, i as int) =~= dv);
}

/// The directories of the `PATH` value `path_var`.
pub fn path_directories(path_var: &str) -> (r: Vec<String>)
    ensures
        texts_view(r@) == path_dirs(path_var@),
{
    let chars = crate::bytes::str_chars(path_var);
    let parts = crate::chars::split_chars(chars.as_slice(), ':');
    let ghost pv = parts@.map_values(|v: Vec<char>| v@);
    let mut r: Vec<String> = Vec::new();
    let mut i: usize = 0;
    assert(pv.subrange(0, 0) =~= Seq::<Seq<char>>::empty());
    while i < parts.len()
        invariant
            i <= parts.len(),
            pv == parts@.map_values(|v: Vec<char>| v@),
            texts_view(r@) == nonempty_parts(pv.subrange(0, i as int)),
        decreases parts.len() - i,
    {
        proof {
            assert(pv.subrange(0, i + 1).drop_last() =~= pv.subrange(0, i as int));
            assert(pv.subrange(0, i + 1).last() == parts@[i as int]@);
        }
        if parts[i].len() > 0 {
            let ghost before = texts_view(r@);
            r.push(crate::bytes::string_from_chars(parts[i].as_slice()));
            assert(texts_view(r@) =~= before.push(parts@[i as int]@));
        }
        i = i + 1;
    }
    assert(pv.subrange(0, i as int) =~= pv);
    r
}

/// Where a Wine binary is looked for, best first, for the value of
/// `CELLAR_WINE` (`chosen`, if set), the home directory `home` and the
/// `PATH` value `path_var`.
pub fn wine_candidates(chosen: Option<&str>, home: &str, path_var: &str) -> (r: Vec<String>)
    ensures
        texts_view(r@) == wine_candidates_of(
            match chosen {
                Some(c) => Some(c@),
                None => None,
            },
            home@,
            path_var@,
        ),
{
    let mut locs: Vec<String> = Vec::new();
    locs.push(under(home, "/.cellar/wine-staging/Wine Staging.app/Contents/Resources/wine/bin"));
    locs.push(under(home, "/Library/Application Support/Mythic/Engine/wine/bin"));
    locs.push(text("/Applications/CrossOver.app/Contents/SharedSupport/CrossOver/bin"));
    locs.push(text("/usr/local/opt/game-porting-toolkit/bin"));
    locs.push(text("/opt/homebrew/opt/game-porting-toolkit/bin"));
    locs.push(text("/Applications/Game Porting Toolkit.app/Contents/Resources/wine/bin"));
    locs.push(under(home, "/Library/Application Support/com.isaacmarovitz.Whisky/Libraries/Wine/bin"));
    assert(texts_view(locs@) =~= wine_locations(home@));
    let mut r: Vec<String> = Vec::new();
    match chosen {
        Some(c) => r.push(text(c)),
        None => {},
    }
    let ghost first = texts_view(r@);
    push_all_both(&mut r, &locs, "/wine", "/wine64");
    let dirs = path_directories(path_var);
    push_all_both(&mut r, &dirs, "/wine64", "/wine");
    assert(first =~= match chosen {
        Some(c) => seq![c@],
        None => Seq::<Seq<char>>::empty(),
    });
    r
}

/// The paths whose presence shows a modern Wine source (cellar's
/// staging build, Mythic, CrossOver, the Game Porting Toolkit or
/// Whisky), for the home directory `home`.
pub open spec fn gptk_markers_of(home: Seq<char>) -> Seq<Seq<char>> {
    seq![
        home + "/.cellar/wine-staging/Wine Staging.app"@,
        "/Applications/Mythic.app"@,
        "/Applications/CrossOver.app"@,
        "/opt/homebrew/opt/game-porting-toolkit"@,
        "/usr/local/opt/game-porting-toolkit"@,
        "/Applications/Game Porting Toolkit.app"@,
        home + "/Library/Application Support/com.isaacmarovitz.Whisky/Libraries/Wine/bin/wine64"@,
    ]
}

/// The paths whose presence shows a modern Wine source.
pub fn gptk_markers(home: &str) -> (r: Vec<String>)
    ensures
        texts_view(r@) == gptk_markers_of(home@),
{
    let mut r: Vec<String> = Vec::new();
    r.push(under(home, "/.cellar/wine-staging/Wine Staging.app"));
    r.push(text("/Applications/Mythic.app"));
    r.push(text("/Applications/CrossOver.app"));
    r.push(text("/opt/homebrew/opt/game-porting-toolkit"));
    r.push(text("/usr/local/opt/game-porting-toolkit"));
    r.push(text("/Applications/Game Porting Toolkit.app"));
    r.push(
        under(
            home,
            "/Library/Application Support/com.isaacmarovitz.Whisky/Libraries/Wine/bin/wine64",
        ),
    );
    assert(texts_view(r@) =~= gptk_markers_of(home@));
    r
}

/// The path whose presence shows Rosetta is installed.
pub fn rosetta_marker() -> (r: String)
    ensures
        r@ == "/Library/Apple/usr/share/rosetta/rosetta"@,
{
    text("/Library/Apple/usr/share/rosetta/rosetta")
}

/// The Wine binary to use: the first of `candidates` present on disk
/// (`present[i]` tells whether `candidates[i]` exists). A manual
/// override, when set, is put first among the candidates.
pub fn find_wine_bin(candidates: &[String], present: &[bool]) -> (r: Option<String>)
    requires
        candidates@.len() == present@.len(),
    ensures
        match first_present(present@) {
            Some(i) => r matches Some(p) && p@ == candidates@[i]@,
            None => r is None,
        },
{
    crate::cellar::prereq::find_proton_tarball(candidates, present)
}

/// What `wine --version` reported: its output, when it is UTF-8, with
/// surrounding white space trimmed.
pub open spec fn version_of(stdout: Seq<u8>) -> Option<Seq<char>> {
    if valid_utf8(stdout) {
        Some(trim(decode_utf8(stdout)))
    } else {
        None
    }
}

/// The Wine version reported on `stdout`, if it is text.
pub fn wine_version(stdout: &[u8]) -> (r: Option<String>)
    ensures
        match version_of(stdout@) {
            Some(v) => r matches Some(s) && s@ == v,
            None => r is None,
        },
{
    match string_from_utf8(stdout) {
        None => None,
        Some(s) => {
            let cs = str_chars(s.as_str());
            let t = trim_chars(cs.as_slice());
            Some(string_from_chars(t.as_slice()))
        },
    }
}

/// How `{:?}` shows an exit code: "Some(<code>)" or "None".
pub open spec fn exit_code_debug(code: Option<i32>) -> Seq<char> {
    match code {
        Some(c) => "Some("@ + int_text(c as int) + ")"@,
        None => "None"@,
    }
}

pub(crate) fn exit_code_text(code: Option<i32>) -> (r: String)
    ensures
        r@ == exit_code_debug(code),
{
    match code {
        Some(c) => {
            let d = dec_text(c as i64);
            String::from_str("Some(").concat(d.as_str()).concat(")")
        },
        None => String::from_str("None"),
    }
}

/// What a smoke test of Wine reports: on success the version output,
/// trimmed; otherwise the exit code and the error output.
pub open spec fn smoke_test_of(
    success: bool,
    code: Option<i32>,
    stdout: Seq<u8>,
    stderr: Seq<u8>,
) -> Result<Seq<char>, RuntimeErrorView> {
    if success {
        Ok(trim(text_of(stdout)))
    } else {
        Err(
            RuntimeErrorView::SpawnFailed {
                message: "wine64 --version exited "@ + exit_code_debug(code) + ". stderr: "@
                    + text_of(stderr),
            },
        )
    }
}

/// The result of running `wine --version` as a smoke test, from how the
/// process ended and what it printed.
pub fn smoke_test_result(success: bool, code: Option<i32>, stdout: &[u8], stderr: &[u8]) -> (r:
    Result<String, RuntimeError>)
    ensures
        match smoke_test_of(success, code, stdout@, stderr@) {
            Ok(v) => r matches Ok(s) && s@ == v,
            Err(e) => r matches Err(e2) && e2@ == e,
        },
{
    if success {
        let out = string_from_utf8_lossy(stdout);
        let cs = str_chars(out.as_str());
        let t = trim_chars(cs.as_slice());
        Ok(string_from_chars(t.as_slice()))
    } else {
        let c = exit_code_text(code);
        let err = string_from_utf8_lossy(stderr);
        Err(
            RuntimeError::SpawnFailed {
                message: String::from_str("wine64 --version exited ").concat(c.as_str()).concat(
                    ". stderr: ",
                ).concat(err.as_str()),
            },
        )
    }
}

/// The game with id `id` among `games` (the first, if several).
pub fn find_game(games: &[Game], id: &str) -> (r: Result<Game, RuntimeError>)
    ensures
        match first_with_id(games_view(games@), id@) {
            Some(i) => r matches Ok(g) && g@ == games@[i]@,
            None => r matches Err(e) && e@ == (RuntimeErrorView::GameNotFound { id: id@ }),
        },
{
    let ghost gv = games_view(games@);
    proof {
        crate::cellar::library::lemma_first_with_id(gv, id@);
    }
    let cid = str_chars(id);
    let mut i: usize = 0;
    while i < games.len()
        invariant
            i <= games.len(),
            gv == games_view(games@),
            forall|j: int| 0 <= j < i ==> gv[j].id != id@,
            first_with_id(gv, id@) matches Some(k) ==> 0 <= k < gv.len() && gv[k].id == id@
                && forall|j: int| 0 <= j < k ==> gv[j].id != id@,
            first_with_id(gv, id@) is None ==> forall|j: int| 0 <= j < gv.len() ==> gv[j].id != id@,
            cid@ == id@,
        decreases games.len() - i,
    {
        let gid = str_chars(games[i].id.as_str());
        assert(gv[i as int] == games@[i as int]@);
        if crate::chars::eq_chars(gid.as_slice(), cid.as_slice()) {
            proof {
                if let Some(k) = first_with_id(gv, id@) {
                    if k > i {
                        assert(gv[i as int].id == id@);
                    }
                }
            }
            return Ok(games[i].duplicate());
        }
        i = i + 1;
    }
    Err(RuntimeError::GameNotFound { id: String::from_str(id) })
}

/// How a game is started.
#[derive(Debug)]
pub struct LaunchCommand {
    /// The Wine binary.
    pub program: String,
    /// Its arguments: the game's `.exe`, then the game's own arguments.
    pub args: Vec<String>,
    /// Environment variables set, in order.
    pub env: Vec<(String, String)>,
    /// The working directory: where the game is installed.
    pub current_dir: String,
}

/// DXVK's DLL overrides, followed by `;` and the game's own extra
/// overrides when it has some.
pub open spec fn dxvk_overrides(extra: Option<Seq<char>>) -> Seq<char> {
    match extra {
        Some(o) => if o.len() > 0 {
            "d3d11,d3d10core,dxgi=n;"@ + o
        } else {
            "d3d11,d3d10core,dxgi=n"@
        },
        None => "d3d11,d3d10core,dxgi=n"@,
    }
}

/// The environment a game runs with: its bottle's prefix, the DLL
/// overrides when DXVK is on (DXVK's own, then the game's extra ones),
/// ESYNC and MSYNC as "1" or "0", then the game's own variables.
pub open spec fn launch_env_of(s: GameSettingsView, prefix: Seq<char>) -> Seq<
    (Seq<char>, Seq<char>),
> {
    let head = seq![("WINEPREFIX"@, prefix)];
    let dx = if s.dxvk {
        head.push(("WINEDLLOVERRIDES"@, dxvk_overrides(s.dll_overrides)))
    } else {
        head
    };
    dx.push(("WINEESYNC"@, if s.esync { "1"@ } else { "0"@ })).push(
        ("WINEMSYNC"@, if s.msync { "1"@ } else { "0"@ }),
    ) + s.env
}

/// The command that launches `game` with the Wine binary `wine_bin` in
/// the bottle prefix `prefix`.
pub fn launch_command(game: &Game, wine_bin: &str, prefix: &str) -> (r: LaunchCommand)
    ensures
        r.program@ == wine_bin@,
        texts_view(r.args@) == seq![game@.launch_exe] + game@.settings.launch_args,
        pairs_view(r.env@) == launch_env_of(game@.settings, prefix@),
        r.current_dir@ == game@.install_dir,
{
    let mut args: Vec<String> = Vec::new();
    args.push(game.launch_exe.clone());
    let mut i: usize = 0;
    while i < game.settings.launch_args.len()
        invariant
            i <= game.settings.launch_args.len(),
            texts_view(args@) =~= seq![game@.launch_exe] + game@.settings.launch_args.subrange(
                0,
                i as int,
            ),
        decreases game.settings.launch_args.len() - i,
    {
        let ghost before = texts_view(args@);
        args.push(game.settings.launch_args[i].clone());
        assert(texts_view(args@) =~= before.push(game@.settings.launch_args[i as int]));
        assert(game@.settings.launch_args.subrange(0, i + 1) =~= game@.settings.launch_args.subrange(
            0,
            i as int,
        ).push(game@.settings.launch_args[i as int]));
        i = i + 1;
    }
    assert(game@.settings.launch_args.subrange(0, i as int) =~= game@.settings.launch_args);
    let mut env: Vec<(String, String)> = Vec::new();
    env.push((text("WINEPREFIX"), text(prefix)));
    if game.settings.dxvk {
        let mut value = text("d3d11,d3d10core,dxgi=n");
        proof {
            reveal_strlit("d3d11,d3d10core,dxgi=n");
            reveal_strlit("d3d11,d3d10core,dxgi=n;");
            reveal_strlit(";");
        }
        match &game.settings.dll_overrides {
            Some(extra) => {
                if crate::bytes::str_chars(extra.as_str()).len() > 0 {
                    value.append(";");
                    value.append(extra.as_str());
                    assert(value@ =~= "d3d11,d3d10core,dxgi=n;"@ + extra@);
                }
            },
            None => {},
        }
        env.push((text("WINEDLLOVERRIDES"), value));
    }
    env.push((text("WINEESYNC"), text(if game.settings.esync { "1" } else { "0" })));
    env.push((text("WINEMSYNC"), text(if game.settings.msync { "1" } else { "0" })));
    let ghost head = pairs_view(env@);
    let mut j: usize = 0;
    while j < game.settings.env.len()
        invariant
            j <= game.settings.env.len(),
            pairs_view(env@) =~= head + game@.settings.env.subrange(0, j as int),
        decreases game.settings.env.len() - j,
    {
        let (k, v) = &game.settings.env[j];
        let ghost before = pairs_view(env@);
        env.push((k.clone(), v.clone()));
        assert(pairs_view(env@) =~= before.push(game@.settings.env[j as int]));
        assert(game@.settings.env.subrange(0, j + 1) =~= game@.settings.env.subrange(0, j as int).push(
            game@.settings.env[j as int],
        ));
        j = j + 1;
    }
    assert(game@.settings.env.subrange(0, j as int) =~= game@.settings.env);
    LaunchCommand {
        program: text(wine_bin),
        args,
        env,
        current_dir: game.install_dir.clone(),
    }
}

/// The error for a game whose bottle prefix is missing.
pub fn prefix_missing(game_name: &str) -> (r: RuntimeError)
    ensures
        r@ == (RuntimeErrorView::BottleError {
            message: "bottle prefix missing for game "@ + game_name@,
        }),
{
    RuntimeError::BottleError {
        message: String::from_str("bottle prefix missing for game ").concat(game_name),
    }
}

} // verus!
