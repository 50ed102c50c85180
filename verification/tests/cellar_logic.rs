use freearc_cellar::cellar::wine::{dxvk_sources, first_found, winetricks_candidates};
use freearc_cellar::cellar::prereq::{
    full_extract_outcome, needs_full_extract, staging_outcome, tar_args, x64_dir_missing,
};
use freearc_cellar::cellar::d3dmetal::{frameworks_dir_in, pin_action, pin_path_in, pinned_version, version_choices, PinAction};
use freearc_cellar::cellar::installer::{detect_installer, find_setup_exe, installer_exe_priority, InstallerKind, RootEntry};
use freearc_cellar::cellar::library::{new_game, Game, GameSettings, Library, LibraryError, LibraryFile};
use freearc_cellar::cellar::order::stable_order_desc;
use freearc_cellar::cellar::prereq::{
    check_one, find_proton_tarball, install_plan, probe_for, proton_tarball_candidates, proton_winrt_dlls,
    reg_add_args, reg_add_failed, tarball_missing_error, winetricks_outcome, winrt_registry_writes, CheckProbe,
    InstallPlan, PrereqError, ProbeFacts,
};
use freearc_cellar::cellar::profiles::{find_for, merge_profiles, Profile};
use freearc_cellar::cellar::runtime::{
    find_game, find_wine_bin, launch_command, prefix_missing, smoke_test_result, wine_candidates, wine_version,
    RuntimeError,
};
use freearc_cellar::cellar::tools::{crash_report, crash_zip_path, script_failed, ToolError};
use freearc_cellar::cellar::watch::{announcement, SeenDirs};
use freearc_cellar::cellar::wine::{
    augmented_path, bottle_dir_in, bottle_metadata_in, bottle_prefix_in, is_launcher_candidate, is_uninteresting_dir,
    newest_first, new_bottle, path_join, rank_exe_candidates, stderr_tail, verb_skips_sha_check, winetricks_env,
    ExeCandidate,
};

fn game(id: &str, name: &str) -> Game {
    Game {
        id: id.to_string(),
        name: name.to_string(),
        bottle_id: "b1".to_string(),
        install_dir: "/games/x".to_string(),
        launch_exe: "C:\\x.exe".to_string(),
        last_played_ms: None,
        total_play_ms: 0,
        settings: GameSettings::default(),
    }
}

fn ids(l: &Library) -> Vec<String> {
    l.list().into_iter().map(|g| g.id).collect()
}

#[test]
fn library_add_remove_update() {
    let mut lib = Library::new(LibraryFile::default());
    assert!(lib.add(game("a", "Alpha")).is_ok());
    assert!(lib.add(game("b", "Beta")).is_ok());
    assert!(lib.add(game("a", "Alpha again")).is_ok());
    assert_eq!(ids(&lib), vec!["a", "b", "a"]);

    let mut s = GameSettings::default();
    s.dxvk = false;
    s.launch_args = vec!["-windowed".to_string()];
    assert!(lib.update_settings("b", s).is_ok());
    let listed = lib.list();
    assert!(!listed[1].settings.dxvk);
    assert_eq!(listed[1].settings.launch_args, vec!["-windowed".to_string()]);
    assert!(listed[0].settings.dxvk);

    assert!(lib.mark_played_at("a", 1234).is_ok());
    assert_eq!(lib.list()[0].last_played_ms, Some(1234));
    assert_eq!(lib.list()[2].last_played_ms, None);
    assert!(lib.mark_played_now("b").is_ok());
    assert!(matches!(lib.list()[1].last_played_ms, Some(t) if t > 1234));
    assert_eq!(lib.list()[2].last_played_ms, None);
    assert_eq!(lib.list()[0].last_played_ms, Some(1234));

    assert!(lib.add_play_time("b", 500).is_ok());
    assert!(lib.add_play_time("b", 250).is_ok());
    assert_eq!(lib.list()[1].total_play_ms, 750);

    assert!(lib.remove("a").is_ok());
    assert_eq!(ids(&lib), vec!["b"]);
    assert!(lib.file().games.len() == 1);
}

#[test]
fn library_missing_id_is_not_found() {
    let mut lib = Library::new(LibraryFile { games: vec![game("a", "Alpha")] });
    match lib.remove("zzz") {
        Err(LibraryError::NotFound { id }) => assert_eq!(id, "zzz"),
        _ => panic!("expected NotFound"),
    }
    assert!(matches!(lib.update_settings("zzz", GameSettings::default()), Err(LibraryError::NotFound { .. })));
    assert!(matches!(lib.mark_played_at("zzz", 1), Err(LibraryError::NotFound { .. })));
    assert!(matches!(lib.mark_played_now("zzz"), Err(LibraryError::NotFound { .. })));
    assert!(matches!(lib.add_play_time("zzz", 1), Err(LibraryError::NotFound { .. })));
    assert_eq!(ids(&lib), vec!["a"]);
}

#[test]
fn play_time_saturates() {
    let mut g = game("a", "Alpha");
    g.total_play_ms = u128::MAX - 1;
    let mut lib = Library::new(LibraryFile { games: vec![g] });
    assert!(lib.add_play_time("a", 10).is_ok());
    assert_eq!(lib.list()[0].total_play_ms, u128::MAX);
}

#[test]
fn default_settings_turn_on_dxvk_and_sync() {
    let s = GameSettings::default();
    assert!(s.dxvk && s.esync && s.msync);
    assert!(!s.metal_fences && !s.metal_hud);
    assert!(s.dll_overrides.is_none() && s.env.is_empty() && s.launch_args.is_empty());
}

fn profile(id: &str, hints: &[&str], dxvk: bool) -> Profile {
    let mut settings = GameSettings::default();
    settings.dxvk = dxvk;
    Profile {
        id: id.to_string(),
        name: format!("{} profile", id),
        match_name_contains: hints.iter().map(|h| h.to_string()).collect(),
        description: String::new(),
        settings,
        requires: vec![],
    }
}

#[test]
fn profiles_match_ignoring_case_first_wins() {
    let ps = vec![profile("unity", &["unity"], true), profile("ue", &["unreal", "ue4"], false), profile("any", &["e"], true)];
    assert_eq!(find_for("My UNREAL Game", &ps).unwrap().id, "ue");
    assert_eq!(find_for("Unity Unreal", &ps).unwrap().id, "unity");
    assert!(find_for("xyz", &ps).is_none());
    let g = new_game("Some Unreal title".into(), "b".into(), "/d".into(), "x.exe".into(), &ps);
    assert!(!g.settings.dxvk);
    assert_eq!(g.id.len(), 36);
    assert_eq!(g.total_play_ms, 0);
    let g2 = new_game("Plain".into(), "b".into(), "/d".into(), "x.exe".into(), &[]);
    assert!(g2.settings.dxvk);
    assert_ne!(g.id, g2.id);
}

#[test]
fn user_profiles_shadow_bundled() {
    let user = vec![profile("ue", &["mine"], true)];
    let bundled = vec![profile("unity", &["unity"], true), profile("ue", &["unreal"], false)];
    let merged = merge_profiles(user, bundled);
    let ids: Vec<&str> = merged.iter().map(|p| p.id.as_str()).collect();
    assert_eq!(ids, vec!["ue", "unity"]);
    assert_eq!(merged[0].match_name_contains, vec!["mine".to_string()]);
}

fn entry(name: &str, is_file: bool) -> RootEntry {
    RootEntry { name: name.to_string(), path: format!("/r/{}", name), is_file }
}

#[test]
fn installer_priorities() {
    assert_eq!(installer_exe_priority("setup.exe"), 0);
    assert_eq!(installer_exe_priority("SETUP.EXE"), 0);
    assert_eq!(installer_exe_priority("setup-fitgirl-selective.exe"), 1);
    assert_eq!(installer_exe_priority("setup-multi2.exe"), 2);
    assert_eq!(installer_exe_priority("setup-other.exe"), 3);
    assert_eq!(installer_exe_priority("install.exe"), 4);
    assert_eq!(installer_exe_priority("install-x.exe"), 5);
    assert_eq!(installer_exe_priority("setup-language.exe"), 100);
    assert_eq!(installer_exe_priority("vcredist_x64.exe"), 100);
    assert_eq!(installer_exe_priority("game.exe"), 99);
}

#[test]
fn setup_pick_prefers_main_wizard() {
    let es = vec![
        entry("setup-language.exe", true),
        entry("setup-multi2.exe", true),
        entry("setup.exe", false),
        entry("readme.txt", true),
        entry("setup-multi3.exe", true),
    ];
    assert_eq!(find_setup_exe(&es), Some(1));
    assert_eq!(find_setup_exe(&[entry("game.exe", true)]), None);
}

#[test]
fn detects_fitgirl_repack() {
    let es = vec![entry("fg-01.bin", true), entry("setup.exe", true), entry("MD5", false)];
    let r = detect_installer(&es, "/r", "r");
    assert_eq!(r.kind, InstallerKind::FitGirl);
    assert_eq!(r.setup_exe.as_deref(), Some("/r/setup.exe"));
    assert_eq!(r.hints, vec!["found fg-01.bin".to_string()]);
}

#[test]
fn detects_kinds_from_names() {
    let r = detect_installer(&[entry("DODI-bins", false)], "/r", "r");
    assert_eq!(r.kind, InstallerKind::Dodi);
    assert_eq!(r.setup_exe, None);
    let r = detect_installer(&[entry("KaOs.txt", true)], "/r", "r");
    assert_eq!(r.kind, InstallerKind::Kaos);
    let r = detect_installer(&[entry("install.exe", true)], "/r", "r");
    assert_eq!(r.kind, InstallerKind::InnoSetup);
    let r = detect_installer(&[], "/r/Game.msi.exe", "Game.msi.exe");
    assert_eq!(r.kind, InstallerKind::Unknown);
    assert_eq!(r.setup_exe.as_deref(), Some("/r/Game.msi.exe"));
    let r = detect_installer(&[], "/r/.exe", ".exe");
    assert_eq!(r.setup_exe, None);
}

#[test]
fn paths_follow_the_cellar_layout() {
    assert_eq!(bottle_dir_in("/home/u", "abc"), "/home/u/.cellar/bottles/abc");
    assert_eq!(bottle_prefix_in("/home/u/", "abc"), "/home/u/.cellar/bottles/abc/prefix");
    assert_eq!(bottle_metadata_in("/home/u", "abc"), "/home/u/.cellar/bottles/abc/bottle.json");
    assert_eq!(path_join("/a", "/b"), "/b");
    assert_eq!(path_join("", "b"), "b");
    assert_eq!(pin_path_in("/h", "id"), "/h/.cellar/bottles/id/d3dmetal-version");
    assert_eq!(frameworks_dir_in("/h"), "/h/.cellar/d3dmetal");
}

#[test]
fn launcher_filters() {
    assert!(is_uninteresting_dir("Windows"));
    assert!(is_uninteresting_dir("$Recycle.Bin"));
    assert!(!is_uninteresting_dir("Games"));
    assert!(is_launcher_candidate("Game.EXE", 1 << 20));
    assert!(!is_launcher_candidate("unins000.exe", 1 << 20));
    assert!(!is_launcher_candidate("game.exe", 1000));
    assert!(!is_launcher_candidate("game.dll", 1 << 20));
    assert!(is_launcher_candidate("tiny.exe", 65536));
}

fn cand(name: &str, size: u64) -> ExeCandidate {
    ExeCandidate {
        path: format!("/p/{}", name),
        name: name.to_string(),
        parent_dir: "/p".to_string(),
        size,
        modified_ms: 0,
    }
}

#[test]
fn candidates_biggest_first_stable_and_capped() {
    let found = vec![cand("a", 10), cand("b", 30), cand("c", 10), cand("d", 30), cand("e", 20)];
    let r = rank_exe_candidates(found.clone(), None);
    let names: Vec<&str> = r.iter().map(|c| c.name.as_str()).collect();
    assert_eq!(names, vec!["b", "d", "e", "a", "c"]);
    let r = rank_exe_candidates(found, Some(2));
    let names: Vec<&str> = r.iter().map(|c| c.name.as_str()).collect();
    assert_eq!(names, vec!["b", "d"]);
    let many: Vec<ExeCandidate> = (0..30).map(|i| cand(&format!("g{}", i), i)).collect();
    assert_eq!(rank_exe_candidates(many, None).len(), 20);
}

#[test]
fn stable_order_of_keys() {
    assert_eq!(stable_order_desc(&[1, 3, 1, 3, 2]), vec![1, 3, 4, 0, 2]);
    assert_eq!(stable_order_desc(&[]), Vec::<usize>::new());
}

#[test]
fn bottles_newest_first() {
    let bs = vec![
        new_bottle("old".into(), "Old".into(), "win10".into(), 100),
        new_bottle("new".into(), "New".into(), "win11".into(), 300),
        new_bottle("mid".into(), "Mid".into(), "win7".into(), 200),
    ];
    let ids: Vec<String> = newest_first(bs).into_iter().map(|b| b.id).collect();
    assert_eq!(ids, vec!["new", "mid", "old"]);
}

#[test]
fn winetricks_environment() {
    assert!(verb_skips_sha_check("vcrun2022"));
    assert!(verb_skips_sha_check("dotnet48"));
    assert!(verb_skips_sha_check("d3dx9"));
    assert!(verb_skips_sha_check("ucrtbase2019"));
    assert!(!verb_skips_sha_check("corefonts"));
    let env = winetricks_env("/pfx", "/bin/wine", "vcrun2022");
    assert_eq!(env.len(), 5);
    assert_eq!(env[0], ("WINEPREFIX".to_string(), "/pfx".to_string()));
    assert_eq!(env[4], ("WINETRICKS_FORCE".to_string(), "1".to_string()));
    assert_eq!(winetricks_env("/pfx", "/bin/wine", "corefonts").len(), 4);
    assert_eq!(augmented_path("", "/usr/bin"), "/opt/homebrew/bin:/usr/local/bin:/usr/bin");
    assert_eq!(augmented_path("/w/bin", "/usr/bin"), "/w/bin:/opt/homebrew/bin:/usr/local/bin:/usr/bin");
}

#[test]
fn stderr_tail_keeps_last_six_lines() {
    assert_eq!(stderr_tail(b"1\n2\n3\n4\n5\n6\n7\n8\n"), "3 | 4 | 5 | 6 | 7 | 8");
    assert_eq!(stderr_tail(b"a\r\nb"), "a | b");
    assert_eq!(stderr_tail(b""), "");
    assert_eq!(stderr_tail(b"only\n"), "only");
}

#[test]
fn prereq_checks_from_facts() {
    let none = ProbeFacts { target_exists: false, target_size: None, plugins_present: false, libav_present: false };
    let r = check_one("proton_winrt_dlls", &none);
    assert!(!r.satisfied);
    assert_eq!(r.detail.as_deref(), Some("coremessaging.dll missing in system32"));
    let stub = ProbeFacts { target_exists: true, target_size: Some(80_000), plugins_present: false, libav_present: false };
    let r = check_one("winetricks_mf", &stub);
    assert!(!r.satisfied);
    assert_eq!(r.detail.as_deref(), Some("mfplat.dll present but looks like wine builtin (run winetricks mf)"));
    let native = ProbeFacts { target_exists: true, target_size: Some(2_000_000), plugins_present: false, libav_present: false };
    assert!(check_one("winetricks_mf", &native).satisfied);
    let gst = ProbeFacts { target_exists: false, target_size: None, plugins_present: true, libav_present: false };
    assert_eq!(
        check_one("homebrew_gstreamer", &gst).detail.as_deref(),
        Some("gstreamer found but gst-libav missing (run brew install gst-libav)")
    );
    let r = check_one("what", &none);
    assert!(!r.satisfied);
    assert_eq!(r.detail.as_deref(), Some("no detection rule"));
    match probe_for("winetricks_vcrun2003") {
        CheckProbe::InPrefix { path } => assert_eq!(path, "drive_c/windows/system32/msvcr71.dll"),
        _ => panic!("expected a prefix probe"),
    }
    assert!(matches!(probe_for("homebrew_gstreamer"), CheckProbe::Gstreamer));
    assert!(matches!(probe_for("x"), CheckProbe::NoRule));
}

#[test]
fn prereq_install_plans() {
    match install_plan("winetricks_mf") {
        Ok(InstallPlan::Winetricks { verb }) => assert_eq!(verb, "mf"),
        _ => panic!(),
    }
    assert!(matches!(install_plan("proton_winrt_dlls"), Ok(InstallPlan::ProtonWinrt)));
    assert!(matches!(install_plan("homebrew_gstreamer"), Err(PrereqError::ManualActionRequired { .. })));
    match install_plan("bogus") {
        Err(PrereqError::UnknownRequire { id }) => assert_eq!(id, "bogus"),
        _ => panic!(),
    }
    let (r, d) = winetricks_outcome("mf", 0);
    assert!(r.is_ok());
    assert_eq!(d, "winetricks mf ok");
    let (r, d) = winetricks_outcome("mf", 3);
    match r {
        Err(PrereqError::ProcessFailed { stage, exit_code }) => {
            assert_eq!(stage, "winetricks mf");
            assert_eq!(exit_code, 3);
        }
        _ => panic!(),
    }
    assert_eq!(d, "winetricks mf exited 3");
}

#[test]
fn proton_tarball_and_registry() {
    let c = proton_tarball_candidates("/h");
    assert_eq!(c, vec!["/tmp/ge-proton.tar.gz", "/h/.cellar/cache/ge-proton.tar.gz", "/h/Downloads/ge-proton.tar.gz"]);
    assert_eq!(find_proton_tarball(&c, &[false, true, true]).as_deref(), Some("/h/.cellar/cache/ge-proton.tar.gz"));
    assert_eq!(find_proton_tarball(&c, &[false, false, false]), None);
    match tarball_missing_error(&c) {
        PrereqError::DependencyMissing { what, hint } => {
            assert_eq!(what, "GE-Proton tarball");
            assert!(hint.ends_with("save it as one of: /tmp/ge-proton.tar.gz | /h/.cellar/cache/ge-proton.tar.gz | /h/Downloads/ge-proton.tar.gz"));
        }
        _ => panic!(),
    }
    assert_eq!(proton_winrt_dlls().len(), 16);
    let w = winrt_registry_writes();
    assert_eq!(w.len(), 8 + 3 * 4);
    assert_eq!(w[0].key, "HKCU\\Software\\Wine\\DllOverrides");
    assert_eq!(w[8].data, "C:\\windows\\system32\\windows.system.dll");
    assert_eq!(w[8].reg_type, "REG_EXPAND_SZ");
    let args = reg_add_args(&w[0]);
    assert_eq!(args, vec!["reg", "add", "HKCU\\Software\\Wine\\DllOverrides", "/v", "windows.system", "/t", "REG_SZ", "/d", "native,builtin", "/f"]);
    match reg_add_failed(&w[9], 1) {
        PrereqError::ProcessFailed { stage, exit_code } => {
            assert_eq!(stage, "reg add HKLM\\Software\\Microsoft\\WindowsRuntime\\ActivatableClassId\\Windows.System.DispatcherQueue/ActivationType");
            assert_eq!(exit_code, 1);
        }
        _ => panic!(),
    }
}

#[test]
fn runtime_lookup_and_launch() {
    let c = wine_candidates(None, "/h", "/usr/bin::/opt/bin");
    assert_eq!(c.len(), 18);
    assert_eq!(c[0], "/h/.cellar/wine-staging/Wine Staging.app/Contents/Resources/wine/bin/wine");
    assert_eq!(c[1], "/h/.cellar/wine-staging/Wine Staging.app/Contents/Resources/wine/bin/wine64");
    assert_eq!(c[4], "/Applications/CrossOver.app/Contents/SharedSupport/CrossOver/bin/wine");
    assert_eq!(c[14], "/usr/bin/wine64");
    assert_eq!(c[15], "/usr/bin/wine");
    assert_eq!(c[17], "/opt/bin/wine");
    let mut present = vec![false; 18];
    present[7] = true;
    present[14] = true;
    assert_eq!(find_wine_bin(&c, &present).as_deref(), Some("/usr/local/opt/game-porting-toolkit/bin/wine64"));
    let c = wine_candidates(Some("/my/wine"), "/h", "");
    assert_eq!(c.len(), 15);
    assert_eq!(c[0], "/my/wine");
    assert_eq!(wine_version(b"  wine-9.0\n").as_deref(), Some("wine-9.0"));
    assert_eq!(wine_version(&[0xff, 0xfe]), None);

    let mut g = game("a", "Alpha");
    g.settings.esync = false;
    g.settings.env = vec![("DXVK_HUD".to_string(), "1".to_string())];
    g.settings.launch_args = vec!["-dx11".to_string()];
    let cmd = launch_command(&g, "/bin/wine", "/pfx");
    assert_eq!(cmd.program, "/bin/wine");
    assert_eq!(cmd.args, vec!["C:\\x.exe", "-dx11"]);
    assert_eq!(cmd.current_dir, "/games/x");
    let env: Vec<(&str, &str)> = cmd.env.iter().map(|(k, v)| (k.as_str(), v.as_str())).collect();
    assert_eq!(
        env,
        vec![
            ("WINEPREFIX", "/pfx"),
            ("WINEDLLOVERRIDES", "d3d11,d3d10core,dxgi=n"),
            ("WINEESYNC", "0"),
            ("WINEMSYNC", "1"),
            ("DXVK_HUD", "1"),
        ]
    );
    g.settings.dll_overrides = Some("xinput1_3=n".to_string());
    let cmd = launch_command(&g, "/bin/wine", "/pfx");
    assert_eq!(cmd.env[1], ("WINEDLLOVERRIDES".to_string(), "d3d11,d3d10core,dxgi=n;xinput1_3=n".to_string()));
    g.settings.dxvk = false;
    let cmd = launch_command(&g, "/bin/wine", "/pfx");
    assert!(cmd.env.iter().all(|(k, _)| k != "WINEDLLOVERRIDES"));
    let games = vec![game("a", "A"), game("b", "B")];
    assert_eq!(find_game(&games, "b").ok().unwrap().name, "B");
    assert!(matches!(find_game(&games, "c"), Err(RuntimeError::GameNotFound { .. })));
    match prefix_missing("Alpha") {
        RuntimeError::BottleError { message } => assert_eq!(message, "bottle prefix missing for game Alpha"),
        _ => panic!(),
    }
}

#[test]
fn wine_smoke_test() {
    assert_eq!(smoke_test_result(true, Some(0), b"wine-9.0\n", b"").ok().unwrap(), "wine-9.0");
    match smoke_test_result(false, Some(1), b"", b"bad") {
        Err(RuntimeError::SpawnFailed { message }) => assert_eq!(message, "wine64 --version exited Some(1). stderr: bad"),
        _ => panic!(),
    }
    match smoke_test_result(false, None, b"", b"") {
        Err(RuntimeError::SpawnFailed { message }) => assert_eq!(message, "wine64 --version exited None. stderr: "),
        _ => panic!(),
    }
}

#[test]
fn crash_report_path_is_parsed() {
    let log = "collecting...\nDONE. Crash report: /tmp/cellar-crash-1.zip (1.2M)\n";
    assert_eq!(crash_zip_path(log).as_deref(), Some("/tmp/cellar-crash-1.zip"));
    assert_eq!(crash_zip_path("Crash report: /tmp/a (b) (3K)").as_deref(), Some("/tmp/a (b)"));
    assert_eq!(crash_zip_path("Crash report:   \nnothing"), None);
    assert_eq!(crash_zip_path("no marker"), None);
    let r = crash_report(log.to_string());
    assert_eq!(r.log, log);
    assert_eq!(r.zip_path.as_deref(), Some("/tmp/cellar-crash-1.zip"));
    match script_failed(Some(2), b" oops \n") {
        ToolError::ScriptFailed { code, stderr } => {
            assert_eq!(code, Some(2));
            assert_eq!(stderr, "oops");
        }
        _ => panic!(),
    }
}

#[test]
fn d3dmetal_pins() {
    assert_eq!(pinned_version(" 3.0 \n").as_deref(), Some("3.0"));
    assert_eq!(pinned_version("default\n"), None);
    assert_eq!(pinned_version("   "), None);
    assert!(matches!(pin_action("default"), PinAction::Remove));
    assert!(matches!(pin_action("  "), PinAction::Remove));
    match pin_action(" 2.0 ") {
        PinAction::Write { contents } => assert_eq!(contents, "2.0\n"),
        _ => panic!(),
    }
    match pin_action(" default ") {
        PinAction::Write { contents } => assert_eq!(contents, "default\n"),
        _ => panic!(),
    }
    assert_eq!(version_choices(vec!["2.0".into(), "3.0".into()]), vec!["default", "2.0", "3.0"]);
}

#[test]
fn game_drop_announcements() {
    let ps = vec![profile("ue", &["unreal"], false)];
    let a = announcement("Unreal Thing", "/g/Unreal Thing", &ps).unwrap();
    assert_eq!(a.profile_id.as_deref(), Some("ue"));
    assert_eq!(a.profile_name.as_deref(), Some("ue profile"));
    assert_eq!(a.suggested_cmd, "./scripts/cellar-install.sh \"Unreal Thing\"");
    let b = announcement("Other", "/g/Other", &ps).unwrap();
    assert!(b.profile_id.is_none() && b.profile_name.is_none());
    assert!(announcement(".partial", "/g/.partial", &ps).is_none());
    let mut seen = SeenDirs::new();
    assert!(seen.first_sighting("/g/A"));
    assert!(seen.first_sighting("/g/B"));
    assert!(!seen.first_sighting("/g/A"));
}

#[test]
fn proton_winrt_staging_decisions() {
    assert_eq!(
        tar_args("/t.tgz", "/x", true),
        vec![
            "xzf",
            "/t.tgz",
            "-C",
            "/x",
            "--include=*/files/lib*/wine/x86_64-windows/*.dll",
            "--include=*/files/lib*/wine/i386-windows/*.dll"
        ]
    );
    assert_eq!(tar_args("/t.tgz", "/x", false), vec!["xzf", "/t.tgz", "-C", "/x"]);
    assert!(!needs_full_extract(true, true));
    assert!(needs_full_extract(false, true));
    assert!(needs_full_extract(true, false));
    assert!(full_extract_outcome(true, Some(0)).is_ok());
    match full_extract_outcome(false, None) {
        Err(PrereqError::ProcessFailed { stage, exit_code }) => {
            assert_eq!(stage, "tar xzf");
            assert_eq!(exit_code, -1);
        }
        _ => panic!(),
    }
    assert!(matches!(full_extract_outcome(false, Some(2)), Err(PrereqError::ProcessFailed { exit_code: 2, .. })));
    assert!(matches!(x64_dir_missing(), PrereqError::DependencyMissing { .. }));
    assert!(staging_outcome(3).is_ok());
    match staging_outcome(0) {
        Err(PrereqError::DependencyMissing { what, .. }) => assert_eq!(what, "Proton WinRT DLLs"),
        _ => panic!(),
    }
}

#[test]
fn winetricks_and_dxvk_are_looked_for_in_order() {
    assert_eq!(
        winetricks_candidates(None, "/h"),
        vec![
            "/h/.cellar/bin/winetricks",
            "/h/Library/Application Support/com.isaacmarovitz.Whisky/Libraries/winetricks",
            "/opt/homebrew/bin/winetricks"
        ]
    );
    assert_eq!(winetricks_candidates(Some("/w"), "/h")[0], "/w");
    assert_eq!(
        dxvk_sources(Some("/d"), "/h"),
        vec!["/d", "/h/Library/Application Support/com.isaacmarovitz.Whisky/Libraries/DXVK"]
    );
    let c = winetricks_candidates(None, "/h");
    assert_eq!(first_found(&c, &[false, true, true]).as_deref(), Some(c[1].as_str()));
    assert_eq!(first_found(&c, &[false, false, false]), None);
}
