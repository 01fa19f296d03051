use disactivity::launch::{
    cleanup_all_games, cleanup_game, cleanup_running_game, get_running_games, place_executable,
    register_game, setup_game_executable, start_game, start_game_via_steam, stop_game,
    temp_base_dir,
};
use disactivity::manifest::{appmanifest_file_name, build_appmanifest};
use disactivity::paths::{split_executable_path, Base, Location};
use disactivity::plan::{
    advance, advance_all, begin, begin_all, Action, Next, Outcome, Run, Step, SweepNext,
};
use disactivity::running::{CleanupTarget, RunningGames};
use disactivity::steam_path::{find_steam_path, Hive, SteamLookup};
use disactivity::Executable;

fn show(location: &Location) -> String {
    let base = match location.base {
        Base::Temp => "temp:",
        Base::Steam => "steam:",
    };
    format!("{}{}", base, location.parts.join("/"))
}

fn show_action(action: &Action) -> String {
    match action {
        Action::CreateDirs(at) => format!("create {}", show(at)),
        Action::WriteExecutable(at) => format!("put {}", show(at)),
        Action::WriteText { path, content } => format!("write {} {}", show(path), content.len()),
        Action::Spawn { executable, title } => format!("spawn {} {}", show(executable), title),
        Action::RemoveFile(at) => format!("remove file {}", show(at)),
        Action::RemoveDir(at) => format!("remove dir {}", show(at)),
        Action::RemoveFileIfPresent(at) => format!("remove file if present {}", show(at)),
        Action::RemoveDirIfPresent(at) => format!("remove dir if present {}", show(at)),
        Action::Kill => "kill".to_string(),
        Action::AwaitExit => "await exit".to_string(),
    }
}

/// Carries out a plan in which one operation fails: what was done, and the result.
fn carried_out(steps: Vec<Step>, failing: Option<usize>) -> (Vec<String>, Result<(), String>) {
    let mut done = vec![];
    let (mut run, mut next) = begin(steps);
    loop {
        let outcome = match next {
            Next::Perform(action) => {
                done.push(show_action(&action));
                if failing == Some(done.len() - 1) {
                    Outcome::Failed("disk full".to_string())
                } else {
                    Outcome::Done
                }
            }
            Next::Finish(result) => return (done, result),
            Next::Wait => panic!("nothing was under way"),
        };
        (run, next) = advance(run, outcome);
    }
}

fn exe(name: &str) -> Executable {
    Executable { name: name.to_string(), os: Some("win32".to_string()) }
}

#[test]
fn path_of_an_executable_is_taken_apart() {
    for (path, folders, file) in [
        ("game.exe", vec![], "game.exe"),
        ("bin\\win64/game.exe", vec!["bin", "win64"], "game.exe"),
        ("//a//game.exe", vec!["a"], "game.exe"),
        ("a/b/", vec!["a", "b"], ""),
        ("", vec![], ""),
    ] {
        let (found, name) = split_executable_path(path);
        assert_eq!(found, folders, "{}", path);
        assert_eq!(name, file);
    }
}

#[test]
fn executable_is_put_below_its_root() {
    assert_eq!(show(&temp_base_dir()), "temp:disactivity");
    let (root, dir, file) = setup_game_executable("42", "bin\\a.exe");
    assert_eq!(show(&root), "temp:disactivity/42");
    assert_eq!(show(&dir), "temp:disactivity/42/bin");
    assert_eq!(show(&file), "temp:disactivity/42/bin/a.exe");
    let below = Location { base: Base::Steam, parts: vec!["x".to_string()] };
    let (dir, file) = place_executable(&below, "a.exe");
    assert_eq!((show(&dir), show(&file)), ("steam:x".to_string(), "steam:x/a.exe".to_string()));
    let more = vec!["y".to_string(), "z".to_string()];
    assert_eq!(show(&below.clone().join_all(&more)), "steam:x/y/z");
}

#[test]
fn a_start_from_the_temporary_files() {
    let running: RunningGames<u8> = RunningGames::new();
    let plan = start_game(&running, "42", "The Game", &[exe("x/b.exe"), exe("a.exe")], None);
    let plan = plan.unwrap();
    assert_eq!(show(&plan.executable), "temp:disactivity/42/a.exe");
    assert!(matches!(&plan.cleanup, CleanupTarget::TempDir(d) if show(d) == "temp:disactivity/42"));
    let (done, result) = carried_out(plan.steps, None);
    assert_eq!(
        done,
        vec![
            "create temp:disactivity/42",
            "put temp:disactivity/42/a.exe",
            "spawn temp:disactivity/42/a.exe The Game",
        ]
    );
    assert_eq!(result, Ok(()));
}

#[test]
fn a_selected_executable_goes_before_the_best() {
    let running: RunningGames<u8> = RunningGames::new();
    let selected = Some("bin/b.exe".to_string());
    let plan = start_game(&running, "42", "n", &[exe("a.exe")], selected).unwrap();
    assert_eq!(show(&plan.executable), "temp:disactivity/42/bin/b.exe");
}

#[test]
fn a_failed_start_is_undone() {
    let running: RunningGames<u8> = RunningGames::new();
    let plan = || start_game(&running, "42", "n", &[exe("a.exe")], None).unwrap().steps;
    let (done, result) = carried_out(plan(), Some(0));
    assert_eq!(done.len(), 1);
    assert_eq!(result, Err("Failed to create directories: disk full".to_string()));
    let (done, result) = carried_out(plan(), Some(1));
    assert_eq!(done.len(), 2);
    assert_eq!(result, Err("Failed to write executable: disk full".to_string()));
    let (done, result) = carried_out(plan(), Some(2));
    assert_eq!(done[3..], ["remove dir if present temp:disactivity/42"]);
    assert_eq!(result, Err("Failed to start process: disk full".to_string()));
}

#[test]
fn a_start_is_refused() {
    let mut running: RunningGames<u8> = RunningGames::new();
    assert_eq!(
        start_game(&running, "42", "n", &[], None).unwrap_err(),
        "No suitable win32 executable found for this game"
    );
    assert_eq!(
        start_game_via_steam(&running, "42", "n", "7", "d", "a.exe", false).unwrap_err(),
        "Could not locate a Steam installation on this PC"
    );
    register_game(&mut running, "42".to_string(), 1, CleanupTarget::TempDir(temp_base_dir()));
    assert_eq!(
        start_game(&running, "42", "n", &[], None).unwrap_err(),
        "Game is already running"
    );
    assert_eq!(
        start_game_via_steam(&running, "42", "n", "7", "d", "a.exe", false).unwrap_err(),
        "Game is already running"
    );
    assert!(start_game(&running, "43", "n", &[exe("a.exe")], None).is_ok());
}

fn steam_steps() -> (Vec<Step>, CleanupTarget, Location) {
    let running: RunningGames<u8> = RunningGames::new();
    let plan = start_game_via_steam(&running, "42", "n", "7", "Dir", "bin\\a.exe", true).unwrap();
    (plan.steps, plan.cleanup, plan.executable)
}

#[test]
fn a_start_from_the_steam_library() {
    let (steps, cleanup, executable) = steam_steps();
    assert_eq!(show(&executable), "steam:steamapps/common/Dir/bin/a.exe");
    let manifest = build_appmanifest("7", "n", "Dir");
    let (done, result) = carried_out(steps, None);
    assert_eq!(
        done,
        vec![
            "create steam:steamapps".to_string(),
            "create steam:steamapps/common/Dir/bin".to_string(),
            "put steam:steamapps/common/Dir/bin/a.exe".to_string(),
            format!("write steam:steamapps/appmanifest_7.acf {}", manifest.len()),
            "spawn steam:steamapps/common/Dir/bin/a.exe n".to_string(),
        ]
    );
    assert_eq!(result, Ok(()));
    let (done, result) = carried_out(cleanup_running_game(&cleanup), None);
    assert_eq!(
        done,
        vec![
            "remove file if present steam:steamapps/appmanifest_7.acf",
            "remove dir if present steam:steamapps/common/Dir",
        ]
    );
    assert_eq!(result, Ok(()));
}

#[test]
fn a_failed_start_from_the_steam_library_is_undone() {
    let errors = [
        "Failed to access Steam library: disk full",
        "Failed to create fake install dir: disk full",
        "Failed to write executable: disk full",
        "Failed to write fake appmanifest: disk full",
        "Failed to start process: disk full",
    ];
    for (at, error) in errors.iter().enumerate() {
        let (done, result) = carried_out(steam_steps().0, Some(at));
        assert_eq!(result, Err(error.to_string()));
        let undone: &[&str] = match at {
            3 => &["remove dir steam:steamapps/common/Dir"],
            4 => &[
                "remove file steam:steamapps/appmanifest_7.acf",
                "remove dir steam:steamapps/common/Dir",
            ],
            _ => &[],
        };
        assert_eq!(done[at + 1..], *undone);
    }
}

#[test]
fn a_failure_to_clean_up_is_reported() {
    let cleanup = steam_steps().1;
    let (done, result) = carried_out(cleanup_running_game(&cleanup), Some(0));
    assert_eq!(done.len(), 1);
    assert_eq!(result, Err("Failed to remove fake appmanifest: disk full".to_string()));
    let (done, result) = carried_out(cleanup_running_game(&cleanup), Some(1));
    assert_eq!(done.len(), 2);
    assert_eq!(result, Err("Failed to remove fake Steam install: disk full".to_string()));
    let (_, result) = carried_out(cleanup_game(&temp_base_dir()), Some(0));
    assert_eq!(result, Err("Failed to cleanup: disk full".to_string()));
}

#[test]
fn undoing_goes_on_after_a_failure() {
    let run = Run::Undoing {
        message: "first".to_string(),
        left: vec![Action::RemoveFile(temp_base_dir())],
    };
    let (run, next) = advance(run, Outcome::Failed("second".to_string()));
    assert!(matches!(next, Next::Perform(Action::RemoveFile(_))));
    let (run, next) = advance(run, Outcome::Failed("third".to_string()));
    assert!(matches!(next, Next::Finish(Err(e)) if e == "first"));
    let (_, next) = advance(run, Outcome::Done);
    assert!(matches!(next, Next::Wait));
}

#[test]
fn a_plan_without_steps_is_done() {
    assert_eq!(carried_out(vec![], None), (vec![], Ok(())));
}

#[test]
fn games_run_under_their_ids() {
    let mut running: RunningGames<u8> = RunningGames::new();
    let target = || CleanupTarget::TempDir(temp_base_dir());
    assert!(register_game(&mut running, "1".to_string(), 10, target()).is_none());
    assert!(register_game(&mut running, "2".to_string(), 20, target()).is_none());
    let replaced = register_game(&mut running, "1".to_string(), 11, target());
    assert_eq!(replaced.map(|game| game.process), Some(10));
    let mut ids = get_running_games(&running);
    ids.sort();
    assert_eq!(ids, vec!["1", "2"]);
    assert!(stop_game(&mut running, "3").is_none());
    let (process, steps) = stop_game(&mut running, "1").unwrap();
    assert_eq!(process, 11);
    assert_eq!(
        carried_out(steps, None).0,
        vec!["kill", "await exit", "remove dir if present temp:disactivity"]
    );
    assert!(!running.contains("1"));
    assert!(running.contains("2"));
    assert!(stop_game(&mut running, "1").is_none());
}

#[test]
fn a_process_that_cannot_be_ended_keeps_no_files() {
    let mut running: RunningGames<u8> = RunningGames::new();
    for failing in [None, Some(0), Some(1)] {
        register_game(&mut running, "1".to_string(), 10, steam_steps().1);
        let (_, steps) = stop_game(&mut running, "1").unwrap();
        let (done, result) = carried_out(steps, failing);
        assert_eq!(
            done,
            vec![
                "kill",
                "await exit",
                "remove file if present steam:steamapps/appmanifest_7.acf",
                "remove dir if present steam:steamapps/common/Dir",
            ]
        );
        assert_eq!(result, Ok(()));
    }
    register_game(&mut running, "1".to_string(), 10, steam_steps().1);
    let (_, steps) = stop_game(&mut running, "1").unwrap();
    let (done, result) = carried_out(steps, Some(2));
    assert_eq!(done.len(), 3);
    assert_eq!(result, Err("Failed to remove fake appmanifest: disk full".to_string()));
}

/// Carries out several plans in which some operations fail.
fn all_carried_out(plans: Vec<Vec<Step>>, failing: &[usize]) -> Vec<String> {
    let mut done = vec![];
    let (mut sweep, mut next) = begin_all(plans);
    loop {
        let outcome = match next {
            SweepNext::Perform { plan, action } => {
                done.push(format!("{}: {}", plan, show_action(&action)));
                if failing.contains(&(done.len() - 1)) {
                    Outcome::Failed("disk full".to_string())
                } else {
                    Outcome::Done
                }
            }
            SweepNext::Finish => {
                let (_, next) = advance_all(sweep, Outcome::Done);
                assert!(matches!(next, SweepNext::Wait));
                return done;
            }
            SweepNext::Wait => panic!("nothing was under way"),
        };
        (sweep, next) = advance_all(sweep, outcome);
    }
}

#[test]
fn plans_without_steps_are_passed_over() {
    assert!(all_carried_out(vec![], &[]).is_empty());
    let plans = vec![vec![], cleanup_game(&temp_base_dir()), vec![], vec![]];
    assert_eq!(
        all_carried_out(plans, &[0]),
        vec!["1: remove dir if present temp:disactivity"]
    );
}

#[test]
fn all_games_are_stopped() {
    let mut running: RunningGames<u8> = RunningGames::new();
    let mut started = || {
        register_game(&mut running, "1".to_string(), 10, steam_steps().1);
        let two = CleanupTarget::TempDir(temp_base_dir().join("2"));
        register_game(&mut running, "2".to_string(), 20, two);
        let all = cleanup_all_games(&mut running);
        assert!(get_running_games(&running).is_empty());
        all
    };
    let manifest = "0: remove file if present steam:steamapps/appmanifest_7.acf";
    let install = "0: remove dir if present steam:steamapps/common/Dir";
    let rest = [
        "1: kill",
        "1: await exit",
        "1: remove dir if present temp:disactivity/2",
        "2: remove dir if present temp:disactivity",
    ];
    let (processes, plans) = started();
    assert_eq!(processes, vec![10, 20]);
    let done = all_carried_out(plans, &[]);
    assert_eq!(done[..4], ["0: kill", "0: await exit", manifest, install]);
    assert_eq!(done[4..], rest);
    let done = all_carried_out(started().1, &[0, 1, 2, 3, 4, 5, 6]);
    assert_eq!(done[..3], ["0: kill", "0: await exit", manifest]);
    assert_eq!(done[3..], rest);
    let (processes, plans) = cleanup_all_games(&mut RunningGames::<u8>::new());
    assert!(processes.is_empty());
    assert_eq!(
        all_carried_out(plans, &[]),
        vec!["0: remove dir if present temp:disactivity"]
    );
}

#[test]
fn manifest_is_sparse_and_keeps_its_quotes() {
    assert_eq!(appmanifest_file_name("440"), "appmanifest_440.acf");
    let manifest = build_appmanifest("440", "The \"Best\" Game", "Best Game");
    assert_eq!(
        manifest,
        "\"AppState\"\n{\n\t\"appid\"\t\t\"440\"\n\t\"name\"\t\t\"The 'Best' Game\"\n\
         \t\"installdir\"\t\t\"Best Game\"\n}\n"
    );
    assert_eq!(manifest.matches('"').count(), 14);
}

/// Looks for Steam with what the two places give.
fn steam_at(of_user: Option<&str>, of_machine: Option<&str>) -> Option<String> {
    let mut looked = 0;
    let mut found = None;
    loop {
        match find_steam_path(looked, found) {
            SteamLookup::Read { hive: Hive::CurrentUser, key, value } => {
                assert_eq!((key, value), ("Software\\Valve\\Steam", "SteamPath"));
                found = of_user.map(|path| path.to_string());
            }
            SteamLookup::Read { hive: Hive::LocalMachine, key, value } => {
                assert_eq!((key, value), ("SOFTWARE\\WOW6432Node\\Valve\\Steam", "InstallPath"));
                found = of_machine.map(|path| path.to_string());
            }
            SteamLookup::Found(path) => return Some(path),
            SteamLookup::NotFound => return None,
        }
        looked += 1;
    }
}

#[test]
fn steam_is_where_the_registry_says() {
    assert_eq!(steam_at(Some("a"), Some("b")), Some("a".to_string()));
    assert_eq!(steam_at(Some("a"), None), Some("a".to_string()));
    assert_eq!(steam_at(None, Some("b")), Some("b".to_string()));
    assert_eq!(steam_at(None, None), None);
}
