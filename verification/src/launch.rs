//! Starting and stopping games: which files are put where, and what is removed
//! again.

use vstd::prelude::*;

use crate::catalog::{best_name, executable_views, optional_view};
use crate::catalog::{select_best_executable, Executable, ExecutableView};
use crate::manifest::{has_field, manifest_says_what_was_given, manifest_text};
use crate::manifest::{appmanifest_file_name, build_appmanifest};
use crate::paths::{path_file, path_folders, path_names_come_back, plain_name};
use crate::paths::{split_executable_path, Base, Location, LocationView};
use crate::plan::{
    action_views, every_plan_is_carried_out, plan_log, plan_views, plans_log, step_views,
    sweep_log, sweep_plans, tagged, world_after,
};
use crate::plan::{Action, ActionView, OutcomeView, Step, StepView};
use crate::running::{by_id, ids_unique};
use crate::running::{CleanupTarget, CleanupView, RunningGame, RunningGames};
use crate::text::{joined_by, replaced, views};

verus! {

/// What is done to start a game.
#[derive(Debug)]
pub struct LaunchPlan {
    pub steps: Vec<Step>,
    /// The executable that is started by the last step.
    pub executable: Location,
    /// What is to be removed when the game is stopped.
    pub cleanup: CleanupTarget,
}

/// What a `LaunchPlan` says.
pub struct LaunchPlanView {
    pub steps: Seq<StepView>,
    pub executable: LocationView,
    pub cleanup: CleanupView,
}

impl View for LaunchPlan {
    type V = LaunchPlanView;

    open spec fn view(&self) -> LaunchPlanView {
        LaunchPlanView {
            steps: step_views(self.steps@),
            executable: self.executable@,
            cleanup: self.cleanup@,
        }
    }
}

/// The directory that holds everything that is put among the temporary files.
pub open spec fn temp_base() -> LocationView {
    LocationView { base: Base::Temp, parts: seq!["disactivity"@] }
}

/// The directory for one game among the temporary files.
pub open spec fn game_dir(game_id: Seq<char>) -> LocationView {
    temp_base().below(seq![game_id])
}

/// The directory, below a root, that the path of an executable names.
pub open spec fn exe_dir(root: LocationView, exe_path: Seq<char>) -> LocationView {
    root.below(path_folders(exe_path))
}

/// The file, below a root, that the path of an executable names.
pub open spec fn exe_file(root: LocationView, exe_path: Seq<char>) -> LocationView {
    exe_dir(root, exe_path).below(seq![path_file(exe_path)])
}

/// The directory that holds everything that is put among the temporary files.
pub fn temp_base_dir() -> (r: Location)
    ensures
        r@ == temp_base(),
{
    let empty = Location { base: Base::Temp, parts: Vec::new() };
    let dir = empty.join("disactivity");
    assert(dir@.parts =~= temp_base().parts);
    dir
}

/// The directory and the file, below a root, that the path of an executable
/// names.
pub fn place_executable(root: &Location, exe_path: &str) -> (r: (Location, Location))
    ensures
        r.0@ == exe_dir(root@, exe_path@),
        r.1@ == exe_file(root@, exe_path@),
{
    let (folders, file) = split_executable_path(exe_path);
    let dir = root.clone().join_all(&folders);
    let exe = dir.clone().join(file.as_str());
    (dir, exe)
}

/// The directory for a game among the temporary files, the directory for its
/// executable, and the executable.
pub fn setup_game_executable(game_id: &str, exe_path: &str) -> (r: (
    Location,
    Location,
    Location,
))
    ensures
        r.0@ == game_dir(game_id@),
        r.1@ == exe_dir(game_dir(game_id@), exe_path@),
        r.2@ == exe_file(game_dir(game_id@), exe_path@),
{
    let root = temp_base_dir().join(game_id);
    let (dir, exe) = place_executable(&root, exe_path);
    (root, dir, exe)
}

/// A step without anything to undo.
pub open spec fn simple_step(action: ActionView, failure: Seq<char>) -> StepView {
    StepView { action, failure: Some(failure), undo: Seq::empty() }
}

/// A step whose failure does not matter.
pub open spec fn step_regardless(action: ActionView) -> StepView {
    StepView { action, failure: None, undo: Seq::empty() }
}

fn step(action: Action, failure: &str) -> (r: Step)
    ensures
        r@ == simple_step(action@, failure@),
{
    let undo: Vec<Action> = Vec::new();
    assert(action_views(undo@) =~= Seq::<ActionView>::empty());
    Step { action, failure: Some(failure.to_owned()), undo }
}

fn regardless(action: Action) -> (r: Step)
    ensures
        r@ == step_regardless(action@),
{
    let undo: Vec<Action> = Vec::new();
    assert(action_views(undo@) =~= Seq::<ActionView>::empty());
    Step { action, failure: None, undo }
}

/// Starting a game from among the temporary files: the executable is put into
/// the directory for the game, which is removed again if the start fails.
pub open spec fn temp_plan(
    game_id: Seq<char>,
    game_name: Seq<char>,
    exe_path: Seq<char>,
) -> LaunchPlanView {
    let root = game_dir(game_id);
    let exe = exe_file(root, exe_path);
    LaunchPlanView {
        steps: seq![
            simple_step(
                ActionView::CreateDirs(exe_dir(root, exe_path)),
                "Failed to create directories: "@,
            ),
            simple_step(ActionView::WriteExecutable(exe), "Failed to write executable: "@),
            StepView {
                action: ActionView::Spawn { executable: exe, title: game_name },
                failure: Some("Failed to start process: "@),
                undo: seq![ActionView::RemoveDirIfPresent(root)],
            },
        ],
        executable: exe,
        cleanup: CleanupView::TempDir(root),
    }
}

/// The executable that is started: the one that was selected, else the best one.
pub open spec fn chosen_executable(
    executables: Seq<ExecutableView>,
    selected: Option<Seq<char>>,
) -> Option<Seq<char>> {
    match selected {
        Some(exe) => Some(exe),
        None => best_name(executables),
    }
}

/// What a plan or an error says.
pub open spec fn plan_view(r: Result<LaunchPlan, String>) -> Result<LaunchPlanView, Seq<char>> {
    match r {
        Ok(plan) => Ok(plan@),
        Err(error) => Err(error@),
    }
}

/// Plans the start of a game from among the temporary files. A game that runs
/// is not started again, and without a selected executable one must be known
/// that is suitable.
pub fn start_game<P>(
    running: &RunningGames<P>,
    game_id: &str,
    game_name: &str,
    executables: &[Executable],
    selected_executable: Option<String>,
) -> (r: Result<LaunchPlan, String>)
    ensures
        plan_view(r) == if running@.contains_key(game_id@) {
            Err("Game is already running"@)
        } else {
            match chosen_executable(
                executable_views(executables@),
                optional_view(selected_executable),
            ) {
                Some(exe) => Ok(temp_plan(game_id@, game_name@, exe)),
                None => Err("No suitable win32 executable found for this game"@),
            }
        },
{
    if running.contains(game_id) {
        return Err("Game is already running".to_owned());
    }
    let exe_path = match selected_executable {
        Some(selected) => selected,
        None => match select_best_executable(executables) {
            Some(best) => best,
            None => {
                return Err("No suitable win32 executable found for this game".to_owned());
            },
        },
    };
    let (root, dir, exe) = setup_game_executable(game_id, exe_path.as_str());
    let mut undo: Vec<Action> = Vec::new();
    undo.push(Action::RemoveDirIfPresent(root.clone()));
    assert(action_views(undo@) =~= seq![ActionView::RemoveDirIfPresent(root@)]);
    let mut steps: Vec<Step> = Vec::new();
    steps.push(step(Action::CreateDirs(dir), "Failed to create directories: "));
    steps.push(step(Action::WriteExecutable(exe.clone()), "Failed to write executable: "));
    steps.push(
        Step {
            action: Action::Spawn { executable: exe.clone(), title: game_name.to_owned() },
            failure: Some("Failed to start process: ".to_owned()),
            undo,
        },
    );
    assert(step_views(steps@) =~= temp_plan(game_id@, game_name@, exe_path@).steps);
    Ok(LaunchPlan { steps, executable: exe, cleanup: CleanupTarget::TempDir(root) })
}

/// The directory of the Steam library.
pub open spec fn steam_library() -> LocationView {
    LocationView { base: Base::Steam, parts: seq!["steamapps"@] }
}

/// The install directory of a game in the Steam library.
pub open spec fn install_root(installdir: Seq<char>) -> LocationView {
    steam_library().below(seq!["common"@]).below(seq![installdir])
}

/// The manifest of an app in the Steam library.
pub open spec fn manifest_file(app_id: Seq<char>) -> LocationView {
    steam_library().below(seq!["appmanifest_"@ + app_id + ".acf"@])
}

/// Starting a game from within the Steam library: the executable is put into an
/// install directory, and a manifest marks the app as installed. When the
/// manifest cannot be written, the install directory is removed again; when the
/// start fails, both are.
pub open spec fn steam_plan(
    game_name: Seq<char>,
    app_id: Seq<char>,
    installdir: Seq<char>,
    exe_path: Seq<char>,
) -> LaunchPlanView {
    let root = install_root(installdir);
    let manifest = manifest_file(app_id);
    let exe = exe_file(root, exe_path);
    LaunchPlanView {
        steps: seq![
            simple_step(
                ActionView::CreateDirs(steam_library()),
                "Failed to access Steam library: "@,
            ),
            simple_step(
                ActionView::CreateDirs(exe_dir(root, exe_path)),
                "Failed to create fake install dir: "@,
            ),
            simple_step(ActionView::WriteExecutable(exe), "Failed to write executable: "@),
            StepView {
                action: ActionView::WriteText {
                    path: manifest,
                    content: manifest_text(app_id, game_name, installdir),
                },
                failure: Some("Failed to write fake appmanifest: "@),
                undo: seq![ActionView::RemoveDir(root)],
            },
            StepView {
                action: ActionView::Spawn { executable: exe, title: game_name },
                failure: Some("Failed to start process: "@),
                undo: seq![ActionView::RemoveFile(manifest), ActionView::RemoveDir(root)],
            },
        ],
        executable: exe,
        cleanup: CleanupView::SteamFake { manifest_path: manifest, install_dir: root },
    }
}

/// Plans the start of a game from within the Steam library. A game that runs is
/// not started again, and Steam must have been found.
pub fn start_game_via_steam<P>(
    running: &RunningGames<P>,
    game_id: &str,
    game_name: &str,
    steam_app_id: &str,
    installdir: &str,
    executable: &str,
    steam_found: bool,
) -> (r: Result<LaunchPlan, String>)
    ensures
        plan_view(r) == if running@.contains_key(game_id@) {
            Err("Game is already running"@)
        } else if !steam_found {
            Err("Could not locate a Steam installation on this PC"@)
        } else {
            Ok(steam_plan(game_name@, steam_app_id@, installdir@, executable@))
        },
{
    if running.contains(game_id) {
        return Err("Game is already running".to_owned());
    }
    if !steam_found {
        return Err("Could not locate a Steam installation on this PC".to_owned());
    }
    let top = Location { base: Base::Steam, parts: Vec::new() };
    let library = top.join("steamapps");
    assert(library@.parts =~= steam_library().parts);
    let root = library.clone().join("common").join(installdir);
    let manifest = library.clone().join(appmanifest_file_name(steam_app_id).as_str());
    let content = build_appmanifest(steam_app_id, game_name, installdir);
    let (dir, exe) = place_executable(&root, executable);

    let mut no_manifest: Vec<Action> = Vec::new();
    no_manifest.push(Action::RemoveDir(root.clone()));
    assert(action_views(no_manifest@) =~= seq![ActionView::RemoveDir(root@)]);
    let mut no_process: Vec<Action> = Vec::new();
    no_process.push(Action::RemoveFile(manifest.clone()));
    no_process.push(Action::RemoveDir(root.clone()));
    assert(action_views(no_process@) =~= seq![
        ActionView::RemoveFile(manifest@),
        ActionView::RemoveDir(root@),
    ]);

    let mut steps: Vec<Step> = Vec::new();
    steps.push(step(Action::CreateDirs(library), "Failed to access Steam library: "));
    steps.push(step(Action::CreateDirs(dir), "Failed to create fake install dir: "));
    steps.push(step(Action::WriteExecutable(exe.clone()), "Failed to write executable: "));
    steps.push(
        Step {
            action: Action::WriteText { path: manifest.clone(), content },
            failure: Some("Failed to write fake appmanifest: ".to_owned()),
            undo: no_manifest,
        },
    );
    steps.push(
        Step {
            action: Action::Spawn { executable: exe.clone(), title: game_name.to_owned() },
            failure: Some("Failed to start process: ".to_owned()),
            undo: no_process,
        },
    );
    assert(step_views(steps@) =~= steam_plan(
        game_name@,
        steam_app_id@,
        installdir@,
        executable@,
    ).steps);
    Ok(
        LaunchPlan {
            steps,
            executable: exe,
            cleanup: CleanupTarget::SteamFake { manifest_path: manifest, install_dir: root },
        },
    )
}

/// What is removed after a game that ran among the temporary files.
pub open spec fn temp_cleanup(dir: LocationView) -> Seq<StepView> {
    seq![simple_step(ActionView::RemoveDirIfPresent(dir), "Failed to cleanup: "@)]
}

/// What is removed after a game.
pub open spec fn cleanup_steps(cleanup: CleanupView) -> Seq<StepView> {
    match cleanup {
        CleanupView::TempDir(dir) => temp_cleanup(dir),
        CleanupView::SteamFake { manifest_path, install_dir } => seq![
            simple_step(
                ActionView::RemoveFileIfPresent(manifest_path),
                "Failed to remove fake appmanifest: "@,
            ),
            simple_step(
                ActionView::RemoveDirIfPresent(install_dir),
                "Failed to remove fake Steam install: "@,
            ),
        ],
    }
}

/// Plans the removal of a directory among the temporary files.
pub fn cleanup_game(dir: &Location) -> (r: Vec<Step>)
    ensures
        step_views(r@) == temp_cleanup(dir@),
{
    let mut steps: Vec<Step> = Vec::new();
    steps.push(step(Action::RemoveDirIfPresent(dir.clone()), "Failed to cleanup: "));
    assert(step_views(steps@) =~= temp_cleanup(dir@));
    steps
}

/// Plans the removal of the files that a game left behind.
pub fn cleanup_running_game(cleanup: &CleanupTarget) -> (r: Vec<Step>)
    ensures
        step_views(r@) == cleanup_steps(cleanup@),
{
    match cleanup {
        CleanupTarget::TempDir(dir) => cleanup_game(dir),
        CleanupTarget::SteamFake { manifest_path, install_dir } => {
            let mut steps: Vec<Step> = Vec::new();
            steps.push(
                step(
                    Action::RemoveFileIfPresent(manifest_path.clone()),
                    "Failed to remove fake appmanifest: ",
                ),
            );
            steps.push(
                step(
                    Action::RemoveDirIfPresent(install_dir.clone()),
                    "Failed to remove fake Steam install: ",
                ),
            );
            assert(step_views(steps@) =~= cleanup_steps(cleanup@));
            steps
        },
    }
}

/// Puts a game that was started among the running games. A game that ran under
/// the same id is handed back.
pub fn register_game<P>(
    running: &mut RunningGames<P>,
    game_id: String,
    process: P,
    cleanup: CleanupTarget,
) -> (r: Option<RunningGame<P>>)
    ensures
        final(running)@ == old(running)@.insert(game_id@, (RunningGame { process, cleanup })),
        match r {
            Some(game) => old(running)@.contains_key(game_id@) && game == old(running)@[game_id@],
            None => !old(running)@.contains_key(game_id@),
        },
{
    running.insert(game_id, RunningGame { process, cleanup })
}

/// What is done to stop a game: its process is killed and awaited, whether or
/// not that works, and then its files are removed.
pub open spec fn stop_steps(cleanup: CleanupView) -> Seq<StepView> {
    seq![
        step_regardless(ActionView::Kill),
        step_regardless(ActionView::AwaitExit),
    ] + cleanup_steps(cleanup)
}

fn end_game(cleanup: &CleanupTarget) -> (r: Vec<Step>)
    ensures
        step_views(r@) == stop_steps(cleanup@),
{
    let mut steps: Vec<Step> = Vec::new();
    steps.push(regardless(Action::Kill));
    steps.push(regardless(Action::AwaitExit));
    let ghost ending = steps@;
    let mut removal = cleanup_running_game(cleanup);
    let ghost removing = removal@;
    steps.append(&mut removal);
    assert(step_views(steps@) =~= step_views(ending) + step_views(removing));
    assert(step_views(ending) =~= seq![
        step_regardless(ActionView::Kill),
        step_regardless(ActionView::AwaitExit),
    ]);
    steps
}

/// Takes a game out of the running games: its process, and what is done to end
/// it and to remove its files. A game that does not run is left alone.
pub fn stop_game<P>(running: &mut RunningGames<P>, game_id: &str) -> (r: Option<(P, Vec<Step>)>)
    ensures
        final(running)@ == old(running)@.remove(game_id@),
        match r {
            Some((process, steps)) => {
                &&& old(running)@.contains_key(game_id@)
                &&& process == old(running)@[game_id@].process
                &&& step_views(steps@) == stop_steps(old(running)@[game_id@].cleanup@)
            },
            None => !old(running)@.contains_key(game_id@),
        },
{
    match running.remove(game_id) {
        Some(game) => {
            let steps = end_game(&game.cleanup);
            Some((game.process, steps))
        },
        None => None,
    }
}

/// The ids of the running games, each once.
pub fn get_running_games<P>(running: &RunningGames<P>) -> (r: Vec<String>)
    ensures
        views(r@).no_duplicates(),
        views(r@).to_set() == running@.dom(),
{
    running.ids()
}

/// The plans by which games are stopped, one for each, and everything that was
/// put among the temporary files is removed in the end.
pub open spec fn stop_all_plans(cleanups: Seq<CleanupView>) -> Seq<Seq<StepView>> {
    cleanups.map_values(|c: CleanupView| stop_steps(c)).push(temp_cleanup(temp_base()))
}

/// What is to be removed after each of some games.
pub open spec fn cleanups_of<P>(entries: Seq<(String, RunningGame<P>)>) -> Seq<CleanupView> {
    entries.map_values(|e: (String, RunningGame<P>)| e.1.cleanup@)
}

/// The processes of some games.
pub open spec fn processes_of<P>(entries: Seq<(String, RunningGame<P>)>) -> Seq<P> {
    entries.map_values(|e: (String, RunningGame<P>)| e.1.process)
}

/// Takes all games out of the running games: their processes, and the plans to
/// be carried out one after the other, each whatever became of those before it.
/// There is one plan for each process, at the same place; the last plan removes
/// everything that was put among the temporary files.
pub fn cleanup_all_games<P>(running: &mut RunningGames<P>) -> (r: (Vec<P>, Vec<Vec<Step>>))
    ensures
        final(running)@ == Map::<Seq<char>, RunningGame<P>>::empty(),
        exists|entries: Seq<(String, RunningGame<P>)>|
            {
                &&& ids_unique(entries)
                &&& #[trigger] by_id(entries) == old(running)@
                &&& r.0@ == processes_of(entries)
                &&& plan_views(r.1@) == stop_all_plans(cleanups_of(entries))
            },
{
    let entries = running.drain();
    let ghost all = entries@;
    let mut processes: Vec<P> = Vec::new();
    let mut plans: Vec<Vec<Step>> = Vec::new();
    let ghost stops = cleanups_of(all).map_values(|c: CleanupView| stop_steps(c));
    for entry in it: entries
        invariant
            it.seq() == all,
            stops == cleanups_of(all).map_values(|c: CleanupView| stop_steps(c)),
            processes@ == processes_of(all).take(it.index()),
            plan_views(plans@) == stops.take(it.index()),
    {
        let ghost before = plan_views(plans@);
        let game = entry.1;
        let steps = end_game(&game.cleanup);
        processes.push(game.process);
        plans.push(steps);
        proof {
            assert(stops[it.index()] == step_views(steps@));
            assert(plan_views(plans@) =~= before.push(step_views(steps@)));
            assert(plan_views(plans@) =~= stops.take(it.index() + 1));
            assert(processes@ =~= processes_of(all).take(it.index() + 1));
        }
    }
    let ghost before = plan_views(plans@);
    let last = cleanup_game(&temp_base_dir());
    plans.push(last);
    proof {
        assert(stops.take(stops.len() as int) =~= stops);
        assert(processes_of(all).take(all.len() as int) =~= processes_of(all));
        assert(plan_views(plans@) =~= before.push(step_views(last@)));
        assert(by_id(all) == old(running)@);
    }
    (processes, plans)
}

// What holds of every start and stop.

/// The location that an operation works on, if it works on one.
pub open spec fn target(action: ActionView) -> Option<LocationView> {
    match action {
        ActionView::CreateDirs(at) => Some(at),
        ActionView::WriteExecutable(at) => Some(at),
        ActionView::WriteText { path, .. } => Some(path),
        ActionView::Spawn { executable, .. } => Some(executable),
        ActionView::RemoveFile(at) => Some(at),
        ActionView::RemoveDir(at) => Some(at),
        ActionView::RemoveFileIfPresent(at) => Some(at),
        ActionView::RemoveDirIfPresent(at) => Some(at),
        ActionView::Kill => None,
        ActionView::AwaitExit => None,
    }
}

/// Whether an operation works on a location that, by the parts of its path, is
/// removed or lies in a directory that is removed when the files of a game are
/// removed.
pub open spec fn covered(action: ActionView, cleanup: CleanupView) -> bool {
    match (target(action), cleanup) {
        (Some(at), CleanupView::TempDir(dir)) => at.within(dir),
        (Some(at), CleanupView::SteamFake { manifest_path, install_dir }) => at == manifest_path
            || at.within(install_dir),
        (None, _) => false,
    }
}

proof fn lemma_below_is_within(root: LocationView, more: Seq<Seq<char>>)
    ensures
        root.below(more).within(root),
{
    assert(root.below(more).parts.take(root.parts.len() as int) =~= root.parts);
}

proof fn lemma_exe_within(root: LocationView, exe_path: Seq<char>)
    ensures
        exe_dir(root, exe_path).within(root),
        exe_file(root, exe_path).within(root),
{
    lemma_below_is_within(root, path_folders(exe_path));
    let more = path_folders(exe_path) + seq![path_file(exe_path)];
    lemma_below_is_within(root, more);
    assert(exe_file(root, exe_path).parts =~= root.below(more).parts);
}

/// Nothing is left behind among the temporary files: by the parts of its path,
/// every file and directory that a start works on is removed when the game is
/// stopped.
pub proof fn temp_files_are_cleaned_up(
    game_id: Seq<char>,
    game_name: Seq<char>,
    exe_path: Seq<char>,
)
    ensures
        ({
            let plan = temp_plan(game_id, game_name, exe_path);
            forall|i: int|
                0 <= i < plan.steps.len() ==> covered(
                    (#[trigger] plan.steps[i]).action,
                    plan.cleanup,
                )
        }),
{
    lemma_exe_within(game_dir(game_id), exe_path);
}

/// Nothing but the library itself is left behind in the Steam library: by the
/// parts of its path, every other file and directory that a start works on is
/// removed when the game is stopped.
pub proof fn steam_files_are_cleaned_up(
    game_name: Seq<char>,
    app_id: Seq<char>,
    installdir: Seq<char>,
    exe_path: Seq<char>,
)
    ensures
        ({
            let plan = steam_plan(game_name, app_id, installdir, exe_path);
            &&& plan.steps[0].action == ActionView::CreateDirs(steam_library())
            &&& forall|i: int|
                1 <= i < plan.steps.len() ==> covered(
                    (#[trigger] plan.steps[i]).action,
                    plan.cleanup,
                )
        }),
{
    lemma_exe_within(install_root(installdir), exe_path);
}

/// What is undone when a step fails is never more than what is removed when the
/// game is stopped, and when the process cannot be started it is all of it.
pub proof fn failed_start_removes_what_stop_removes(
    game_id: Seq<char>,
    game_name: Seq<char>,
    app_id: Seq<char>,
    installdir: Seq<char>,
    exe_path: Seq<char>,
)
    ensures
        forall|plan: LaunchPlanView|
            plan == temp_plan(game_id, game_name, exe_path) || plan == steam_plan(
                game_name,
                app_id,
                installdir,
                exe_path,
            ) ==> {
                &&& #[trigger] plan.steps.last().action == (ActionView::Spawn {
                    executable: plan.executable,
                    title: game_name,
                })
                &&& plan.steps.last().undo.map_values(|a: ActionView| target(a))
                    == cleanup_steps(plan.cleanup).map_values(|s: StepView| target(s.action))
                &&& forall|i: int, k: int|
                    0 <= i < plan.steps.len() && 0 <= k < plan.steps[i].undo.len() ==> covered(
                        #[trigger] plan.steps[i].undo[k],
                        plan.cleanup,
                    )
            },
{
    let temp = temp_plan(game_id, game_name, exe_path);
    let steam = steam_plan(game_name, app_id, installdir, exe_path);
    assert(temp.steps.last().undo.map_values(|a: ActionView| target(a)) =~= cleanup_steps(
        temp.cleanup,
    ).map_values(|s: StepView| target(s.action)));
    assert(steam.steps.last().undo.map_values(|a: ActionView| target(a)) =~= cleanup_steps(
        steam.cleanup,
    ).map_values(|s: StepView| target(s.action)));
    lemma_below_is_within(game_dir(game_id), Seq::empty());
    assert(game_dir(game_id).below(Seq::empty()).parts =~= game_dir(game_id).parts);
    lemma_below_is_within(install_root(installdir), Seq::empty());
    assert(install_root(installdir).below(Seq::empty()).parts =~= install_root(installdir).parts);
}

/// Games with different ids are kept apart among the temporary files: by the
/// parts of their paths, no directory of a game lies within that of another, and
/// all of them lie in one directory.
pub proof fn games_are_kept_apart(game_id: Seq<char>, other_id: Seq<char>)
    ensures
        game_dir(game_id).within(temp_base()),
        game_id != other_id ==> !game_dir(game_id).within(game_dir(other_id)),
{
    lemma_below_is_within(temp_base(), seq![game_id]);
    if game_dir(game_id).within(game_dir(other_id)) {
        let mine = game_dir(game_id).parts;
        let others = game_dir(other_id).parts;
        assert(mine.take(others.len() as int) == others);
        assert(mine[1] == game_id);
        assert(others[1] == other_id);
        assert(mine.take(others.len() as int)[1] == mine[1]);
    }
}

/// The process of a game that is stopped is killed and awaited before anything
/// is removed, and whatever becomes of that, what follows is the removal of its
/// files.
pub proof fn stop_ends_the_process_first(
    cleanup: CleanupView,
    log: Seq<ActionView>,
    world: spec_fn(Seq<ActionView>) -> OutcomeView,
)
    ensures
        plan_log(stop_steps(cleanup), log, world) == plan_log(
            cleanup_steps(cleanup),
            log.push(ActionView::Kill).push(ActionView::AwaitExit),
            world,
        ),
{
    let steps = stop_steps(cleanup);
    reveal_with_fuel(plan_log, 3);
    assert(steps.drop_first().drop_first() =~= cleanup_steps(cleanup));
}

/// Whether, at some point, the process at a given place is killed and, right
/// after that, awaited.
pub open spec fn ends_process(log: Seq<(nat, ActionView)>, place: nat) -> bool {
    exists|p: int|
        0 <= p < log.len() - 1 && #[trigger] log[p] == (place, ActionView::Kill) && log[p + 1] == (
            place,
            ActionView::AwaitExit,
        )
}

proof fn lemma_plan_log_extends(
    steps: Seq<StepView>,
    log: Seq<ActionView>,
    world: spec_fn(Seq<ActionView>) -> OutcomeView,
)
    ensures
        log.is_prefix_of(plan_log(steps, log, world).0),
    decreases steps.len(),
{
    if steps.len() > 0 {
        let after = log.push(steps[0].action);
        lemma_plan_log_extends(steps.drop_first(), after, world);
    }
}

proof fn lemma_stop_log(cleanup: CleanupView, world: spec_fn(Seq<ActionView>) -> OutcomeView)
    ensures
        ({
            let done = plan_log(stop_steps(cleanup), Seq::empty(), world).0;
            done.len() >= 2 && done[0] == ActionView::Kill && done[1] == ActionView::AwaitExit
        }),
{
    let ended = Seq::<ActionView>::empty().push(ActionView::Kill).push(ActionView::AwaitExit);
    stop_ends_the_process_first(cleanup, Seq::empty(), world);
    lemma_plan_log_extends(cleanup_steps(cleanup), ended, world);
    let done = plan_log(stop_steps(cleanup), Seq::empty(), world).0;
    assert(ended[0] == done[0] && ended[1] == done[1]);
}

proof fn lemma_stop_all(
    cleanups: Seq<CleanupView>,
    at: nat,
    log: Seq<(nat, ActionView)>,
    world: spec_fn(Seq<(nat, ActionView)>) -> OutcomeView,
)
    ensures
        ({
            let done = plans_log(stop_all_plans(cleanups), at, log, world);
            &&& log.is_prefix_of(done)
            &&& forall|i: int|
                0 <= i < cleanups.len() ==> ends_process(done, #[trigger] (at + i) as nat)
            &&& done.len() > 0
            &&& done.last() == (at + cleanups.len(), ActionView::RemoveDirIfPresent(temp_base()))
        }),
    decreases cleanups.len(),
{
    let plans = stop_all_plans(cleanups);
    let inner = world_after(world, log, at);
    let part = plan_log(plans[0], Seq::empty(), inner).0;
    let next = log + tagged(part, at);
    let done = plans_log(plans, at, log, world);
    if cleanups.len() == 0 {
        reveal_with_fuel(plan_log, 2);
        reveal_with_fuel(plans_log, 2);
        assert(plans[0] == temp_cleanup(temp_base()));
        assert(part =~= seq![ActionView::RemoveDirIfPresent(temp_base())]);
        assert(plans.drop_first().len() == 0);
        assert(done == next);
    } else {
        let rest = cleanups.drop_first();
        assert(plans.drop_first() =~= stop_all_plans(rest));
        assert(plans[0] == stop_steps(cleanups[0]));
        lemma_stop_log(cleanups[0], inner);
        lemma_stop_all(rest, at + 1, next, world);
        assert(log.is_prefix_of(done)) by {
            assert(next.take(log.len() as int) =~= log);
            assert(done.take(next.len() as int) =~= next);
            assert(done.take(log.len() as int) =~= log);
        }
        assert forall|i: int| 0 <= i < cleanups.len() implies ends_process(
            done,
            #[trigger] (at + i) as nat,
        ) by {
            if i == 0 {
                let p = log.len() as int;
                assert(next[p] == (at, ActionView::Kill));
                assert(next[p + 1] == (at, ActionView::AwaitExit));
                assert(done[p] == next[p] && done[p + 1] == next[p + 1]);
            } else {
                assert(ends_process(done, ((at + 1) + (i - 1)) as nat));
            }
        }
    }
}

/// When all games are stopped, every process is killed and awaited, whatever
/// becomes of that and of the other games, and the last that is done is the
/// removal of everything that was put among the temporary files.
pub proof fn every_game_is_ended(
    cleanups: Seq<CleanupView>,
    world: spec_fn(Seq<(nat, ActionView)>) -> OutcomeView,
)
    ensures
        ({
            let done = sweep_log(
                sweep_plans(stop_all_plans(cleanups), 0),
                Seq::empty(),
                world,
            );
            &&& forall|place: nat| place < cleanups.len() ==> #[trigger] ends_process(done, place)
            &&& done.len() > 0
            &&& done.last() == (cleanups.len(), ActionView::RemoveDirIfPresent(temp_base()))
        }),
{
    every_plan_is_carried_out(stop_all_plans(cleanups), 0, Seq::empty(), world);
    lemma_stop_all(cleanups, 0, Seq::empty(), world);
    let done = plans_log(stop_all_plans(cleanups), 0, Seq::empty(), world);
    assert forall|place: nat| place < cleanups.len() implies #[trigger] ends_process(done, place) by {
        assert(ends_process(done, (0 + place as int) as nat));
    }
}

/// Stopping a game that was put among the running games gives back what was put
/// there and leaves the others as they were.
pub proof fn stop_undoes_register<P>(
    running: Map<Seq<char>, RunningGame<P>>,
    game_id: Seq<char>,
    game: RunningGame<P>,
)
    requires
        !running.contains_key(game_id),
    ensures
        running.insert(game_id, game).contains_key(game_id),
        running.insert(game_id, game)[game_id] == game,
        running.insert(game_id, game).remove(game_id) == running,
{
    assert(running.insert(game_id, game).remove(game_id) =~= running);
}

// How the steps of a start belong together.

/// Whether what a plan starts in the end is the executable that it put there
/// before, in a directory that it created before that, and its window has a
/// given title.
pub open spec fn starts_what_it_puts(plan: LaunchPlanView, title: Seq<char>) -> bool {
    exists|dir: int, file: int|
        {
            let exe = plan.executable;
            &&& 0 <= dir < file < plan.steps.len() - 1
            &&& (#[trigger] plan.steps[dir]).action == ActionView::CreateDirs(
                LocationView { base: exe.base, parts: exe.parts.drop_last() },
            )
            &&& (#[trigger] plan.steps[file]).action == ActionView::WriteExecutable(exe)
            &&& plan.steps.last().action == (ActionView::Spawn { executable: exe, title })
        }
}

/// What is started is the executable that was put there, in a directory that was
/// created for it, and its window bears the name of the game.
pub proof fn what_is_started_was_put_there(
    game_id: Seq<char>,
    game_name: Seq<char>,
    app_id: Seq<char>,
    installdir: Seq<char>,
    exe_path: Seq<char>,
)
    ensures
        starts_what_it_puts(temp_plan(game_id, game_name, exe_path), game_name),
        starts_what_it_puts(steam_plan(game_name, app_id, installdir, exe_path), game_name),
{
    let temp = temp_plan(game_id, game_name, exe_path);
    let steam = steam_plan(game_name, app_id, installdir, exe_path);
    assert(temp.executable.parts.drop_last() =~= exe_dir(game_dir(game_id), exe_path).parts);
    assert(steam.executable.parts.drop_last() =~= exe_dir(
        install_root(installdir),
        exe_path,
    ).parts);
    assert(temp.steps[0].action == ActionView::CreateDirs(exe_dir(game_dir(game_id), exe_path)));
    assert(temp.steps[1].action == ActionView::WriteExecutable(temp.executable));
    assert(steam.steps[1].action == ActionView::CreateDirs(
        exe_dir(install_root(installdir), exe_path),
    ));
    assert(steam.steps[2].action == ActionView::WriteExecutable(steam.executable));
}

/// An executable whose path is made of some names is put, under these names, into
/// the directory for its game or into the install directory of its app.
pub proof fn executables_are_put_under_their_names(
    game_id: Seq<char>,
    game_name: Seq<char>,
    app_id: Seq<char>,
    installdir: Seq<char>,
    names: Seq<Seq<char>>,
)
    requires
        names.len() > 0,
        forall|i: int| 0 <= i < names.len() ==> plain_name(#[trigger] names[i]),
        forall|i: int| 0 <= i < names.len() - 1 ==> (#[trigger] names[i]).len() > 0,
    ensures
        temp_plan(game_id, game_name, joined_by(names, '/')).executable == (LocationView {
            base: Base::Temp,
            parts: seq!["disactivity"@, game_id] + names,
        }),
        steam_plan(game_name, app_id, installdir, joined_by(names, '/')).executable == (
        LocationView {
            base: Base::Steam,
            parts: seq!["steamapps"@, "common"@, installdir] + names,
        }),
{
    let path = joined_by(names, '/');
    path_names_come_back(names);
    assert(temp_plan(game_id, game_name, path).executable.parts =~= seq!["disactivity"@, game_id]
        + names);
    assert(steam_plan(game_name, app_id, installdir, path).executable.parts =~= seq![
        "steamapps"@,
        "common"@,
        installdir,
    ] + names);
}

/// An executable that was selected is the one that is started, whatever else is
/// known; without a selection it is the best one.
pub proof fn selection_goes_before_the_best(
    executables: Seq<ExecutableView>,
    selected: Seq<char>,
)
    ensures
        chosen_executable(executables, Some(selected)) == Some(selected),
        chosen_executable(executables, None) == best_name(executables),
{
}

/// Whether a manifest that a plan writes fits the rest of the plan: it names as
/// its install directory the one below `steamapps/common` that holds the
/// executable and is removed in the end, as its name the title of the window with
/// double quotes replaced, and as its app id the one in the name of its file. It
/// is removed in the end.
pub open spec fn manifest_fits(
    plan: LaunchPlanView,
    path: LocationView,
    content: Seq<char>,
) -> bool {
    let parts = plan.executable.parts;
    &&& plan.executable.base == Base::Steam
    &&& parts.len() > 3
    &&& parts[0] == "steamapps"@
    &&& parts[1] == "common"@
    &&& has_field(content, "installdir"@, parts[2])
    &&& plan.steps.last().action is Spawn
    &&& has_field(
        content,
        "name"@,
        replaced(plan.steps.last().action->Spawn_title, '"', '\''),
    )
    &&& path.base == Base::Steam
    &&& path.parts.len() == 2
    &&& path.parts[0] == "steamapps"@
    &&& exists|app_id: Seq<char>| #[trigger]
        has_field(content, "appid"@, app_id) && path.parts[1] == "appmanifest_"@ + app_id
            + ".acf"@
    &&& plan.cleanup == (CleanupView::SteamFake {
        manifest_path: path,
        install_dir: LocationView { base: Base::Steam, parts: parts.take(3) },
    })
}

/// The one text that a start from within the Steam library writes, before the
/// process is started, is a manifest that fits the rest of the plan, and it is
/// that of the app. The app id and the install directory hold no double quotes.
pub proof fn manifest_fits_the_install(
    game_name: Seq<char>,
    app_id: Seq<char>,
    installdir: Seq<char>,
    exe_path: Seq<char>,
)
    requires
        !app_id.contains('"'),
        !installdir.contains('"'),
    ensures
        ({
            let plan = steam_plan(game_name, app_id, installdir, exe_path);
            &&& exists|i: int|
                0 <= i < plan.steps.len() - 1 && (#[trigger] plan.steps[i]).action is WriteText
            &&& forall|i: int|
                0 <= i < plan.steps.len() && (#[trigger] plan.steps[i]).action is WriteText ==> {
                    let content = plan.steps[i].action->WriteText_content;
                    &&& manifest_fits(plan, plan.steps[i].action->WriteText_path, content)
                    &&& has_field(content, "appid"@, app_id)
                    &&& has_field(content, "installdir"@, installdir)
                    &&& has_field(content, "name"@, replaced(game_name, '"', '\''))
                }
        }),
{
    let plan = steam_plan(game_name, app_id, installdir, exe_path);
    manifest_says_what_was_given(app_id, game_name, installdir);
    assert(plan.steps[3].action is WriteText);
    assert(plan.executable.parts[0] == "steamapps"@);
    assert(plan.executable.parts[2] == installdir);
    assert(plan.executable.parts.take(3) =~= install_root(installdir).parts);
    assert(manifest_file(app_id).parts[1] == "appmanifest_"@ + app_id + ".acf"@);
}

/// Whether an operation removes a location: it removes this very file, or, by the
/// parts of the path, a directory in which the location lies.
pub open spec fn removes(action: ActionView, at: LocationView) -> bool {
    match action {
        ActionView::RemoveFile(file) => file == at,
        ActionView::RemoveFileIfPresent(file) => file == at,
        ActionView::RemoveDir(dir) => at.within(dir),
        ActionView::RemoveDirIfPresent(dir) => at.within(dir),
        _ => false,
    }
}

/// Whether some steps remove a location.
pub open spec fn removed_by(steps: Seq<StepView>, at: LocationView) -> bool {
    exists|k: int| 0 <= k < steps.len() && removes((#[trigger] steps[k]).action, at)
}

proof fn lemma_cleanup_removes(action: ActionView, cleanup: CleanupView)
    requires
        covered(action, cleanup),
    ensures
        removed_by(stop_steps(cleanup), target(action)->0),
{
    let steps = stop_steps(cleanup);
    let at = target(action)->0;
    match cleanup {
        CleanupView::TempDir(dir) => {
            assert(removes(steps[2].action, at));
        },
        CleanupView::SteamFake { manifest_path, install_dir } => {
            assert(steps[2].action == ActionView::RemoveFileIfPresent(manifest_path));
            assert(steps[3].action == ActionView::RemoveDirIfPresent(install_dir));
        },
    }
}

/// What a start puts down, a stop removes: every step of a start works on a
/// location that one of the steps of the stop removes. Only the directory of the
/// Steam library itself stays.
pub proof fn stop_removes_what_start_put(
    game_id: Seq<char>,
    game_name: Seq<char>,
    app_id: Seq<char>,
    installdir: Seq<char>,
    exe_path: Seq<char>,
)
    ensures
        ({
            let temp = temp_plan(game_id, game_name, exe_path);
            let steam = steam_plan(game_name, app_id, installdir, exe_path);
            &&& forall|i: int|
                0 <= i < temp.steps.len() ==> target((#[trigger] temp.steps[i]).action) is Some
                    && removed_by(stop_steps(temp.cleanup), target(temp.steps[i].action)->0)
            &&& forall|i: int|
                0 <= i < steam.steps.len() ==> target((#[trigger] steam.steps[i]).action) is Some
                    && (steam.steps[i].action == ActionView::CreateDirs(
                    LocationView { base: Base::Steam, parts: seq!["steamapps"@] },
                ) || removed_by(stop_steps(steam.cleanup), target(steam.steps[i].action)->0))
        }),
{
    let temp = temp_plan(game_id, game_name, exe_path);
    let steam = steam_plan(game_name, app_id, installdir, exe_path);
    temp_files_are_cleaned_up(game_id, game_name, exe_path);
    steam_files_are_cleaned_up(game_name, app_id, installdir, exe_path);
    assert forall|i: int| 0 <= i < temp.steps.len() implies target(
        (#[trigger] temp.steps[i]).action,
    ) is Some && removed_by(stop_steps(temp.cleanup), target(temp.steps[i].action)->0) by {
        lemma_cleanup_removes(temp.steps[i].action, temp.cleanup);
    }
    assert forall|i: int| 0 <= i < steam.steps.len() implies target(
        (#[trigger] steam.steps[i]).action,
    ) is Some && (steam.steps[i].action == ActionView::CreateDirs(
        LocationView { base: Base::Steam, parts: seq!["steamapps"@] },
    ) || removed_by(stop_steps(steam.cleanup), target(steam.steps[i].action)->0)) by {
        if i > 0 {
            lemma_cleanup_removes(steam.steps[i].action, steam.cleanup);
        }
    }
}

/// Stopping a game spares the others: by the parts of the paths, no step removes
/// what belongs to a game with another id among the temporary files, to an app
/// with another install directory, or the manifest of another app.
pub proof fn stop_spares_the_others(
    game_id: Seq<char>,
    game_name: Seq<char>,
    app_id: Seq<char>,
    installdir: Seq<char>,
    exe_path: Seq<char>,
    other: Seq<char>,
    below: Seq<Seq<char>>,
)
    ensures
        other != game_id ==> !removed_by(
            stop_steps(temp_plan(game_id, game_name, exe_path).cleanup),
            (LocationView { base: Base::Temp, parts: seq!["disactivity"@, other] + below }),
        ),
        other != installdir ==> !removed_by(
            stop_steps(steam_plan(game_name, app_id, installdir, exe_path).cleanup),
            (LocationView {
                base: Base::Steam,
                parts: seq!["steamapps"@, "common"@, other] + below,
            }),
        ),
        other != "appmanifest_"@ + app_id + ".acf"@ && other != "common"@ ==> !removed_by(
            stop_steps(steam_plan(game_name, app_id, installdir, exe_path).cleanup),
            (LocationView { base: Base::Steam, parts: seq!["steamapps"@, other] + below }),
        ),
{
    let temp_steps = stop_steps(temp_plan(game_id, game_name, exe_path).cleanup);
    let steam_steps = stop_steps(steam_plan(game_name, app_id, installdir, exe_path).cleanup);
    let of_game = seq!["disactivity"@, other] + below;
    let of_app = seq!["steamapps"@, "common"@, other] + below;
    let of_library = seq!["steamapps"@, other] + below;
    assert(of_game[1] == other && of_app[1] == "common"@ && of_app[2] == other && of_library[1]
        == other);
    assert(of_game.len() >= 2 && of_app.len() >= 3 && of_library.len() >= 2);
    assert(temp_steps.len() == 3 && steam_steps.len() == 4);
    let mine = game_dir(game_id).parts;
    let root = install_root(installdir).parts;
    let manifest = manifest_file(app_id).parts;
    assert(mine.len() == 2 && mine[1] == game_id);
    assert(root.len() == 3 && root[1] == "common"@ && root[2] == installdir);
    assert(manifest.len() == 2 && manifest[1] == "appmanifest_"@ + app_id + ".acf"@);
    if of_game.take(2) == mine {
        assert(of_game.take(2)[1] == other);
    }
    if of_app.take(3) == root {
        assert(of_app.take(3)[2] == other);
    }
    if of_library.len() >= 3 && of_library.take(3) == root {
        assert(of_library.take(3)[1] == other);
    }
    assert(temp_steps[2].action == ActionView::RemoveDirIfPresent(game_dir(game_id)));
    assert(steam_steps[2].action == ActionView::RemoveFileIfPresent(manifest_file(app_id)));
    assert(steam_steps[3].action == ActionView::RemoveDirIfPresent(install_root(installdir)));
}

/// To stop all games is to stop each of them as it would be stopped alone, and to
/// remove the directory `disactivity` among the temporary files in the end.
pub proof fn all_games_are_stopped_as_one_is(cleanups: Seq<CleanupView>)
    ensures
        stop_all_plans(cleanups).len() == cleanups.len() + 1,
        forall|i: int|
            0 <= i < cleanups.len() ==> #[trigger] stop_all_plans(cleanups)[i] == stop_steps(
                cleanups[i],
            ),
        stop_all_plans(cleanups).last().len() == 1,
        stop_all_plans(cleanups).last()[0].action == ActionView::RemoveDirIfPresent(
            LocationView { base: Base::Temp, parts: seq!["disactivity"@] },
        ),
{
}

} // verus!
