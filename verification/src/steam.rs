//! What Steam's public app information says of a game: its install directory
//! and ranked guesses at the executable that runs it.

use vstd::prelude::*;

use crate::catalog::optional_view;
use crate::json::{field_views, Json, JsonView};
use crate::ranking::{
    keys_ascend, lemma_sort_breaks_ties, lemma_sort_permutes, lemma_sorted_from_items, map_items,
    sort_by_key, sort_commutes_with_map, sort_is_stable, sorted_by_key, ties_ascend,
};
use crate::paths::{
    empty_names_are_left_out, path_file, path_folders, path_names_come_back, plain_name,
};
use crate::text::{
    begins_with, blank, cut_at_first, cut_is_at_the_first_separator, has_substring, joined_by,
    lemma_join_one_more, lemma_one_piece, lemma_pieces_of_two, lowercase, made_of, mentions, parsed_u32, pieces,
    pieces_hold_no_separator, same_ignoring_ascii_case, substring_is_a_part, trimmed,
    trimming_takes_only_white_space, trimming_undoes_padding, views, white_space,
};
use crate::text::{
    contains_text, eq_ignore_ascii_case, joined, parse_u32, same_text, split_on, split_once,
    starts_with, to_lowercase, trim,
};

verus! {

/// What the user is offered for a game that has no known executable.
#[derive(Debug)]
pub struct SteamLaunchInfo {
    pub installdir: String,
    /// Ranked guesses, best first.
    pub candidates: Vec<String>,
}

/// One of the ways to launch a game.
#[derive(Debug)]
pub struct LaunchOption {
    pub executable: Option<String>,
    /// The systems it is meant for, separated by commas; all when missing.
    pub oslist: Option<String>,
    pub beta_only: bool,
}

/// What a `LaunchOption` says.
pub struct LaunchOptionView {
    pub executable: Option<Seq<char>>,
    pub oslist: Option<Seq<char>>,
    pub beta_only: bool,
}

impl View for LaunchOption {
    type V = LaunchOptionView;

    open spec fn view(&self) -> LaunchOptionView {
        LaunchOptionView {
            executable: optional_view(self.executable),
            oslist: optional_view(self.oslist),
            beta_only: self.beta_only,
        }
    }
}

// The project name of an Unreal Engine game.

/// Whether what follows the project name in a save path is its `Saved` folder;
/// `lower` is `rest` in lowercase.
pub open spec fn saved_folder(rest: Seq<char>, lower: Seq<char>) -> bool {
    begins_with(lower, "saved/"@) || same_ignoring_ascii_case(rest, "saved"@)
}

/// Whether what follows the project name in a save path is its `Saved` folder,
/// given its lowercase form.
pub fn is_saved_folder(rest: &str, lower: &str) -> (r: bool)
    ensures
        r == saved_folder(rest@, lower@),
{
    starts_with(lower, "saved/") || eq_ignore_ascii_case(rest, "saved")
}

/// The project name in a save path of the form `<project>/Saved/...`.
pub open spec fn save_project(path: Seq<char>) -> Option<Seq<char>> {
    match cut_at_first(path, '/') {
        Some((project, rest)) => if saved_folder(rest, lowercase(rest)) {
            Some(project)
        } else {
            None
        },
        None => None,
    }
}

/// Reads the project name from a save path of the form `<project>/Saved/...`.
pub fn project_of_save_path(path: &str) -> (r: Option<String>)
    ensures
        optional_view(r) == save_project(path@),
{
    match split_once(path, '/') {
        Some((project, rest)) => {
            let lower = to_lowercase(rest.as_str());
            if is_saved_folder(rest.as_str(), lower.as_str()) {
                Some(project)
            } else {
                None
            }
        },
        None => None,
    }
}

/// The project name that an entry of the save files gives.
pub open spec fn entry_project(entry: JsonView) -> Option<Seq<char>> {
    match entry.get_text("path"@) {
        Some(path) => save_project(path),
        None => None,
    }
}

/// The project name that the first fitting entry gives.
pub open spec fn first_project(entries: Seq<(Seq<char>, JsonView)>) -> Option<Seq<char>>
    decreases entries.len(),
{
    if entries.len() == 0 {
        None
    } else if entry_project(entries[0].1) is Some {
        entry_project(entries[0].1)
    } else {
        first_project(entries.drop_first())
    }
}

/// The project name of an Unreal Engine game, read from where it keeps its
/// cloud saves.
pub open spec fn project_name(app: JsonView) -> Option<Seq<char>> {
    match app.get("ufs"@) {
        Some(ufs) => match ufs.get_object("savefiles"@) {
            Some(entries) => first_project(entries),
            None => None,
        },
        None => None,
    }
}

/// Finds the project name of an Unreal Engine game.
pub fn find_project_name(app: &Json) -> (r: Option<String>)
    ensures
        optional_view(r) == project_name(app@),
{
    let ufs = match app.get("ufs") {
        Some(value) => value,
        None => {
            return None;
        },
    };
    let entries = match ufs.get_object("savefiles") {
        Some(fields) => fields,
        None => {
            return None;
        },
    };
    let ghost all = field_views(entries@);
    assert(all.skip(0) =~= all);
    let mut i: usize = 0;
    while i < entries.len()
        invariant
            i <= entries.len(),
            all == field_views(entries@),
            project_name(app@) == first_project(all),
            first_project(all) == first_project(all.skip(i as int)),
        decreases entries.len() - i,
    {
        assert(all.skip(i as int)[0] == (entries@[i as int].0@, entries@[i as int].1@));
        assert(all.skip(i as int).drop_first() =~= all.skip(i + 1));
        if let Some(path) = entries[i].1.get_text("path") {
            let project = project_of_save_path(path);
            if project.is_some() {
                return project;
            }
        }
        i += 1;
    }
    None
}

/// The places where an Unreal Engine project keeps its Windows binary, best
/// guess first.
pub open spec fn engine_guesses(project: Seq<char>) -> Seq<Seq<char>> {
    seq![
        "win64/"@ + project + "-Win64-Shipping.exe"@,
        "Binaries/Win64/"@ + project + "-Win64-Shipping.exe"@,
        project + "/Binaries/Win64/"@ + project + "-Win64-Shipping.exe"@,
    ]
}

/// The guesses that the project name of an Unreal Engine game allows.
pub open spec fn project_guesses(project: Option<Seq<char>>) -> Seq<Seq<char>> {
    match project {
        Some(name) => engine_guesses(name),
        None => Seq::empty(),
    }
}

/// Lists where an Unreal Engine project keeps its Windows binary.
pub fn guess_from_project(project: &Option<String>) -> (r: Vec<String>)
    ensures
        views(r@) == project_guesses(optional_view(*project)),
{
    let mut out: Vec<String> = Vec::new();
    match project {
        Some(name) => {
            let binary = joined(name.as_str(), "-Win64-Shipping.exe");
            let flat = joined("win64/", binary.as_str());
            let capitalized = joined("Binaries/Win64/", binary.as_str());
            let folder = joined(name.as_str(), "/Binaries/Win64/");
            let packaged = joined(folder.as_str(), binary.as_str());
            assert(flat@ =~= "win64/"@ + name@ + "-Win64-Shipping.exe"@);
            assert(capitalized@ =~= "Binaries/Win64/"@ + name@ + "-Win64-Shipping.exe"@);
            assert(packaged@ =~= name@ + "/Binaries/Win64/"@ + name@ + "-Win64-Shipping.exe"@);
            out.push(flat);
            out.push(capitalized);
            out.push(packaged);
            assert(views(out@) =~= engine_guesses(name@));
        },
        None => {
            assert(views(out@) =~= Seq::<Seq<char>>::empty());
        },
    }
    out
}

// The ways to launch a game.

/// Whether a list of systems names Windows. A missing list means all systems.
pub open spec fn windows_compatible(oslist: Option<Seq<char>>) -> bool {
    match oslist {
        Some(list) => exists|i: int|
            0 <= i < pieces(list, ',').len() && trimmed(#[trigger] pieces(list, ',')[i])
                == "windows"@,
        None => true,
    }
}

/// Whether a list of systems names Windows.
pub fn is_windows_compatible(oslist: &Option<String>) -> (r: bool)
    ensures
        r == windows_compatible(optional_view(*oslist)),
{
    match oslist {
        Some(list) => {
            let systems = split_on(list.as_str(), ',');
            let ghost all = pieces(list@, ',');
            let mut i: usize = 0;
            while i < systems.len()
                invariant
                    i <= systems.len(),
                    optional_view(*oslist) == Some(list@),
                    all == pieces(list@, ','),
                    views(systems@) == all,
                    forall|k: int| 0 <= k < i ==> trimmed(#[trigger] all[k]) != "windows"@,
                decreases systems.len() - i,
            {
                assert(views(systems@)[i as int] == systems@[i as int]@);
                if same_text(trim(systems[i].as_str()).as_str(), "windows") {
                    proof {
                        let names = pieces(optional_view(*oslist)->0, ',');
                        assert(0 <= i < names.len() && trimmed(names[i as int]) == "windows"@);
                    }
                    return true;
                }
                i += 1;
            }
            false
        },
        None => true,
    }
}

/// Whether a name, in lowercase, is that of an anti-cheat bootstrapper.
pub open spec fn anticheat_name(lower: Seq<char>) -> bool {
    ||| has_substring(lower, "protected_game"@)
    ||| has_substring(lower, "anticheat"@)
    ||| has_substring(lower, "battleye"@)
    ||| has_substring(lower, "eos_launcher"@)
    ||| has_substring(lower, "eaclauncher"@)
}

/// Whether a name, in lowercase, is that of an anti-cheat bootstrapper. Such a
/// program starts the game but is not the one that runs it.
pub fn is_anticheat_launcher(lower: &str) -> (r: bool)
    ensures
        r == anticheat_name(lower@),
{
    contains_text(lower, "protected_game") || contains_text(lower, "anticheat") || contains_text(
        lower,
        "battleye",
    ) || contains_text(lower, "eos_launcher") || contains_text(lower, "eaclauncher")
}

/// The rank of a build by its name in lowercase: a shipping build first, a
/// test, debug or development build last.
pub open spec fn build_rank_of(lower: Seq<char>) -> u8 {
    if has_substring(lower, "shipping"@) {
        0
    } else if has_substring(lower, "test"@) || has_substring(lower, "debug"@) || has_substring(
        lower,
        "dev"@,
    ) {
        2
    } else {
        1
    }
}

/// The rank of a build by its name in lowercase.
pub fn build_rank(lower: &str) -> (r: u8)
    ensures
        r == build_rank_of(lower@),
{
    if contains_text(lower, "shipping") {
        0
    } else if contains_text(lower, "test") || contains_text(lower, "debug") || contains_text(
        lower,
        "dev",
    ) {
        2
    } else {
        1
    }
}

/// One number for the three criteria, the first of which weighs most.
pub open spec fn score_key(anticheat: bool, beta_only: bool, rank: u8) -> u32 {
    ((if anticheat {
        0x10000int
    } else {
        0
    }) + (if beta_only {
        0x100int
    } else {
        0
    }) + rank) as u32
}

/// Scores compare as their criteria do, one after the other: an anti-cheat
/// bootstrapper behind anything else, then an option for beta testers behind
/// one for everybody, then the rank of the build.
pub proof fn scores_compare_by_criteria(
    anticheat: bool,
    beta_only: bool,
    rank: u8,
    other_anticheat: bool,
    other_beta_only: bool,
    other_rank: u8,
)
    ensures
        score_key(anticheat, beta_only, rank) < score_key(
            other_anticheat,
            other_beta_only,
            other_rank,
        ) <==> {
            ||| !anticheat && other_anticheat
            ||| anticheat == other_anticheat && !beta_only && other_beta_only
            ||| anticheat == other_anticheat && beta_only == other_beta_only && rank < other_rank
        },
{
}

/// The score of an executable by its name in lowercase; the lowest is best.
pub open spec fn name_score(lower: Seq<char>, beta_only: bool) -> u32 {
    score_key(anticheat_name(lower), beta_only, build_rank_of(lower))
}

/// Scores an executable by its name in lowercase; the lowest score is best.
pub fn score_name(lower: &str, beta_only: bool) -> (r: u32)
    ensures
        r == name_score(lower@, beta_only),
{
    let anticheat: u32 = if is_anticheat_launcher(lower) {
        0x10000
    } else {
        0
    };
    let beta: u32 = if beta_only {
        0x100
    } else {
        0
    };
    anticheat + beta + build_rank(lower) as u32
}

/// The executable of a launch option with its score, when the option is for
/// Windows and names one.
pub open spec fn option_score(option: LaunchOptionView) -> Option<(u32, Seq<char>)> {
    match option.executable {
        Some(exe) => if windows_compatible(option.oslist) {
            Some((name_score(lowercase(exe), option.beta_only), exe))
        } else {
            None
        },
        None => None,
    }
}

/// The scored executables of the launch options, in the order of the options.
pub open spec fn scored_options(options: Seq<(u32, LaunchOptionView)>) -> Seq<(u32, Seq<char>)>
    decreases options.len(),
{
    if options.len() == 0 {
        Seq::empty()
    } else {
        let before = scored_options(options.drop_last());
        match option_score(options.last().1) {
            Some(scored) => before.push(scored),
            None => before,
        }
    }
}

/// The text in a scored item.
pub open spec fn scored_views(items: Seq<(u32, String)>) -> Seq<(u32, Seq<char>)> {
    map_items(items, |t: String| t@)
}

/// Scores the executables of the launch options that are for Windows.
pub fn score_options(options: Vec<(u32, LaunchOption)>) -> (r: Vec<(u32, String)>)
    ensures
        scored_views(r@) == scored_options(map_items(options@, |o: LaunchOption| o@)),
{
    let ghost all = map_items(options@, |o: LaunchOption| o@);
    let mut out: Vec<(u32, String)> = Vec::new();
    assert(scored_views(out@) =~= Seq::<(u32, Seq<char>)>::empty());
    for item in it: options
        invariant
            it.seq() == options@,
            all == map_items(options@, |o: LaunchOption| o@),
            scored_views(out@) == scored_options(all.take(it.index())),
    {
        let ghost before = out@;
        proof {
            assert(all.take(it.index() + 1).drop_last() =~= all.take(it.index()));
            assert(all.take(it.index() + 1).last() == (item.0, item.1@));
        }
        let option = item.1;
        if is_windows_compatible(&option.oslist) {
            if let Some(exe) = option.executable {
                let lower = to_lowercase(exe.as_str());
                let score = score_name(lower.as_str(), option.beta_only);
                out.push((score, exe));
                assert(scored_views(out@) =~= scored_views(before).push((score, exe@)));
            }
        }
    }
    assert(all.take(all.len() as int) =~= all);
    out
}

/// The place of a launch option: its key when that is a number, else the last.
pub open spec fn option_place(key: Seq<char>) -> u32 {
    match parsed_u32(key) {
        Some(n) => n,
        None => u32::MAX,
    }
}

/// What an entry of the launch options says.
pub open spec fn option_of(entry: JsonView) -> LaunchOptionView {
    LaunchOptionView {
        executable: entry.get_text("executable"@),
        oslist: match entry.get("config"@) {
            Some(config) => config.get_text("oslist"@),
            None => None,
        },
        beta_only: match entry.get("config"@) {
            Some(config) => config.get("betakey"@) is Some,
            None => false,
        },
    }
}

/// The launch options with their places, in the order in which they are given.
pub open spec fn placed_options(entries: Seq<(Seq<char>, JsonView)>) -> Seq<
    (u32, LaunchOptionView),
> {
    entries.map_values(|e: (Seq<char>, JsonView)| (option_place(e.0), option_of(e.1)))
}

/// Reads one entry of the launch options.
pub fn read_option(entry: &Json) -> (r: LaunchOption)
    ensures
        r@ == option_of(entry@),
{
    let executable = match entry.get_text("executable") {
        Some(exe) => Some(exe.to_owned()),
        None => None,
    };
    let mut oslist: Option<String> = None;
    let mut beta_only: bool = false;
    if let Some(config) = entry.get("config") {
        oslist = match config.get_text("oslist") {
            Some(list) => Some(list.to_owned()),
            None => None,
        };
        beta_only = config.get("betakey").is_some();
    }
    LaunchOption { executable, oslist, beta_only }
}

/// Reads the launch options with their places.
pub fn read_options(entries: &Vec<(String, Json)>) -> (r: Vec<(u32, LaunchOption)>)
    ensures
        map_items(r@, |o: LaunchOption| o@) == placed_options(field_views(entries@)),
{
    let ghost all = field_views(entries@);
    let mut out: Vec<(u32, LaunchOption)> = Vec::new();
    let mut i: usize = 0;
    assert(map_items(out@, |o: LaunchOption| o@) =~= placed_options(all.take(0)));
    while i < entries.len()
        invariant
            i <= entries.len(),
            all == field_views(entries@),
            map_items(out@, |o: LaunchOption| o@) == placed_options(all.take(i as int)),
        decreases entries.len() - i,
    {
        let ghost before = out@;
        let place = match parse_u32(entries[i].0.as_str()) {
            Some(n) => n,
            None => u32::MAX,
        };
        let option = read_option(&entries[i].1);
        out.push((place, option));
        proof {
            let added = (place, option@);
            assert(map_items(out@, |o: LaunchOption| o@) =~= map_items(
                before,
                |o: LaunchOption| o@,
            ).push(added));
            assert(placed_options(all.take(i + 1)) =~= placed_options(all.take(i as int)).push(
                added,
            ));
        }
        i += 1;
    }
    assert(all.take(all.len() as int) =~= all);
    out
}

// The ranked guesses.

/// How many launch options are offered at most.
pub const OFFERED_OPTIONS: usize = 3;

/// The best of the scored executables, best first. Equal scores keep their order.
pub open spec fn best_options(scored: Seq<(u32, Seq<char>)>) -> Seq<(u32, Seq<char>)> {
    let sorted = sorted_by_key(scored);
    if sorted.len() <= OFFERED_OPTIONS {
        sorted
    } else {
        sorted.take(OFFERED_OPTIONS as int)
    }
}

/// Whether a name is among the candidates, the case of ASCII letters left aside.
pub open spec fn known(candidates: Seq<Seq<char>>, exe: Seq<char>) -> bool {
    exists|i: int|
        0 <= i < candidates.len() && same_ignoring_ascii_case(#[trigger] candidates[i], exe)
}

/// The candidates with those executables added that are not among them yet.
pub open spec fn with_new(candidates: Seq<Seq<char>>, options: Seq<(u32, Seq<char>)>) -> Seq<
    Seq<char>,
>
    decreases options.len(),
{
    if options.len() == 0 {
        candidates
    } else {
        let before = with_new(candidates, options.drop_last());
        if known(before, options.last().1) {
            before
        } else {
            before.push(options.last().1)
        }
    }
}

/// Whether a name is among the candidates, the case of ASCII letters left aside.
pub fn is_known(candidates: &Vec<String>, exe: &str) -> (r: bool)
    ensures
        r == known(views(candidates@), exe@),
{
    let ghost all = views(candidates@);
    let mut i: usize = 0;
    while i < candidates.len()
        invariant
            i <= candidates.len(),
            all == views(candidates@),
            forall|k: int| 0 <= k < i ==> !same_ignoring_ascii_case(#[trigger] all[k], exe@),
        decreases candidates.len() - i,
    {
        assert(all[i as int] == candidates@[i as int]@);
        if eq_ignore_ascii_case(candidates[i].as_str(), exe) {
            return true;
        }
        i += 1;
    }
    false
}

/// Adds the best of the scored executables to the candidates, unless they are
/// among them already.
pub fn add_best_options(candidates: Vec<String>, scored: Vec<(u32, String)>) -> (r: Vec<String>)
    ensures
        views(r@) == with_new(views(candidates@), best_options(scored_views(scored@))),
{
    let ghost start = views(candidates@);
    let ghost best = best_options(scored_views(scored@));
    proof {
        sort_commutes_with_map(scored@, |t: String| t@);
        sort_is_stable(scored@);
    }
    let sorted = sort_by_key(scored);
    let offered: usize = if sorted.len() <= OFFERED_OPTIONS {
        sorted.len()
    } else {
        OFFERED_OPTIONS
    };
    let ghost all = scored_views(sorted@);
    assert(best =~= all.take(offered as int));
    let mut out = candidates;
    let mut i: usize = 0;
    while i < offered
        invariant
            i <= offered <= sorted.len(),
            all == scored_views(sorted@),
            best == all.take(offered as int),
            views(out@) == with_new(start, best.take(i as int)),
        decreases offered - i,
    {
        let ghost before = out@;
        proof {
            assert(best.take(i + 1).drop_last() =~= best.take(i as int));
            assert(best.take(i + 1).last() == all[i as int]);
            assert(all[i as int].1 == sorted@[i as int].1@);
        }
        if !is_known(&out, sorted[i].1.as_str()) {
            let exe = sorted[i].1.clone();
            out.push(exe);
            assert(views(out@) =~= views(before).push(exe@));
        }
        i += 1;
    }
    assert(best.take(offered as int) =~= best);
    out
}

/// The candidates for a game: the guesses from its project name, then its best
/// launch options.
pub open spec fn launch_candidates(app: JsonView, config: JsonView) -> Seq<Seq<char>> {
    let guesses = project_guesses(project_name(app));
    match config.get_object("launch"@) {
        Some(entries) => with_new(
            guesses,
            best_options(scored_options(sorted_by_key(placed_options(entries)))),
        ),
        None => guesses,
    }
}

/// Lists the candidates for a game, best first.
pub fn find_candidates(app: &Json, config: &Json) -> (r: Vec<String>)
    ensures
        views(r@) == launch_candidates(app@, config@),
{
    let project = find_project_name(app);
    let guesses = guess_from_project(&project);
    match config.get_object("launch") {
        Some(entries) => {
            let options = read_options(entries);
            proof {
                sort_commutes_with_map(options@, |o: LaunchOption| o@);
            }
            let scored = score_options(sort_by_key(options));
            add_best_options(guesses, scored)
        },
        None => guesses,
    }
}

/// The install directory and the candidates that a reply gives for an app, or
/// what is missing in it.
pub open spec fn launch_info(app_id: Seq<char>, reply: JsonView) -> Result<
    (Seq<char>, Seq<Seq<char>>),
    Seq<char>,
> {
    let app = match reply.get("data"@) {
        Some(data) => data.get(app_id),
        None => None,
    };
    if app is None {
        Err("SteamCMD has no info for this app id"@)
    } else if app->0.get("config"@) is None {
        Err("SteamCMD info is missing a 'config' section for this app"@)
    } else if app->0.get("config"@)->0.get_text("installdir"@) is None {
        Err("SteamCMD info is missing an installdir for this app"@)
    } else {
        let config = app->0.get("config"@)->0;
        let candidates = launch_candidates(app->0, config);
        if candidates.len() == 0 {
            Err("Could not find a usable launch executable for this app"@)
        } else {
            Ok((config.get_text("installdir"@)->0, candidates))
        }
    }
}

/// The install directory and the candidates in a result.
pub open spec fn info_view(info: Result<(String, Vec<String>), String>) -> Result<
    (Seq<char>, Seq<Seq<char>>),
    Seq<char>,
> {
    match info {
        Ok((installdir, candidates)) => Ok((installdir@, views(candidates@))),
        Err(error) => Err(error@),
    }
}

/// Reads the install directory of an app and ranked candidates for its Windows
/// executable from a reply.
pub fn read_launch_info(app_id: &str, reply: &Json) -> (r: Result<(String, Vec<String>), String>)
    ensures
        info_view(r) == launch_info(app_id@, reply@),
{
    let app = match reply.get("data") {
        Some(data) => match data.get(app_id) {
            Some(app) => app,
            None => {
                return Err("SteamCMD has no info for this app id".to_owned());
            },
        },
        None => {
            return Err("SteamCMD has no info for this app id".to_owned());
        },
    };
    let config = match app.get("config") {
        Some(config) => config,
        None => {
            return Err("SteamCMD info is missing a 'config' section for this app".to_owned());
        },
    };
    let installdir = match config.get_text("installdir") {
        Some(dir) => dir.to_owned(),
        None => {
            return Err("SteamCMD info is missing an installdir for this app".to_owned());
        },
    };
    let candidates = find_candidates(app, config);
    assert(views(candidates@).len() == candidates@.len());
    if candidates.len() == 0 {
        return Err("Could not find a usable launch executable for this app".to_owned());
    }
    Ok((installdir, candidates))
}

// What holds of every list of candidates.

/// The best options are the best: they ascend in score, there are at most
/// `OFFERED_OPTIONS`, and no option that is left out has a lower score than one
/// that is offered.
pub proof fn best_options_are_best(scored: Seq<(u32, Seq<char>)>)
    ensures
        keys_ascend(best_options(scored)),
        best_options(scored).len() == if scored.len() <= OFFERED_OPTIONS {
            scored.len()
        } else {
            OFFERED_OPTIONS as nat
        },
        exists|rest: Seq<(u32, Seq<char>)>|
            {
                &&& (#[trigger] (best_options(scored) + rest)).to_multiset() == scored.to_multiset()
                &&& forall|i: int, k: int|
                    0 <= i < best_options(scored).len() && 0 <= k < rest.len() ==> best_options(
                        scored,
                    )[i].0 <= rest[k].0
            },
{
    sort_is_stable(scored);
    let sorted = sorted_by_key(scored);
    let best = best_options(scored);
    let rest = sorted.skip(best.len() as int);
    assert(best + rest =~= sorted);
}

/// Whether no two names are equal when the case of ASCII letters is left aside.
pub open spec fn all_distinct(names: Seq<Seq<char>>) -> bool {
    forall|i: int, j: int|
        0 <= i < j < names.len() ==> !same_ignoring_ascii_case(
            #[trigger] names[i],
            #[trigger] names[j],
        )
}

proof fn lemma_with_new(candidates: Seq<Seq<char>>, options: Seq<(u32, Seq<char>)>)
    requires
        all_distinct(candidates),
    ensures
        all_distinct(with_new(candidates, options)),
        candidates.len() <= with_new(candidates, options).len() <= candidates.len()
            + options.len(),
        with_new(candidates, options).take(candidates.len() as int) == candidates,
        forall|i: int|
            candidates.len() <= i < with_new(candidates, options).len() ==> exists|k: int|
                0 <= k < options.len() && (#[trigger] options[k]).1 == #[trigger] with_new(
                    candidates,
                    options,
                )[i],
    decreases options.len(),
{
    let result = with_new(candidates, options);
    if options.len() == 0 {
        assert(result.take(candidates.len() as int) =~= candidates);
    } else {
        let rest = options.drop_last();
        let before = with_new(candidates, rest);
        lemma_with_new(candidates, rest);
        assert(result.take(candidates.len() as int) =~= before.take(candidates.len() as int));
        assert forall|i: int| candidates.len() <= i < result.len() implies exists|k: int|
            0 <= k < options.len() && (#[trigger] options[k]).1 == #[trigger] result[i] by {
            if i < before.len() {
                let k = choose|k: int|
                    0 <= k < rest.len() && (#[trigger] rest[k]).1 == #[trigger] before[i];
                assert(options[k].1 == result[i]);
            } else {
                assert(options[options.len() - 1].1 == result[i]);
            }
        }
    }
}

proof fn lemma_guesses_distinct(project: Option<Seq<char>>)
    ensures
        all_distinct(project_guesses(project)),
        project_guesses(project).len() <= 3,
{
    reveal_strlit("win64/");
    reveal_strlit("Binaries/Win64/");
    reveal_strlit("/Binaries/Win64/");
    reveal_strlit("-Win64-Shipping.exe");
    if project is Some {
        let guesses = engine_guesses(project->0);
        assert(guesses[0].len() < guesses[1].len());
        assert(guesses[1].len() < guesses[2].len());
    }
}

/// No candidate is offered twice: no two are equal, even when the case of ASCII
/// letters is left aside.
pub proof fn candidates_are_distinct(app: JsonView, config: JsonView)
    ensures
        all_distinct(launch_candidates(app, config)),
{
    lemma_guesses_distinct(project_name(app));
    if let Some(entries) = config.get_object("launch"@) {
        lemma_with_new(
            project_guesses(project_name(app)),
            best_options(scored_options(sorted_by_key(placed_options(entries)))),
        );
    }
}

/// The guesses from the project name come first, in their order, and at most
/// `OFFERED_OPTIONS` launch options follow.
pub proof fn guesses_come_first(app: JsonView, config: JsonView)
    ensures
        ({
            let guesses = project_guesses(project_name(app));
            let all = launch_candidates(app, config);
            &&& guesses.len() <= all.len() <= guesses.len() + OFFERED_OPTIONS
            &&& all.take(guesses.len() as int) == guesses
        }),
{
    let guesses = project_guesses(project_name(app));
    lemma_guesses_distinct(project_name(app));
    if let Some(entries) = config.get_object("launch"@) {
        let scored = scored_options(sorted_by_key(placed_options(entries)));
        best_options_are_best(scored);
        lemma_with_new(guesses, best_options(scored));
    } else {
        assert(guesses.take(guesses.len() as int) =~= guesses);
    }
}

proof fn lemma_scored_from_options(options: Seq<(u32, LaunchOptionView)>, i: int)
    requires
        0 <= i < scored_options(options).len(),
    ensures
        exists|k: int|
            0 <= k < options.len() && option_score((#[trigger] options[k]).1) == Some(
                scored_options(options)[i],
            ),
    decreases options.len(),
{
    let rest = options.drop_last();
    let before = scored_options(rest);
    if i < before.len() {
        lemma_scored_from_options(rest, i);
        let k = choose|k: int|
            0 <= k < rest.len() && option_score((#[trigger] rest[k]).1) == Some(before[i]);
        assert(options[k] == rest[k]);
    } else {
        assert(option_score(options[options.len() - 1].1) == Some(scored_options(options)[i]));
    }
}

/// Whether entry `k` is a launch option for Windows that names an executable.
pub open spec fn launches_at(
    entries: Seq<(Seq<char>, JsonView)>,
    k: int,
    exe: Seq<char>,
) -> bool {
    &&& 0 <= k < entries.len()
    &&& option_of(entries[k].1).executable == Some(exe)
    &&& windows_compatible(option_of(entries[k].1).oslist)
}

/// A candidate that is no guess from the project name is the executable of a
/// launch option that is for Windows.
pub proof fn other_candidates_are_launch_options(app: JsonView, config: JsonView, i: int)
    requires
        project_guesses(project_name(app)).len() <= i < launch_candidates(app, config).len(),
    ensures
        config.get_object("launch"@) is Some,
        exists|k: int|
            launches_at(config.get_object("launch"@)->0, k, launch_candidates(app, config)[i]),
{
    let guesses = project_guesses(project_name(app));
    lemma_guesses_distinct(project_name(app));
    let entries = config.get_object("launch"@)->0;
    let placed = placed_options(entries);
    let options = sorted_by_key(placed);
    let scored = scored_options(options);
    let best = best_options(scored);
    let exe = launch_candidates(app, config)[i];
    lemma_with_new(guesses, best);
    let b = choose|b: int|
        0 <= b < best.len() && (#[trigger] best[b]).1 == #[trigger] with_new(guesses, best)[i];
    sort_is_stable(scored);
    lemma_sorted_from_items(scored, b);
    let s = choose|s: int| 0 <= s < scored.len() && #[trigger] scored[s] == sorted_by_key(scored)[b];
    lemma_scored_from_options(options, s);
    let o = choose|o: int|
        0 <= o < options.len() && option_score((#[trigger] options[o]).1) == Some(scored[s]);
    sort_is_stable(placed);
    lemma_sorted_from_items(placed, o);
    let k = choose|k: int| 0 <= k < placed.len() && #[trigger] placed[k] == options[o];
    assert(option_of(entries[k].1) == options[o].1);
    assert(launches_at(entries, k, exe));
}

/// Whether an entry of the launch options is one for Windows that names an
/// executable.
pub open spec fn launches(entry: (Seq<char>, JsonView)) -> bool {
    option_score(option_of(entry.1)) is Some
}

/// The score of an entry of the launch options.
pub open spec fn entry_score(entry: (Seq<char>, JsonView)) -> u32 {
    (option_score(option_of(entry.1))->0).0
}

/// The executable that an entry of the launch options names.
pub open spec fn entry_executable(entry: (Seq<char>, JsonView)) -> Seq<char> {
    option_of(entry.1).executable->0
}

/// Whether an entry ranks no worse than another: its score is lower, or the
/// scores are equal and its number is not greater.
pub open spec fn ranks_no_worse(
    entry: (Seq<char>, JsonView),
    other: (Seq<char>, JsonView),
) -> bool {
    entry_score(entry) < entry_score(other) || (entry_score(entry) == entry_score(other)
        && option_place(entry.0) <= option_place(other.0))
}

spec fn option_at(entries: Seq<(Seq<char>, JsonView)>) -> spec_fn(int) -> LaunchOptionView {
    |k: int| option_of(entries[k].1)
}

spec fn executable_at(entries: Seq<(Seq<char>, JsonView)>) -> spec_fn(int) -> Seq<char> {
    |k: int| entry_executable(entries[k])
}

spec fn place_at(entries: Seq<(Seq<char>, JsonView)>) -> spec_fn(int) -> u32 {
    |k: int| option_place(entries[k].0)
}

/// The entries with their numbers, by their indices.
spec fn placed_indices(entries: Seq<(Seq<char>, JsonView)>) -> Seq<(u32, int)> {
    Seq::new(entries.len(), |k: int| (option_place(entries[k].0), k))
}

/// The entries that launch, with their scores, by their indices.
spec fn scored_indices(entries: Seq<(Seq<char>, JsonView)>, order: Seq<(u32, int)>) -> Seq<
    (u32, int),
>
    decreases order.len(),
{
    if order.len() == 0 {
        Seq::empty()
    } else {
        let before = scored_indices(entries, order.drop_last());
        let k = order.last().1;
        if launches(entries[k]) {
            before.push((entry_score(entries[k]), k))
        } else {
            before
        }
    }
}

/// Whether a list of indices holds entries with their numbers, in the order of
/// these, and none twice.
spec fn in_place(entries: Seq<(Seq<char>, JsonView)>, order: Seq<(u32, int)>) -> bool {
    &&& forall|i: int|
        0 <= i < order.len() ==> 0 <= (#[trigger] order[i]).1 < entries.len() && order[i].0
            == option_place(entries[order[i].1].0)
    &&& forall|i: int, j: int|
        0 <= i < j < order.len() ==> (#[trigger] order[i]).1 != (#[trigger] order[j]).1
            && order[i].0 <= order[j].0
}

/// Whether a list of indices holds entries that launch with their scores, and
/// none twice.
spec fn scored_once(entries: Seq<(Seq<char>, JsonView)>, scored: Seq<(u32, int)>) -> bool {
    &&& forall|i: int|
        0 <= i < scored.len() ==> 0 <= (#[trigger] scored[i]).1 < entries.len() && launches(
            entries[scored[i].1],
        ) && scored[i].0 == entry_score(entries[scored[i].1])
    &&& forall|i: int, j: int|
        0 <= i < j < scored.len() ==> (#[trigger] scored[i]).1 != (#[trigger] scored[j]).1
}

/// Going by indices or by the options themselves comes to the same.
proof fn lemma_scored_executables(entries: Seq<(Seq<char>, JsonView)>, order: Seq<(u32, int)>)
    ensures
        map_items(scored_indices(entries, order), executable_at(entries)) == scored_options(
            map_items(order, option_at(entries)),
        ),
    decreases order.len(),
{
    let result = scored_indices(entries, order);
    let options = map_items(order, option_at(entries));
    if order.len() == 0 {
        assert(map_items(result, executable_at(entries)) =~= scored_options(options));
    } else {
        let rest = order.drop_last();
        let before = scored_indices(entries, rest);
        let last = entries[order.last().1];
        lemma_scored_executables(entries, rest);
        assert(options.drop_last() =~= map_items(rest, option_at(entries)));
        if launches(last) {
            assert(map_items(result, executable_at(entries)) =~= map_items(
                before,
                executable_at(entries),
            ).push((entry_score(last), entry_executable(last))));
        }
    }
}

/// Only entries of the given list are scored, each once and in its order.
proof fn lemma_scored_in_place(entries: Seq<(Seq<char>, JsonView)>, order: Seq<(u32, int)>)
    requires
        in_place(entries, order),
    ensures
        scored_once(entries, scored_indices(entries, order)),
        forall|i: int|
            0 <= i < scored_indices(entries, order).len() ==> exists|m: int|
                0 <= m < order.len() && (#[trigger] order[m]).1 == (
                #[trigger] scored_indices(entries, order)[i]).1,
        forall|i: int, j: int|
            0 <= i <= j < scored_indices(entries, order).len() ==> place_at(entries)(
                (#[trigger] scored_indices(entries, order)[i]).1,
            ) <= place_at(entries)((#[trigger] scored_indices(entries, order)[j]).1),
    decreases order.len(),
{
    let result = scored_indices(entries, order);
    if order.len() > 0 {
        let rest = order.drop_last();
        let before = scored_indices(entries, rest);
        let last = order[order.len() - 1];
        assert(in_place(entries, rest)) by {
            assert forall|i: int| 0 <= i < rest.len() implies 0 <= (#[trigger] rest[i]).1
                < entries.len() && rest[i].0 == option_place(entries[rest[i].1].0) by {
                assert(rest[i] == order[i]);
            }
        }
        lemma_scored_in_place(entries, rest);
        assert forall|i: int| 0 <= i < before.len() implies (#[trigger] before[i]).1 != last.1
            && place_at(entries)(before[i].1) <= last.0 by {
            let m = choose|m: int|
                0 <= m < rest.len() && (#[trigger] rest[m]).1 == (#[trigger] before[i]).1;
            assert(rest[m] == order[m]);
        }
        assert forall|i: int| 0 <= i < result.len() implies exists|m: int|
            0 <= m < order.len() && (#[trigger] order[m]).1 == (#[trigger] result[i]).1 by {
            if i < before.len() {
                assert(result[i] == before[i]);
                let m = choose|m: int|
                    0 <= m < rest.len() && (#[trigger] rest[m]).1 == (#[trigger] before[i]).1;
                assert(order[m].1 == result[i].1);
            } else {
                assert(order[order.len() - 1].1 == result[i].1);
            }
        }
        assert forall|i: int, j: int| 0 <= i <= j < result.len() implies place_at(entries)(
            (#[trigger] result[i]).1,
        ) <= place_at(entries)((#[trigger] result[j]).1) by {
            if j < before.len() {
                assert(result[i] == before[i] && result[j] == before[j]);
            } else if i < before.len() {
                assert(result[i] == before[i]);
            }
        }
    }
}

/// Every entry of the given list that launches is scored.
proof fn lemma_scored_all(
    entries: Seq<(Seq<char>, JsonView)>,
    order: Seq<(u32, int)>,
    m: int,
)
    requires
        0 <= m < order.len(),
        launches(entries[order[m].1]),
    ensures
        exists|i: int|
            0 <= i < scored_indices(entries, order).len() && (
            #[trigger] scored_indices(entries, order)[i]).1 == order[m].1,
    decreases order.len(),
{
    let result = scored_indices(entries, order);
    let rest = order.drop_last();
    let before = scored_indices(entries, rest);
    if m < rest.len() {
        assert(rest[m] == order[m]);
        lemma_scored_all(entries, rest, m);
        let i = choose|i: int| 0 <= i < before.len() && (#[trigger] before[i]).1 == rest[m].1;
        assert(result[i] == before[i]);
    } else {
        assert(result[before.len() as int].1 == order[m].1);
    }
}

/// The entries that launch in the order of their scores, and of their numbers
/// among equal scores, by their indices.
proof fn lemma_ranked_indices(entries: Seq<(Seq<char>, JsonView)>) -> (ranked: Seq<(u32, int)>)
    ensures
        sorted_by_key(scored_options(sorted_by_key(placed_options(entries)))) == map_items(
            ranked,
            executable_at(entries),
        ),
        scored_once(entries, ranked),
        ties_ascend(ranked, place_at(entries)),
        forall|k: int|
            0 <= k < entries.len() && launches(#[trigger] entries[k]) ==> exists|i: int|
                0 <= i < ranked.len() && (#[trigger] ranked[i]).1 == k,
{
    let placed = placed_indices(entries);
    let order = sorted_by_key(placed);
    assert(map_items(placed, option_at(entries)) =~= placed_options(entries));
    sort_commutes_with_map(placed, option_at(entries));
    sort_is_stable(placed);
    lemma_sort_permutes(placed);
    assert(placed.no_duplicates());
    assert(in_place(entries, order)) by {
        assert forall|i: int| 0 <= i < order.len() implies 0 <= (#[trigger] order[i]).1
            < entries.len() && order[i].0 == option_place(entries[order[i].1].0) by {
            lemma_sorted_from_items(placed, i);
            let k = choose|k: int| 0 <= k < placed.len() && #[trigger] placed[k] == order[i];
        }
        assert forall|i: int, j: int| 0 <= i < j < order.len() implies (#[trigger] order[i]).1 != (
        #[trigger] order[j]).1 && order[i].0 <= order[j].0 by {
            assert(order[i] != order[j]);
        }
    }
    let scored = scored_indices(entries, order);
    lemma_scored_executables(entries, order);
    lemma_scored_in_place(entries, order);
    let ranked = sorted_by_key(scored);
    sort_commutes_with_map(scored, executable_at(entries));
    lemma_sort_breaks_ties(scored, place_at(entries));
    sort_is_stable(scored);
    lemma_sort_permutes(scored);
    assert(scored.no_duplicates());
    assert(scored_once(entries, ranked)) by {
        assert forall|i: int| 0 <= i < ranked.len() implies 0 <= (#[trigger] ranked[i]).1
            < entries.len() && launches(entries[ranked[i].1]) && ranked[i].0 == entry_score(
            entries[ranked[i].1],
        ) by {
            lemma_sorted_from_items(scored, i);
            let k = choose|k: int| 0 <= k < scored.len() && #[trigger] scored[k] == ranked[i];
        }
        assert forall|i: int, j: int| 0 <= i < j < ranked.len() implies (#[trigger] ranked[i]).1
            != (#[trigger] ranked[j]).1 by {
            assert(ranked[i] != ranked[j]);
        }
    }
    assert forall|k: int| 0 <= k < entries.len() && launches(#[trigger] entries[k]) implies exists|
        i: int,
    | 0 <= i < ranked.len() && (#[trigger] ranked[i]).1 == k by {
        assert(order.contains(placed[k]));
        let m = choose|m: int| 0 <= m < order.len() && order[m] == placed[k];
        lemma_scored_all(entries, order, m);
        let s = choose|s: int| 0 <= s < scored.len() && (#[trigger] scored[s]).1 == order[m].1;
        assert(ranked.contains(scored[s]));
        let i = choose|i: int| 0 <= i < ranked.len() && ranked[i] == scored[s];
        assert(ranked[i].1 == k);
    }
    ranked
}

/// The candidates that are added stand in the order of the options, whose names
/// are all known afterwards.
proof fn lemma_added_in_order(
    candidates: Seq<Seq<char>>,
    options: Seq<(u32, Seq<char>)>,
) -> (places: Seq<int>)
    ensures
        candidates.len() + places.len() == with_new(candidates, options).len(),
        forall|i: int|
            0 <= i < places.len() ==> 0 <= #[trigger] places[i] < options.len()
                && options[places[i]].1 == with_new(candidates, options)[candidates.len() + i],
        forall|i: int, j: int|
            0 <= i < j < places.len() ==> #[trigger] places[i] < #[trigger] places[j],
        forall|k: int|
            0 <= k < options.len() ==> known(
                with_new(candidates, options),
                (#[trigger] options[k]).1,
            ),
    decreases options.len(),
{
    if options.len() == 0 {
        Seq::empty()
    } else {
        let rest = options.drop_last();
        let before = with_new(candidates, rest);
        let result = with_new(candidates, options);
        let last = options[options.len() - 1].1;
        let places = lemma_added_in_order(candidates, rest);
        let all = if known(before, last) {
            places
        } else {
            places.push(options.len() - 1)
        };
        if !known(before, last) {
            assert(result[before.len() as int] == last);
            assert(same_ignoring_ascii_case(result[before.len() as int], last));
        }
        assert forall|k: int| 0 <= k < options.len() implies known(
            result,
            (#[trigger] options[k]).1,
        ) by {
            if k < rest.len() {
                assert(rest[k] == options[k]);
                let c = choose|c: int|
                    0 <= c < before.len() && same_ignoring_ascii_case(
                        #[trigger] before[c],
                        rest[k].1,
                    );
                assert(result[c] == before[c]);
            }
        }
        assert forall|i: int| 0 <= i < all.len() implies 0 <= #[trigger] all[i] < options.len()
            && options[all[i]].1 == result[candidates.len() + i] by {
            if i < places.len() {
                assert(all[i] == places[i]);
                assert(options[places[i]] == rest[places[i]]);
            }
        }
        all
    }
}

/// Whether some names are the executables of launch options for Windows, each
/// of which ranks no worse than those behind it. `order` gives the options.
pub open spec fn ranked_by(
    entries: Seq<(Seq<char>, JsonView)>,
    order: Seq<int>,
    names: Seq<Seq<char>>,
) -> bool {
    &&& order.len() == names.len()
    &&& forall|i: int| 0 <= i < names.len() ==> launches_at(entries, #[trigger] order[i], names[i])
    &&& forall|i: int, j: int|
        0 <= i <= j < names.len() ==> ranks_no_worse(
            entries[#[trigger] order[i]],
            entries[#[trigger] order[j]],
        )
}

/// The candidates are ranked, best first: behind the guesses from the project
/// name stand executables of launch options that ascend by score and, where
/// scores are equal, by the numbers of the options.
pub proof fn candidates_are_ranked(app: JsonView, config: JsonView)
    ensures
        ({
            let guesses = project_guesses(project_name(app));
            let others = launch_candidates(app, config).skip(guesses.len() as int);
            match config.get_object("launch"@) {
                Some(entries) => exists|order: Seq<int>| ranked_by(entries, order, others),
                None => others.len() == 0,
            }
        }),
{
    let guesses = project_guesses(project_name(app));
    let others = launch_candidates(app, config).skip(guesses.len() as int);
    guesses_come_first(app, config);
    if let Some(entries) = config.get_object("launch"@) {
        let ranked = lemma_ranked_indices(entries);
        let best = best_options(scored_options(sorted_by_key(placed_options(entries))));
        let places = lemma_added_in_order(guesses, best);
        let order = Seq::new(places.len(), |i: int| ranked[places[i]].1);
        assert forall|i: int| 0 <= i < others.len() implies launches_at(
            entries,
            #[trigger] order[i],
            others[i],
        ) by {
            assert(0 <= places[i] < best.len());
            assert(best[places[i]].1 == entry_executable(entries[ranked[places[i]].1]));
            assert(launches(entries[ranked[places[i]].1]));
        }
        assert forall|i: int, j: int| 0 <= i <= j < others.len() implies ranks_no_worse(
            entries[#[trigger] order[i]],
            entries[#[trigger] order[j]],
        ) by {
            assert(0 <= places[i] <= places[j] < best.len());
            let a = ranked[places[i]];
            let b = ranked[places[j]];
            assert(a.0 < b.0 || (a.0 == b.0 && place_at(entries)(a.1) <= place_at(entries)(b.1)));
        }
        assert(ranked_by(entries, order, others));
    }
}

/// Whether some launch options for Windows, none of them named twice, are
/// others than option `k` and rank no worse.
pub open spec fn outrank(
    entries: Seq<(Seq<char>, JsonView)>,
    better: Seq<int>,
    k: int,
) -> bool {
    &&& better.no_duplicates()
    &&& forall|i: int|
        0 <= i < better.len() ==> {
            &&& 0 <= #[trigger] better[i] < entries.len()
            &&& better[i] != k
            &&& launches(entries[better[i]])
            &&& ranks_no_worse(entries[better[i]], entries[k])
        }
}

/// A launch option for Windows whose executable is not among the candidates is
/// left out only for `OFFERED_OPTIONS` others that rank no worse.
#[verifier::spinoff_prover]
pub proof fn left_out_options_are_outranked(app: JsonView, config: JsonView, k: int)
    requires
        config.get_object("launch"@) is Some,
        0 <= k < config.get_object("launch"@)->0.len(),
        launches(config.get_object("launch"@)->0[k]),
        !known(
            launch_candidates(app, config),
            entry_executable(config.get_object("launch"@)->0[k]),
        ),
    ensures
        exists|better: Seq<int>|
            better.len() == OFFERED_OPTIONS && outrank(
                config.get_object("launch"@)->0,
                better,
                k,
            ),
{
    let entries = config.get_object("launch"@)->0;
    let guesses = project_guesses(project_name(app));
    let scored = scored_options(sorted_by_key(placed_options(entries)));
    let best = best_options(scored);
    let ranked = lemma_ranked_indices(entries);
    let places = lemma_added_in_order(guesses, best);
    sort_is_stable(scored);
    assert(launches(entries[k]));
    let at = choose|i: int| 0 <= i < ranked.len() && (#[trigger] ranked[i]).1 == k;
    assert(ranked.len() == scored.len());
    if at < best.len() {
        assert(best[at].1 == entry_executable(entries[k]));
        assert(known(launch_candidates(app, config), best[at].1));
    }
    assert(best.len() == OFFERED_OPTIONS && OFFERED_OPTIONS <= at);
    let better = Seq::new(OFFERED_OPTIONS as nat, |i: int| ranked[i].1);
    assert forall|i: int| 0 <= i < better.len() implies {
        &&& 0 <= #[trigger] better[i] < entries.len()
        &&& better[i] != k
        &&& launches(entries[better[i]])
        &&& ranks_no_worse(entries[better[i]], entries[k])
    } by {
        let a = ranked[i];
        let b = ranked[at];
        assert(a.0 < b.0 || (a.0 == b.0 && place_at(entries)(a.1) <= place_at(entries)(b.1)));
    }
    assert(better.no_duplicates());
    assert(outrank(entries, better, k));
}

/// A reply that is accepted offers at least one candidate.
pub proof fn accepted_reply_has_candidates(app_id: Seq<char>, reply: JsonView)
    ensures
        launch_info(app_id, reply) matches Ok(info) ==> info.1.len() > 0,
{
}

// What the parts of a reply come to, told by the texts that they hold.

/// A save path names a project exactly when it is the name, which holds no slash,
/// a slash, and something that is `saved` in any case of its letters, or whose
/// lowercase form is `saved/` and something else.
pub open spec fn saved_below(path: Seq<char>, project: Seq<char>, rest: Seq<char>) -> bool {
    &&& path == project.push('/') + rest
    &&& !project.contains('/')
    &&& {
        ||| exists|inner: Seq<char>|
            made_of(lowercase(rest), Seq::empty(), "saved/"@, inner)
        ||| same_ignoring_ascii_case(rest, "saved"@)
    }
}

proof fn lemma_first_separator_is_unique(
    a: Seq<char>,
    b: Seq<char>,
    c: Seq<char>,
    d: Seq<char>,
    sep: char,
)
    requires
        a.push(sep) + b == c.push(sep) + d,
        !a.contains(sep),
        !c.contains(sep),
    ensures
        a == c,
        b == d,
{
    let s = a.push(sep) + b;
    assert(s[a.len() as int] == sep);
    assert(s[c.len() as int] == sep) by {
        assert((c.push(sep) + d)[c.len() as int] == sep);
    }
    if a.len() < c.len() {
        assert((c.push(sep) + d)[a.len() as int] == c[a.len() as int]);
        assert(c.contains(sep));
    }
    if c.len() < a.len() {
        assert(s[c.len() as int] == a[c.len() as int]);
        assert(a.contains(sep));
    }
    assert forall|i: int| 0 <= i < a.len() implies a[i] == c[i] by {
        assert(s[i] == a[i]);
        assert((c.push(sep) + d)[i] == c[i]);
    }
    assert(a =~= c);
    assert(b =~= s.skip(a.len() as int + 1));
    assert(d =~= (c.push(sep) + d).skip(c.len() as int + 1));
}

/// A save path gives a project name exactly when it is that name with the
/// `Saved` folder, or something in it, behind it.
pub proof fn project_stands_before_the_saved_folder(path: Seq<char>, project: Seq<char>)
    ensures
        save_project(path) == Some(project) <==> exists|rest: Seq<char>|
            saved_below(path, project, rest),
{
    cut_is_at_the_first_separator(path, '/');
    if let Some((before, after)) = cut_at_first(path, '/') {
        substring_is_a_part(lowercase(after), "saved/"@);
        if save_project(path) == Some(project) {
            assert(saved_below(path, project, after));
        }
        assert forall|rest: Seq<char>| saved_below(path, project, rest) implies project == before
            && rest == after by {
            lemma_first_separator_is_unique(project, rest, before, after, '/');
        }
    } else {
        assert forall|rest: Seq<char>| !saved_below(path, project, rest) by {
            if path == project.push('/') + rest {
                assert(path[project.len() as int] == '/');
                assert(path.contains('/'));
            }
        }
    }
}

/// The first entry of the save files that names a project counts, and no project
/// is found only when no entry names one.
pub proof fn first_named_project_counts(entries: Seq<(Seq<char>, JsonView)>)
    ensures
        match first_project(entries) {
            Some(project) => exists|i: int|
                {
                    &&& 0 <= i < entries.len()
                    &&& entry_project((#[trigger] entries[i]).1) == Some(project)
                    &&& forall|j: int|
                        0 <= j < i ==> entry_project((#[trigger] entries[j]).1) is None
                },
            None => forall|i: int|
                0 <= i < entries.len() ==> entry_project((#[trigger] entries[i]).1) is None,
        },
    decreases entries.len(),
{
    if entries.len() > 0 {
        let rest = entries.drop_first();
        first_named_project_counts(rest);
        if entry_project(entries[0].1) is None {
            assert forall|i: int| 1 <= i < entries.len() implies #[trigger] entries[i] == rest[i
                - 1] by {
            }
            if let Some(project) = first_project(rest) {
                let i = choose|i: int|
                    {
                        &&& 0 <= i < rest.len()
                        &&& entry_project((#[trigger] rest[i]).1) == Some(project)
                        &&& forall|j: int|
                            0 <= j < i ==> entry_project((#[trigger] rest[j]).1) is None
                    };
                assert(entry_project(entries[i + 1].1) == Some(project));
            }
        }
    }
}

proof fn lemma_folder_names()
    ensures
        plain_name("win64"@) && "win64"@.len() > 0,
        plain_name("Binaries"@) && "Binaries"@.len() > 0,
        plain_name("Win64"@) && "Win64"@.len() > 0,
        "win64/"@ == "win64"@.push('/'),
        "Binaries/Win64/"@ == ("Binaries"@.push('/') + "Win64"@).push('/'),
        "/Binaries/Win64/"@ == seq!['/'] + "Binaries/Win64/"@,
{
    reveal_strlit("win64/");
    reveal_strlit("Binaries/Win64/");
    reveal_strlit("/Binaries/Win64/");
    reveal_strlit("win64");
    reveal_strlit("Binaries");
    reveal_strlit("Win64");
    assert("win64/"@ =~= "win64"@.push('/'));
    assert("Binaries/Win64/"@ =~= ("Binaries"@.push('/') + "Win64"@).push('/'));
    assert("/Binaries/Win64/"@ =~= seq!['/'] + "Binaries/Win64/"@);
}

proof fn lemma_binary_name(project: Seq<char>)
    requires
        plain_name(project),
    ensures
        plain_name(project + "-Win64-Shipping.exe"@),
{
    let end = "-Win64-Shipping.exe"@;
    let binary = project + end;
    reveal_strlit("-Win64-Shipping.exe");
    assert forall|i: int| 0 <= i < binary.len() implies binary[i] != '/' && binary[i] != '\\' by {
        if i < project.len() {
            assert(project.contains(project[i]));
        } else {
            assert(binary[i] == end[i - project.len()]);
        }
    }
}

proof fn lemma_flat_layout(binary: Seq<char>)
    requires
        plain_name(binary),
    ensures
        path_folders("win64/"@ + binary) == seq!["win64"@],
        path_file("win64/"@ + binary) == binary,
{
    lemma_folder_names();
    let one = seq!["win64"@];
    let names = one.push(binary);
    lemma_join_one_more(one, binary, '/');
    assert(joined_by(names, '/') =~= "win64/"@ + binary);
    path_names_come_back(names);
    assert(names.drop_last() =~= one);
}

proof fn lemma_capitalized_layout(binary: Seq<char>)
    requires
        plain_name(binary),
    ensures
        path_folders("Binaries/Win64/"@ + binary) == seq!["Binaries"@, "Win64"@],
        path_file("Binaries/Win64/"@ + binary) == binary,
{
    lemma_folder_names();
    let one = seq!["Binaries"@];
    let two = one.push("Win64"@);
    let names = two.push(binary);
    lemma_join_one_more(one, "Win64"@, '/');
    lemma_join_one_more(two, binary, '/');
    assert(joined_by(names, '/') =~= "Binaries/Win64/"@ + binary);
    path_names_come_back(names);
    assert(names.drop_last() =~= two);
    assert(two =~= seq!["Binaries"@, "Win64"@]);
}

proof fn lemma_packaged_layout(project: Seq<char>, binary: Seq<char>)
    requires
        plain_name(project),
        plain_name(binary),
    ensures
        project.len() > 0 ==> path_folders(project + "/Binaries/Win64/"@ + binary) == seq![
            project,
            "Binaries"@,
            "Win64"@,
        ],
        path_file(project + "/Binaries/Win64/"@ + binary) == binary,
{
    lemma_folder_names();
    let path = project + "/Binaries/Win64/"@ + binary;
    if project.len() > 0 {
        let one = seq![project];
        let two = one.push("Binaries"@);
        let three = two.push("Win64"@);
        let names = three.push(binary);
        lemma_join_one_more(one, "Binaries"@, '/');
        lemma_join_one_more(two, "Win64"@, '/');
        lemma_join_one_more(three, binary, '/');
        assert(joined_by(names, '/') =~= path);
        path_names_come_back(names);
        assert(names.drop_last() =~= three);
        assert(three =~= seq![project, "Binaries"@, "Win64"@]);
    } else {
        let rest = "Binaries/Win64/"@ + binary;
        lemma_capitalized_layout(binary);
        empty_names_are_left_out(Seq::empty(), rest);
        assert(path =~= seq!['/'] + rest);
    }
}

/// Each guess ends in the binary of the project, in one of the usual folders:
/// `win64`, `Binaries/Win64`, or the latter in a folder of the project's name.
pub proof fn guesses_are_the_usual_layouts(project: Seq<char>)
    requires
        plain_name(project),
    ensures
        ({
            let guesses = project_guesses(Some(project));
            let binary = project + "-Win64-Shipping.exe"@;
            &&& guesses.len() == 3
            &&& forall|i: int| 0 <= i < 3 ==> path_file(#[trigger] guesses[i]) == binary
            &&& path_folders(guesses[0]) == seq!["win64"@]
            &&& path_folders(guesses[1]) == seq!["Binaries"@, "Win64"@]
            &&& project.len() > 0 ==> path_folders(guesses[2]) == seq![
                project,
                "Binaries"@,
                "Win64"@,
            ]
        }),
{
    let guesses = project_guesses(Some(project));
    let binary = project + "-Win64-Shipping.exe"@;
    lemma_binary_name(project);
    lemma_flat_layout(binary);
    lemma_capitalized_layout(binary);
    lemma_packaged_layout(project, binary);
    assert(guesses[0] =~= "win64/"@ + binary);
    assert(guesses[1] =~= "Binaries/Win64/"@ + binary);
    assert(guesses[2] =~= project + "/Binaries/Win64/"@ + binary);
}

/// Whether a list of systems is something, `windows` with white space around it,
/// and something else, with commas between them.
pub open spec fn lists_windows(
    list: Seq<char>,
    before: Seq<char>,
    left: Seq<char>,
    right: Seq<char>,
    after: Seq<char>,
) -> bool {
    &&& list == before + (left + "windows"@ + right) + after
    &&& blank(left)
    &&& blank(right)
    &&& before.len() > 0 ==> before.last() == ','
    &&& after.len() > 0 ==> after[0] == ','
}

proof fn lemma_piece_in_text(s: Seq<char>, sep: char, i: int) -> (around: (Seq<char>, Seq<char>))
    requires
        0 <= i < pieces(s, sep).len(),
    ensures
        s == around.0 + pieces(s, sep)[i] + around.1,
        around.0.len() > 0 ==> around.0.last() == sep,
        around.1.len() > 0 ==> around.1[0] == sep,
        around.1.len() > 0 <==> i < pieces(s, sep).len() - 1,
    decreases s.len(),
{
    let none = Seq::<char>::empty();
    if s.len() == 0 {
        assert(s =~= none + pieces(s, sep)[i] + none);
        (none, none)
    } else {
        let t = s.drop_last();
        let c = s.last();
        let before = pieces(t, sep);
        pieces_hold_no_separator(t, sep);
        assert(s =~= t.push(c));
        if c == sep {
            if i < before.len() {
                let (a, b) = lemma_piece_in_text(t, sep, i);
                assert(s =~= a + pieces(s, sep)[i] + b.push(c));
                (a, b.push(c))
            } else {
                assert(s =~= s + pieces(s, sep)[i] + none);
                (s, none)
            }
        } else {
            let (a, b) = lemma_piece_in_text(t, sep, i);
            if i < before.len() - 1 {
                assert(pieces(s, sep)[i] == before[i]);
                assert(s =~= a + pieces(s, sep)[i] + b.push(c));
                (a, b.push(c))
            } else {
                assert(pieces(s, sep)[i] == before.last().push(c));
                assert(s =~= a + pieces(s, sep)[i] + none);
                (a, none)
            }
        }
    }
}

proof fn lemma_text_has_piece(before: Seq<char>, piece: Seq<char>, after: Seq<char>, sep: char)
    requires
        !piece.contains(sep),
        before.len() > 0 ==> before.last() == sep,
        after.len() > 0 ==> after[0] == sep,
    ensures
        pieces(before + piece + after, sep).contains(piece),
{
    let s = before + piece + after;
    let tail = piece + after;
    lemma_one_piece(piece, sep);
    assert(pieces(tail, sep)[0] == piece) by {
        if after.len() > 0 {
            lemma_pieces_of_two(piece, after.drop_first(), sep);
            assert(tail =~= piece.push(sep) + after.drop_first());
        } else {
            assert(tail =~= piece);
        }
    }
    pieces_hold_no_separator(tail, sep);
    if before.len() > 0 {
        let head = before.drop_last();
        lemma_pieces_of_two(head, tail, sep);
        assert(s =~= head.push(sep) + tail);
        assert(pieces(s, sep)[pieces(head, sep).len() as int] == piece);
    } else {
        assert(s =~= tail);
    }
}

proof fn lemma_listed_windows(
    list: Seq<char>,
    before: Seq<char>,
    left: Seq<char>,
    right: Seq<char>,
    after: Seq<char>,
)
    requires
        lists_windows(list, before, left, right, after),
    ensures
        windows_compatible(Some(list)),
{
    let name = "windows"@;
    let piece = left + name + right;
    reveal_strlit("windows");
    assert forall|i: int| 0 <= i < piece.len() implies piece[i] != ',' by {
        if i < left.len() {
            assert(piece[i] == left[i]);
            assert(white_space(left[i]));
        } else if i < left.len() + name.len() {
            assert(piece[i] == name[i - left.len()]);
        } else {
            let k = i - left.len() - name.len();
            assert(piece[i] == right[k]);
            assert(white_space(right[k]));
        }
    }
    lemma_text_has_piece(before, piece, after, ',');
    trimming_undoes_padding(left, name, right);
    let given = Some(list);
    let i = choose|i: int|
        0 <= i < pieces(given->0, ',').len() && pieces(given->0, ',')[i] == piece;
    assert(trimmed(pieces(given->0, ',')[i]) == "windows"@);
}

/// A list of systems names Windows exactly when one of its items, between commas
/// and with white space around it, is `windows`. A missing list names all
/// systems.
pub proof fn windows_is_one_of_the_systems(list: Seq<char>)
    ensures
        windows_compatible(None),
        windows_compatible(Some(list)) <==> exists|
            before: Seq<char>,
            left: Seq<char>,
            right: Seq<char>,
            after: Seq<char>,
        | lists_windows(list, before, left, right, after),
{
    let name = "windows"@;
    reveal_strlit("windows");
    if windows_compatible(Some(list)) {
        let i = choose|i: int|
            0 <= i < pieces(list, ',').len() && trimmed(#[trigger] pieces(list, ',')[i]) == name;
        let piece = pieces(list, ',')[i];
        let (before, after) = lemma_piece_in_text(list, ',', i);
        trimming_takes_only_white_space(piece);
        let (left, right) = choose|left: Seq<char>, right: Seq<char>|
            blank(left) && blank(right) && #[trigger] made_of(piece, left, trimmed(piece), right);
        assert(lists_windows(list, before, left, right, after));
    }
    assert forall|before: Seq<char>, left: Seq<char>, right: Seq<char>, after: Seq<char>|
        lists_windows(list, before, left, right, after) implies windows_compatible(Some(list)) by {
        lemma_listed_windows(list, before, left, right, after);
    }
}

/// Whether a name in lowercase holds, anywhere, one of the words by which
/// anti-cheat bootstrappers are known.
pub open spec fn bootstrapper(lower: Seq<char>) -> bool {
    ||| mentions(lower, "protected_game"@)
    ||| mentions(lower, "anticheat"@)
    ||| mentions(lower, "battleye"@)
    ||| mentions(lower, "eos_launcher"@)
    ||| mentions(lower, "eaclauncher"@)
}

/// The rank of a build by the words that its name in lowercase holds anywhere.
pub open spec fn build_class(lower: Seq<char>) -> u8 {
    if mentions(lower, "shipping"@) {
        0
    } else if mentions(lower, "test"@) || mentions(lower, "debug"@) || mentions(lower, "dev"@) {
        2
    } else {
        1
    }
}

/// A name is that of an anti-cheat bootstrapper exactly when it holds one of the
/// five words, and the rank of a build goes by the words in its name, wherever
/// they stand.
pub proof fn names_are_judged_by_their_words(lower: Seq<char>)
    ensures
        anticheat_name(lower) <==> bootstrapper(lower),
        build_rank_of(lower) == build_class(lower),
{
    substring_is_a_part(lower, "protected_game"@);
    substring_is_a_part(lower, "anticheat"@);
    substring_is_a_part(lower, "battleye"@);
    substring_is_a_part(lower, "eos_launcher"@);
    substring_is_a_part(lower, "eaclauncher"@);
    substring_is_a_part(lower, "shipping"@);
    substring_is_a_part(lower, "test"@);
    substring_is_a_part(lower, "debug"@);
    substring_is_a_part(lower, "dev"@);
}

/// A bootstrapper is known by its word whatever stands around it.
pub proof fn bootstrappers_are_known_by_a_word(before: Seq<char>, after: Seq<char>)
    ensures
        anticheat_name(before + "protected_game"@ + after),
        anticheat_name(before + "anticheat"@ + after),
        anticheat_name(before + "battleye"@ + after),
        anticheat_name(before + "eos_launcher"@ + after),
        anticheat_name(before + "eaclauncher"@ + after),
{
    names_are_judged_by_their_words(before + "protected_game"@ + after);
    assert(made_of(before + "protected_game"@ + after, before, "protected_game"@, after));
    names_are_judged_by_their_words(before + "anticheat"@ + after);
    assert(made_of(before + "anticheat"@ + after, before, "anticheat"@, after));
    names_are_judged_by_their_words(before + "battleye"@ + after);
    assert(made_of(before + "battleye"@ + after, before, "battleye"@, after));
    names_are_judged_by_their_words(before + "eos_launcher"@ + after);
    assert(made_of(before + "eos_launcher"@ + after, before, "eos_launcher"@, after));
    names_are_judged_by_their_words(before + "eaclauncher"@ + after);
    assert(made_of(before + "eaclauncher"@ + after, before, "eaclauncher"@, after));
}

/// Whether an entry of the launch options is only for beta testers: its
/// configuration has a beta key, whatever that is.
pub open spec fn for_testers(entry: JsonView) -> bool {
    entry.get("config"@) is Some && entry.get("config"@)->0.get("betakey"@) is Some
}

/// Whether an entry of the launch options is for Windows: its configuration has
/// no text for the systems, or one that names Windows.
pub open spec fn runs_on_windows(entry: JsonView) -> bool {
    entry.get("config"@) is Some ==> (entry.get("config"@)->0.get("oslist"@) matches Some(
        JsonView::Text(list),
    ) ==> exists|
        before: Seq<char>,
        left: Seq<char>,
        right: Seq<char>,
        after: Seq<char>,
    | lists_windows(list, before, left, right, after))
}

/// An entry launches exactly when it names an executable and is for Windows.
pub proof fn windows_entries_with_an_executable_launch(entry: (Seq<char>, JsonView))
    ensures
        launches(entry) <==> runs_on_windows(entry.1) && (entry.1.get("executable"@) matches Some(
            JsonView::Text(_),
        )),
        launches(entry) ==> entry.1.get("executable"@) == Some(
            JsonView::Text(entry_executable(entry)),
        ),
{
    if let Some(config) = entry.1.get("config"@) {
        if let Some(JsonView::Text(list)) = config.get("oslist"@) {
            windows_is_one_of_the_systems(list);
        }
    }
}

/// Whether an entry may stand before another: a bootstrapper stands behind what
/// is none, then an option for testers behind one for everybody, then the build
/// counts, and then the number of the option, where a key that is no number comes
/// last.
pub open spec fn may_stand_before(
    entry: (Seq<char>, JsonView),
    other: (Seq<char>, JsonView),
) -> bool {
    let name = lowercase(entry_executable(entry));
    let other_name = lowercase(entry_executable(other));
    if bootstrapper(name) != bootstrapper(other_name) {
        bootstrapper(other_name)
    } else if for_testers(entry.1) != for_testers(other.1) {
        for_testers(other.1)
    } else if build_class(name) != build_class(other_name) {
        build_class(name) < build_class(other_name)
    } else {
        match (parsed_u32(entry.0), parsed_u32(other.0)) {
            (Some(n), Some(m)) => n <= m,
            (Some(_), None) => true,
            (None, Some(m)) => m == u32::MAX,
            (None, None) => true,
        }
    }
}

proof fn lemma_ranks_by_criteria(entry: (Seq<char>, JsonView), other: (Seq<char>, JsonView))
    requires
        launches(entry),
        launches(other),
        ranks_no_worse(entry, other),
    ensures
        may_stand_before(entry, other),
{
    let name = lowercase(entry_executable(entry));
    let other_name = lowercase(entry_executable(other));
    names_are_judged_by_their_words(name);
    names_are_judged_by_their_words(other_name);
    scores_compare_by_criteria(
        bootstrapper(name),
        for_testers(entry.1),
        build_class(name),
        bootstrapper(other_name),
        for_testers(other.1),
        build_class(other_name),
    );
    scores_compare_by_criteria(
        bootstrapper(other_name),
        for_testers(other.1),
        build_class(other_name),
        bootstrapper(name),
        for_testers(entry.1),
        build_class(name),
    );
}

/// Whether some names are the executables of launch options for Windows, each of
/// which may stand before those behind it. `order` gives the options.
pub open spec fn in_due_order(
    entries: Seq<(Seq<char>, JsonView)>,
    order: Seq<int>,
    names: Seq<Seq<char>>,
) -> bool {
    &&& order.len() == names.len()
    &&& forall|i: int|
        0 <= i < names.len() ==> {
            &&& 0 <= #[trigger] order[i] < entries.len()
            &&& runs_on_windows(entries[order[i]].1)
            &&& entries[order[i]].1.get("executable"@) == Some(JsonView::Text(names[i]))
        }
    &&& forall|i: int, j: int|
        0 <= i <= j < names.len() ==> may_stand_before(
            entries[#[trigger] order[i]],
            entries[#[trigger] order[j]],
        )
}

/// The candidates behind the guesses are executables of launch options for
/// Windows in due order: never does a bootstrapper stand before what is none, an
/// option for testers before one for everybody of the same sort, a lesser build
/// before a better one, or a greater number before a smaller one.
pub proof fn candidates_stand_in_due_order(app: JsonView, config: JsonView)
    ensures
        ({
            let guesses = project_guesses(project_name(app));
            let others = launch_candidates(app, config).skip(guesses.len() as int);
            match config.get("launch"@) {
                Some(JsonView::Object(entries)) => exists|order: Seq<int>|
                    in_due_order(entries, order, others),
                _ => others.len() == 0,
            }
        }),
{
    let guesses = project_guesses(project_name(app));
    let others = launch_candidates(app, config).skip(guesses.len() as int);
    candidates_are_ranked(app, config);
    if let Some(JsonView::Object(entries)) = config.get("launch"@) {
        let order = choose|order: Seq<int>| ranked_by(entries, order, others);
        assert forall|i: int| 0 <= i < others.len() implies {
            &&& 0 <= #[trigger] order[i] < entries.len()
            &&& runs_on_windows(entries[order[i]].1)
            &&& entries[order[i]].1.get("executable"@) == Some(JsonView::Text(others[i]))
            &&& launches(entries[order[i]])
        } by {
            assert(launches_at(entries, order[i], others[i]));
            windows_entries_with_an_executable_launch(entries[order[i]]);
        }
        assert forall|i: int, j: int| 0 <= i <= j < others.len() implies may_stand_before(
            entries[#[trigger] order[i]],
            entries[#[trigger] order[j]],
        ) by {
            lemma_ranks_by_criteria(entries[order[i]], entries[order[j]]);
        }
        assert(in_due_order(entries, order, others));
    }
}

/// Whether some launch options for Windows, none of them named twice, are others
/// than option `k` and may stand before it.
pub open spec fn stand_before(
    entries: Seq<(Seq<char>, JsonView)>,
    better: Seq<int>,
    k: int,
) -> bool {
    &&& better.no_duplicates()
    &&& forall|i: int|
        0 <= i < better.len() ==> {
            &&& 0 <= #[trigger] better[i] < entries.len()
            &&& better[i] != k
            &&& runs_on_windows(entries[better[i]].1)
            &&& may_stand_before(entries[better[i]], entries[k])
        }
}

/// The executable of a launch option for Windows is among the candidates, the
/// case of ASCII letters left aside, unless three other such options may stand
/// before it.
pub proof fn options_are_offered_unless_three_stand_before(
    app: JsonView,
    config: JsonView,
    k: int,
    exe: Seq<char>,
)
    requires
        config.get("launch"@) is Some,
        config.get("launch"@)->0 is Object,
        0 <= k < config.get("launch"@)->0->Object_0.len(),
        runs_on_windows(config.get("launch"@)->0->Object_0[k].1),
        config.get("launch"@)->0->Object_0[k].1.get("executable"@) == Some(JsonView::Text(exe)),
    ensures
        ({
            let all = launch_candidates(app, config);
            ||| exists|i: int|
                0 <= i < all.len() && same_ignoring_ascii_case(#[trigger] all[i], exe)
            ||| exists|better: Seq<int>|
                better.len() == 3 && stand_before(
                    config.get("launch"@)->0->Object_0,
                    better,
                    k,
                )
        }),
{
    let entries = config.get("launch"@)->0->Object_0;
    windows_entries_with_an_executable_launch(entries[k]);
    assert(entries[k].1.get("executable"@) == Some(JsonView::Text(exe)));
    if !known(launch_candidates(app, config), exe) {
        left_out_options_are_outranked(app, config, k);
        let better = choose|better: Seq<int>|
            better.len() == OFFERED_OPTIONS && outrank(entries, better, k);
        assert forall|i: int| 0 <= i < better.len() implies {
            &&& 0 <= #[trigger] better[i] < entries.len()
            &&& better[i] != k
            &&& runs_on_windows(entries[better[i]].1)
            &&& may_stand_before(entries[better[i]], entries[k])
        } by {
            windows_entries_with_an_executable_launch(entries[better[i]]);
            lemma_ranks_by_criteria(entries[better[i]], entries[k]);
        }
        assert(stand_before(entries, better, k));
    }
}

/// A reply with an install directory for the app is accepted exactly when there
/// is a candidate, and gives that directory and all candidates.
pub proof fn complete_reply_is_accepted(
    app_id: Seq<char>,
    reply: JsonView,
    data: JsonView,
    app: JsonView,
    config: JsonView,
    installdir: Seq<char>,
)
    requires
        reply.get("data"@) == Some(data),
        data.get(app_id) == Some(app),
        app.get("config"@) == Some(config),
        config.get("installdir"@) == Some(JsonView::Text(installdir)),
    ensures
        launch_candidates(app, config).len() > 0 ==> launch_info(app_id, reply) == Ok::<
            (Seq<char>, Seq<Seq<char>>),
            Seq<char>,
        >((installdir, launch_candidates(app, config))),
        launch_candidates(app, config).len() == 0 ==> launch_info(app_id, reply) is Err,
{
}

/// A reply that lacks something is refused with what it lacks first: the app, its
/// configuration, a text for its install directory, or any candidate.
pub proof fn incomplete_reply_is_refused(app_id: Seq<char>, reply: JsonView)
    ensures
        ({
            let data = reply.get("data"@);
            let app = data->0.get(app_id);
            let config = app->0.get("config"@);
            let found = data is Some && app is Some;
            &&& !found ==> launch_info(app_id, reply) == Err::<
                (Seq<char>, Seq<Seq<char>>),
                Seq<char>,
            >("SteamCMD has no info for this app id"@)
            &&& found && config is None ==> launch_info(app_id, reply) == Err::<
                (Seq<char>, Seq<Seq<char>>),
                Seq<char>,
            >("SteamCMD info is missing a 'config' section for this app"@)
            &&& found && config is Some && !(config->0.get("installdir"@) matches Some(
                JsonView::Text(_),
            )) ==> launch_info(app_id, reply) == Err::<(Seq<char>, Seq<Seq<char>>), Seq<char>>(
                "SteamCMD info is missing an installdir for this app"@,
            )
            &&& found && config is Some && (config->0.get("installdir"@) matches Some(
                JsonView::Text(_),
            )) && launch_candidates(app->0, config->0).len() == 0 ==> launch_info(app_id, reply)
                == Err::<(Seq<char>, Seq<Seq<char>>), Seq<char>>(
                "Could not find a usable launch executable for this app"@,
            )
        }),
{
}

/// An entry of the save files names a project exactly when its path is a text
/// that has the `Saved` folder behind the project.
pub proof fn save_paths_name_the_project(entry: JsonView, project: Seq<char>)
    ensures
        entry_project(entry) == Some(project) <==> match entry.get("path"@) {
            Some(JsonView::Text(path)) => exists|rest: Seq<char>|
                saved_below(path, project, rest),
            _ => false,
        },
{
    if let Some(JsonView::Text(path)) = entry.get("path"@) {
        project_stands_before_the_saved_folder(path, project);
    }
}

/// The project of an app is the one that the first fitting save file names, and
/// an app has the guesses for its project exactly when there is one.
pub proof fn save_files_give_the_guesses(app: JsonView)
    ensures
        project_name(app) == match app.get("ufs"@) {
            Some(ufs) => match ufs.get("savefiles"@) {
                Some(JsonView::Object(entries)) => first_project(entries),
                _ => None,
            },
            None => None,
        },
        project_guesses(project_name(app)).len() == if project_name(app) is Some {
            3nat
        } else {
            0nat
        },
{
}

} // verus!
