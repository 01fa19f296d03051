use disactivity::json::{parse_json, Json};
use disactivity::ranking::sort_by_key;
use disactivity::steam::{
    add_best_options, build_rank, find_project_name, guess_from_project, is_anticheat_launcher,
    is_known, is_saved_folder, is_windows_compatible, project_of_save_path, read_launch_info,
    read_option, score_name, score_options, LaunchOption,
};

fn parsed(text: &str) -> Json {
    parse_json(text.as_bytes()).unwrap()
}

/// The candidates for app 7, whose section holds the given text.
fn candidates(app: &str) -> Result<Vec<String>, String> {
    let reply = parsed(&format!("{{\"data\": {{\"7\": {}}}}}", app));
    read_launch_info("7", &reply).map(|info| info.1)
}

fn launch(entries: &str) -> Result<Vec<String>, String> {
    candidates(&format!("{{\"config\": {{\"installdir\": \"d\", \"launch\": {}}}}}", entries))
}

#[test]
fn json_is_read_as_far_as_it_is_looked_into() {
    assert!(matches!(parsed("\"a\\u00e9\""), Json::Text(t) if t == "aé"));
    for other in ["1", "-2.5e3", "true", "null", "[1, {\"a\": 2}]"] {
        assert!(matches!(parsed(other), Json::Other));
    }
    let object = parsed("{\"b\": {\"c\": \"x\"}, \"a\": 1, \"b\": \"y\"}");
    assert_eq!(object.get_text("b"), Some("y"));
    assert_eq!(object.as_object().map(|fields| fields.len()), Some(2));
    assert!(object.get("a").is_some());
    assert!(object.get_text("a").is_none());
    assert!(object.get("c").is_none());
    assert!(object.get_object("b").is_none());
    assert!(parsed("\"text\"").get("a").is_none());
}

#[test]
fn what_is_no_json_is_not_read() {
    for body in ["", "{", "{} {}", "nope", "\"open"] {
        assert!(parse_json(body.as_bytes()).is_none(), "{}", body);
    }
    assert!(parse_json(&[b'"', 0xff, b'"']).is_none());
}

#[test]
fn sorting_keeps_the_order_of_equal_keys() {
    let sorted = sort_by_key(vec![(3, 'a'), (1, 'b'), (3, 'c'), (0, 'd'), (1, 'e')]);
    assert_eq!(sorted, vec![(0, 'd'), (1, 'b'), (1, 'e'), (3, 'a'), (3, 'c')]);
    assert_eq!(sort_by_key::<char>(vec![]), vec![]);
}

#[test]
fn project_is_what_stands_before_the_saved_folder() {
    assert_eq!(project_of_save_path("Marvel/Saved/Games"), Some("Marvel".to_string()));
    assert_eq!(project_of_save_path("Marvel/SAVED/Games"), Some("Marvel".to_string()));
    assert_eq!(project_of_save_path("Marvel/saved"), Some("Marvel".to_string()));
    assert_eq!(project_of_save_path("/Saved"), Some("".to_string()));
    assert_eq!(project_of_save_path("Marvel/Savedgames"), None);
    assert_eq!(project_of_save_path("a/b/Saved/"), None);
    assert_eq!(project_of_save_path("Saved"), None);
    assert!(is_saved_folder("sAvEd", "anything"));
    assert!(is_saved_folder("anything", "saved/"));
    assert!(!is_saved_folder("Saved/", "Saved/"));
}

#[test]
fn lowercase_is_that_of_unicode() {
    // The Kelvin sign has the ASCII letter k as its lowercase form.
    let scored = score_options(vec![(
        0,
        LaunchOption {
            executable: Some("EOS_LAUNCHER\u{212a}.exe".to_string()),
            oslist: None,
            beta_only: false,
        },
    )]);
    assert_eq!(scored[0].0, 0x10001);
    assert_eq!(scored[0].1, "EOS_LAUNCHER\u{212a}.exe");
}

#[test]
fn first_fitting_save_file_names_the_project() {
    let app = parsed(
        "{\"ufs\": {\"savefiles\": {\"0\": {\"path\": \"no\"}, \"1\": {\"root\": \"r\"}, \
         \"2\": {\"path\": \"P/Saved/x\"}, \"3\": {\"path\": \"Q/Saved\"}}}}",
    );
    assert_eq!(find_project_name(&app), Some("P".to_string()));
    assert_eq!(find_project_name(&parsed("{\"ufs\": {\"savefiles\": []}}")), None);
    assert_eq!(find_project_name(&parsed("{\"ufs\": 1}")), None);
    assert_eq!(find_project_name(&parsed("{}")), None);
}

#[test]
fn guesses_follow_the_usual_layouts() {
    assert_eq!(
        guess_from_project(&Some("Marvel".to_string())),
        vec![
            "win64/Marvel-Win64-Shipping.exe",
            "Binaries/Win64/Marvel-Win64-Shipping.exe",
            "Marvel/Binaries/Win64/Marvel-Win64-Shipping.exe",
        ]
    );
    assert!(guess_from_project(&None).is_empty());
}

#[test]
fn a_list_of_systems_must_name_windows() {
    assert!(is_windows_compatible(&None));
    for (list, expected) in [
        ("windows", true),
        ("macos, windows ,linux", true),
        ("\twindows\n", true),
        ("Windows", false),
        ("windows10", false),
        ("linux", false),
        ("", false),
    ] {
        assert_eq!(is_windows_compatible(&Some(list.to_string())), expected, "{}", list);
    }
}

#[test]
fn names_are_ranked() {
    for name in [
        "start_protected_game.exe",
        "myanticheat.exe",
        "battleye",
        "eos_launcher.exe",
        "eaclauncher.exe",
    ] {
        assert!(is_anticheat_launcher(name));
        assert_eq!(score_name(name, false), 0x10001);
    }
    assert!(!is_anticheat_launcher("game.exe"));
    assert_eq!(build_rank("game-win64-shipping.exe"), 0);
    assert_eq!(build_rank("shipping-test.exe"), 0);
    assert_eq!(build_rank("game.exe"), 1);
    assert_eq!(build_rank("test.exe"), 2);
    assert_eq!(build_rank("game_debug.exe"), 2);
    assert_eq!(build_rank("devil.exe"), 2);
    assert_eq!(score_name("game.exe", true), 0x101);
    assert!(score_name("test.exe", true) < score_name("battleye-shipping.exe", false));
    assert!(score_name("test.exe", false) < score_name("shipping.exe", true));
}

#[test]
fn an_option_is_read() {
    let option = read_option(&parsed(
        "{\"executable\": \"a.exe\", \"config\": {\"oslist\": \"windows\", \"betakey\": null}}",
    ));
    assert_eq!(option.executable, Some("a.exe".to_string()));
    assert_eq!(option.oslist, Some("windows".to_string()));
    assert!(option.beta_only);
    let bare = read_option(&parsed("{\"executable\": 1, \"config\": {\"oslist\": 2}}"));
    assert!(bare.executable.is_none() && bare.oslist.is_none() && !bare.beta_only);
}

#[test]
fn options_go_by_score_and_then_by_number() {
    let entries = "{\"10\": {\"executable\": \"ten.exe\"}, \"9\": {\"executable\": \"nine.exe\"}, \
        \"x\": {\"executable\": \"last.exe\"}, \
        \"1\": {\"executable\": \"start_protected_game.exe\"}, \
        \"2\": {\"executable\": \"Game-Shipping.exe\", \"config\": {\"betakey\": \"b\"}}}";
    assert_eq!(launch(entries), Ok(strings(&["nine.exe", "ten.exe", "last.exe"])));
    let few = "{\"0\": {\"executable\": \"start_protected_game.exe\"}, \
        \"1\": {\"executable\": \"Game-SHIPPING.exe\", \"config\": {\"betakey\": \"b\"}}, \
        \"2\": {\"executable\": \"mac.app\", \"config\": {\"oslist\": \"macos\"}}, \"3\": {}}";
    assert_eq!(launch(few), Ok(strings(&["Game-SHIPPING.exe", "start_protected_game.exe"])));
}

fn strings(list: &[&str]) -> Vec<String> {
    list.iter().map(|t| t.to_string()).collect()
}

#[test]
fn candidates_are_offered_once() {
    let all = add_best_options(
        strings(&["A.exe"]),
        vec![
            (2, "c.exe".to_string()),
            (0, "a.EXE".to_string()),
            (1, "b.exe".to_string()),
            (3, "d.exe".to_string()),
        ],
    );
    assert_eq!(all, strings(&["A.exe", "b.exe", "c.exe"]));
    assert!(is_known(&all, "B.EXE"));
    assert!(!is_known(&all, "d.exe"));
    let app = "{\"ufs\": {\"savefiles\": {\"0\": {\"path\": \"P/Saved\"}}}, \"config\": \
        {\"installdir\": \"d\", \"launch\": {\"0\": {\"executable\": \
        \"WIN64/p-win64-shipping.exe\"}, \"1\": {\"executable\": \"p.exe\"}}}}";
    assert_eq!(
        candidates(app),
        Ok(strings(&[
            "win64/P-Win64-Shipping.exe",
            "Binaries/Win64/P-Win64-Shipping.exe",
            "P/Binaries/Win64/P-Win64-Shipping.exe",
            "p.exe",
        ]))
    );
}

#[test]
fn a_reply_fails_with_what_is_missing() {
    let no_info = Err("SteamCMD has no info for this app id".to_string());
    assert_eq!(read_launch_info("7", &parsed("{}")).map(|i| i.0), no_info);
    assert_eq!(read_launch_info("7", &parsed("{\"data\": {\"8\": {}}}")).map(|i| i.0), no_info);
    assert_eq!(
        candidates("{}"),
        Err("SteamCMD info is missing a 'config' section for this app".to_string())
    );
    assert_eq!(
        candidates("{\"config\": {\"installdir\": 5}}"),
        Err("SteamCMD info is missing an installdir for this app".to_string())
    );
    assert_eq!(
        launch("{}"),
        Err("Could not find a usable launch executable for this app".to_string())
    );
    assert_eq!(
        launch("[]"),
        Err("Could not find a usable launch executable for this app".to_string())
    );
}
