use disactivity::catalog::{is_listed, keep_listed, select_best_executable, steam_app_id};
use disactivity::{Executable, Game, ThirdPartySku};

fn exe(name: &str, os: Option<&str>) -> Executable {
    Executable { name: name.to_string(), os: os.map(|o| o.to_string()) }
}

fn sku(distributor: &str, id: Option<&str>) -> ThirdPartySku {
    ThirdPartySku { distributor: distributor.to_string(), id: id.map(|i| i.to_string()) }
}

fn game(
    id: &str,
    executables: Option<Vec<Executable>>,
    skus: Option<Vec<ThirdPartySku>>,
) -> Game {
    Game {
        id: id.to_string(),
        name: format!("Game {}", id),
        icon_hash: None,
        executables,
        aliases: vec![],
        third_party_skus: skus,
    }
}

#[test]
fn picks_nothing_from_nothing() {
    let none: Vec<Executable> = vec![];
    assert_eq!(select_best_executable(&none), None);
}

#[test]
fn picks_only_windows_names_that_are_no_patterns() {
    let list = vec![
        exe("a.app", Some("darwin")),
        exe(">b.exe", Some("win32")),
        exe("c.exe", None),
        exe("d.exe", Some("Win32")),
    ];
    assert_eq!(select_best_executable(&list), None);
}

#[test]
fn fewest_separators_go_before_the_shortest_name() {
    let list = vec![
        exe("x/y", Some("win32")),
        exe("a\\b.exe", Some("win32")),
        exe("long_name_without_folder.exe", Some("win32")),
        exe("short.exe", Some("win32")),
        exe("other.exe", Some("win32")),
    ];
    assert_eq!(select_best_executable(&list), Some("short.exe".to_string()));
}

#[test]
fn length_is_counted_in_bytes_and_the_first_of_equals_wins() {
    let list = vec![
        exe("ää.exe", Some("win32")),
        exe("abc.exe", Some("win32")),
        exe("abd.exe", Some("win32")),
    ];
    assert_eq!(select_best_executable(&list), Some("abc.exe".to_string()));
}

#[test]
fn empty_name_is_the_shortest() {
    let list = vec![exe("a", Some("win32")), exe("", Some("win32"))];
    assert_eq!(select_best_executable(&list), Some("".to_string()));
}

#[test]
fn steam_id_is_the_first_that_a_steam_product_carries() {
    assert_eq!(steam_app_id(&game("1", None, None)), None);
    assert_eq!(steam_app_id(&game("1", None, Some(vec![sku("gog", Some("7"))]))), None);
    let two = vec![sku("gog", Some("7")), sku("steam", Some("8")), sku("steam", Some("9"))];
    assert_eq!(steam_app_id(&game("1", None, Some(two))), Some("8"));
    let first_without = vec![sku("steam", None), sku("steam", Some("9"))];
    assert_eq!(steam_app_id(&game("1", None, Some(first_without.clone()))), Some("9"));
    assert!(is_listed(&game("1", None, Some(first_without))));
    let none_with = vec![sku("steam", None), sku("gog", Some("9")), sku("steam", None)];
    assert_eq!(steam_app_id(&game("1", None, Some(none_with))), None);
}

#[test]
fn offered_games_can_be_started() {
    let games = vec![
        game("1", Some(vec![exe("a.app", Some("darwin"))]), None),
        game("2", Some(vec![]), None),
        game("3", None, Some(vec![sku("steam", Some("440"))])),
        game("4", None, Some(vec![sku("steam", None)])),
        game("5", Some(vec![]), Some(vec![sku("steam", Some("441"))])),
    ];
    assert!(is_listed(&games[0]));
    assert!(!is_listed(&games[1]));
    let ids: Vec<String> = keep_listed(games).into_iter().map(|g| g.id).collect();
    assert_eq!(ids, vec!["1", "3", "5"]);
}

#[test]
fn a_copy_says_the_same() {
    let mut one = game(
        "1",
        Some(vec![exe("a.exe", Some("win32")), exe("b.exe", None)]),
        Some(vec![sku("steam", Some("8")), sku("gog", None)]),
    );
    one.aliases = vec!["first".to_string(), "second".to_string()];
    one.icon_hash = Some("hash".to_string());
    assert_eq!(format!("{:?}", one.clone()), format!("{:?}", one));
}

#[test]
fn unsuitable_executables_never_change_the_choice() {
    let list = vec![
        exe("a", None),
        exe("bin/b.exe", Some("win32")),
        exe(">", Some("win32")),
        exe("longer.exe", Some("win32")),
        exe("c", Some("linux")),
    ];
    let suitable = vec![list[1].clone(), list[3].clone()];
    assert_eq!(select_best_executable(&list), Some("longer.exe".to_string()));
    assert_eq!(select_best_executable(&suitable), select_best_executable(&list));
}
