use disactivity::cache::{write_cache, CacheData, Timestamp};
use disactivity::fetch::{
    fetch_from_api, fetch_games, fetch_games_at, fetch_steam_launch_info, read_answer,
    resolve_steam_launch_info, CatalogAction, CatalogEvent, CatalogFetch, GamesAction, GamesEvent,
    GamesRequest, SteamAction, SteamEvent, SteamFetch,
};
use disactivity::web::{steam_info_url, Sent, Status};
use disactivity::{Executable, Game};

fn game(id: &str, startable: bool) -> Game {
    Game {
        id: id.to_string(),
        name: id.to_string(),
        icon_hash: None,
        executables: if startable {
            Some(vec![Executable { name: "a.exe".to_string(), os: None }])
        } else {
            None
        },
        aliases: vec![],
        third_party_skus: None,
    }
}

fn answered(code: u16) -> Sent {
    Sent::Answered(Status::new(code).unwrap())
}

fn failed(error: &str) -> Sent {
    Sent::Failed(error.to_string())
}

/// Fetches the catalogue with given replies: the ids, or the error.
fn catalogue(
    sent: Vec<Sent>,
    read: Vec<Result<Vec<Game>, String>>,
) -> Result<Vec<String>, String> {
    let mut sent = sent.into_iter();
    let mut read = read.into_iter();
    let mut urls: Vec<&'static str> = vec![];
    let (mut state, mut action) = fetch_from_api(CatalogFetch::Start, CatalogEvent::Begin);
    loop {
        let event = match action {
            CatalogAction::Get(url) => {
                urls.push(url);
                CatalogEvent::Sent(sent.next().unwrap())
            }
            CatalogAction::ReadGames | CatalogAction::ReadOthers => {
                CatalogEvent::Read(read.next().unwrap())
            }
            CatalogAction::Finish(result) => {
                assert!(sent.next().is_none() && read.next().is_none());
                assert_eq!(urls[0], "https://discord.com/api/v9/games/detectable");
                if urls.len() > 1 {
                    assert_eq!(
                        urls[1],
                        "https://discord.com/api/v9/applications/non-games/detectable"
                    );
                }
                return result.map(|games| games.into_iter().map(|g| g.id).collect());
            }
            CatalogAction::Wait => panic!("nothing was awaited"),
        };
        (state, action) = fetch_from_api(state, event);
    }
}

#[test]
fn catalogue_joins_both_lists_and_keeps_what_can_be_started() {
    let result = catalogue(
        vec![answered(200), answered(204)],
        vec![
            Ok(vec![game("1", true), game("2", false)]),
            Ok(vec![game("3", false), game("4", true)]),
        ],
    );
    assert_eq!(result, Ok(vec!["1".to_string(), "4".to_string()]));
}

#[test]
fn catalogue_does_without_the_other_applications() {
    let result =
        catalogue(vec![answered(299), answered(503)], vec![Ok(vec![game("1", true)])]);
    assert_eq!(result, Ok(vec!["1".to_string()]));
}

#[test]
fn catalogue_fails_when_a_request_fails() {
    assert_eq!(
        catalogue(vec![failed("no route")], vec![]),
        Err("Failed to fetch games: no route".to_string())
    );
    assert_eq!(
        catalogue(vec![answered(200), failed("closed")], vec![]),
        Err("Failed to fetch games: closed".to_string())
    );
}

#[test]
fn catalogue_fails_on_a_status_without_success() {
    assert_eq!(
        catalogue(vec![answered(404)], vec![]),
        Err("API returned status: 404 Not Found".to_string())
    );
    assert_eq!(
        catalogue(vec![answered(199)], vec![]),
        Err("API returned status: 199 <unknown status code>".to_string())
    );
    assert_eq!(
        catalogue(vec![answered(300)], vec![]),
        Err("API returned status: 300 Multiple Choices".to_string())
    );
}

#[test]
fn catalogue_fails_when_an_answer_cannot_be_read() {
    assert_eq!(
        catalogue(vec![answered(200), answered(500)], vec![Err("bad".to_string())]),
        Err("Failed to parse response: bad".to_string())
    );
    assert_eq!(
        catalogue(
            vec![answered(200), answered(200)],
            vec![Ok(vec![game("1", true)]), Err("worse".to_string())]
        ),
        Err("Failed to parse response: worse".to_string())
    );
}

#[test]
fn replies_that_were_not_awaited_change_nothing() {
    let (state, action) = fetch_from_api(CatalogFetch::GamesAsked, CatalogEvent::Begin);
    assert!(matches!(state, CatalogFetch::GamesAsked));
    assert!(matches!(action, CatalogAction::Wait));
    let (state, action) = fetch_games(GamesRequest::Fetching, GamesEvent::Stored);
    assert!(matches!(state, GamesRequest::Fetching));
    assert!(matches!(action, GamesAction::Wait));
    let (state, action) =
        fetch_steam_launch_info(SteamFetch::Finished, "1", SteamEvent::Sent(answered(200)));
    assert!(matches!(state, SteamFetch::Finished));
    assert!(matches!(action, SteamAction::Wait));
}

#[test]
fn status_codes_have_three_digits() {
    assert!(Status::new(99).is_none());
    assert!(Status::new(1000).is_none());
    assert!(Status::new(100).is_some());
    assert!(Status::new(999).is_some());
    assert_eq!(Status::new(418).unwrap().text(), "418 I'm a teapot");
}

/// Provides the catalogue with given replies: the ids and whether they came
/// from the cache, or the error.
fn provided(
    force_refresh: bool,
    cache: Option<CacheData>,
    fetched: Result<Vec<Game>, String>,
    now: Timestamp,
) -> Result<(Vec<String>, bool), String> {
    let mut cache = Some(cache);
    let mut fetched = Some(fetched);
    let (mut state, mut action) =
        fetch_games_at(GamesRequest::Start { force_refresh }, GamesEvent::Begin, now);
    loop {
        let event = match action {
            GamesAction::ReadCache => GamesEvent::CacheRead(cache.take().unwrap()),
            GamesAction::Fetch => GamesEvent::Fetched(fetched.take().unwrap()),
            GamesAction::Store(games) => {
                assert_eq!(games.len(), 1);
                assert_eq!(games[0].id, "new");
                GamesEvent::Stored
            }
            GamesAction::Finish(result) => {
                return result
                    .map(|r| (r.games.into_iter().map(|g| g.id).collect(), r.from_cache));
            }
            GamesAction::Wait => panic!("nothing was awaited"),
        };
        (state, action) = fetch_games_at(state, event, now);
    }
}

fn cached(secs: i64) -> Option<CacheData> {
    Some(CacheData {
        timestamp: Timestamp::new(secs, 0).unwrap(),
        games: vec![game("old", false)],
    })
}

#[test]
fn catalogue_comes_from_the_cache_while_it_counts() {
    let now = Timestamp::new(172_799, 0).unwrap();
    let new = || Ok(vec![game("new", true)]);
    assert_eq!(provided(false, cached(0), new(), now), Ok((vec!["old".to_string()], true)));
    assert_eq!(provided(true, cached(0), new(), now), Ok((vec!["new".to_string()], false)));
    assert_eq!(provided(false, None, new(), now), Ok((vec!["new".to_string()], false)));
    let later = Timestamp::new(172_800, 0).unwrap();
    assert_eq!(provided(false, cached(0), new(), later), Ok((vec!["new".to_string()], false)));
    assert_eq!(
        provided(false, cached(0), Err("down".to_string()), later),
        Err("down".to_string())
    );
}

#[test]
fn what_was_stored_now_is_served_now() {
    let (state, action) = fetch_games(
        GamesRequest::Fetching,
        GamesEvent::Fetched(Ok(vec![game("new", true)])),
    );
    assert!(matches!(state, GamesRequest::Storing { .. }));
    let stored = match action {
        GamesAction::Store(games) => write_cache(&games, true).unwrap(),
        _ => panic!("not stored"),
    };
    let (_, action) = fetch_games(GamesRequest::ReadingCache, GamesEvent::CacheRead(Some(stored)));
    match action {
        GamesAction::Finish(Ok(response)) => {
            assert!(response.from_cache);
            assert_eq!(response.games[0].id, "new");
        }
        _ => panic!("not served"),
    }
}

/// Fetches the information on app 440 with given replies.
fn app_info(
    sent: Sent,
    body: Result<&str, String>,
) -> Result<(String, Vec<String>), String> {
    let (state, action) = fetch_steam_launch_info(SteamFetch::Start, "440", SteamEvent::Begin);
    match action {
        SteamAction::Get(url) => assert_eq!(url, "https://api.steamcmd.net/v1/info/440"),
        _ => panic!("not asked"),
    }
    let (state, action) = fetch_steam_launch_info(state, "440", SteamEvent::Sent(sent));
    if let SteamAction::Finish(result) = action {
        return result;
    }
    assert!(matches!(action, SteamAction::ReadBody));
    let read = body.map(|text| text.as_bytes().to_vec());
    let (_, action) = fetch_steam_launch_info(state, "440", SteamEvent::Read(read));
    match action {
        SteamAction::Finish(result) => result,
        _ => panic!("not finished"),
    }
}

#[test]
fn app_information_is_read_from_the_body() {
    let body = r#"{"data": {"440": {
        "config": {
            "installdir": "Team Fortress 2",
            "launch": {
                "0": {"executable": "hl2.sh", "config": {"oslist": "linux"}},
                "1": {"executable": "tf.exe", "config": {"oslist": "macos, windows"}}
            }
        },
        "ufs": {"savefiles": {"0": {"path": "TF/SAVED/games", "n": [1, null, true]}}}
    }}}"#;
    let expected = vec![
        "win64/TF-Win64-Shipping.exe".to_string(),
        "Binaries/Win64/TF-Win64-Shipping.exe".to_string(),
        "TF/Binaries/Win64/TF-Win64-Shipping.exe".to_string(),
        "tf.exe".to_string(),
    ];
    let info = app_info(answered(200), Ok(body));
    assert_eq!(info, Ok(("Team Fortress 2".to_string(), expected.clone())));
    let offer = resolve_steam_launch_info(info).unwrap();
    assert_eq!(offer.installdir, "Team Fortress 2");
    assert_eq!(offer.candidates, expected);
}

#[test]
fn app_information_fails_with_the_reason() {
    assert_eq!(
        app_info(failed("dns"), Ok("")),
        Err("Failed to reach SteamCMD info API: dns".to_string())
    );
    assert_eq!(
        app_info(answered(500), Ok("")),
        Err("SteamCMD info API returned status: 500 Internal Server Error".to_string())
    );
    assert_eq!(
        app_info(answered(200), Err("cut off".to_string())),
        Err("Failed to parse SteamCMD response: cut off".to_string())
    );
    assert_eq!(
        app_info(answered(200), Ok("{")),
        Err("Failed to parse SteamCMD response: error decoding response body".to_string())
    );
    assert_eq!(
        app_info(answered(200), Ok("{\"data\": {}}")),
        Err("SteamCMD has no info for this app id".to_string())
    );
    assert_eq!(
        read_answer("440", None),
        Err("Failed to parse SteamCMD response: error decoding response body".to_string())
    );
    assert!(resolve_steam_launch_info(Err("x".to_string())).is_err());
}

#[test]
fn url_of_an_app() {
    assert_eq!(steam_info_url("7"), "https://api.steamcmd.net/v1/info/7");
}
