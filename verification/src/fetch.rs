//! Fetching the catalogue and the information on a Steam app, step by step:
//! from what came back to what is to be done next.

use vstd::prelude::*;

use crate::cache::{is_cache_valid_at, CacheData, CacheView, Moment, Timestamp};
use crate::cache::{clock_gave, clock_reading, counts_for_two_days, still_valid};
use crate::catalog::{game_views, listed_games_can_be_started, steam_product_at};
use crate::catalog::{clone_games, keep_listed, Game, GameView};
use crate::json::parse_json;
use crate::json::{parsed_json, Json, JsonView};
use crate::steam::{info_view, launch_info};
use crate::steam::{read_launch_info, SteamLaunchInfo};
use crate::text::joined;
use crate::web::{
    steam_info_url, Sent, SentView, DISCORD_GAMES_API_URL, DISCORD_NON_GAMES_API_URL,
};
use crate::web::{status_text, success};

verus! {

// The catalogue.

/// How far the catalogue has been fetched.
#[derive(Debug)]
pub enum CatalogFetch {
    /// Nothing was sent yet.
    Start,
    /// The games were asked for.
    GamesAsked,
    /// The games were answered, and the other applications were asked for.
    OthersAsked,
    /// The games are being read; the other applications too, if they came.
    ReadingGames { others_came: bool },
    /// The games were read; the other applications are being read.
    ReadingOthers { games: Vec<Game> },
    /// There is nothing left to be done.
    Finished,
}

/// What came back.
#[derive(Debug)]
pub enum CatalogEvent {
    /// The fetch was asked for.
    Begin,
    /// What became of the request sent last.
    Sent(Sent),
    /// The entries that an answer holds, or why they could not be read.
    Read(Result<Vec<Game>, String>),
}

/// What is to be done next.
#[derive(Debug)]
pub enum CatalogAction {
    /// Send a request.
    Get(&'static str),
    /// Read the answer to the first request.
    ReadGames,
    /// Read the answer to the second request.
    ReadOthers,
    /// Hand out the result.
    Finish(Result<Vec<Game>, String>),
    /// Nothing: what came back was not awaited.
    Wait,
}

/// What a `CatalogFetch` says.
pub enum CatalogFetchView {
    Start,
    GamesAsked,
    OthersAsked,
    ReadingGames { others_came: bool },
    ReadingOthers { games: Seq<GameView> },
    Finished,
}

/// What a `CatalogEvent` says.
pub enum CatalogEventView {
    Begin,
    Sent(SentView),
    Read(Result<Seq<GameView>, Seq<char>>),
}

/// What a `CatalogAction` says.
pub enum CatalogActionView {
    Get(Seq<char>),
    ReadGames,
    ReadOthers,
    Finish(Result<Seq<GameView>, Seq<char>>),
    Wait,
}

/// What a list of games or an error says.
pub open spec fn games_result_view(r: Result<Vec<Game>, String>) -> Result<
    Seq<GameView>,
    Seq<char>,
> {
    match r {
        Ok(games) => Ok(game_views(games@)),
        Err(error) => Err(error@),
    }
}

impl View for CatalogFetch {
    type V = CatalogFetchView;

    open spec fn view(&self) -> CatalogFetchView {
        match self {
            CatalogFetch::Start => CatalogFetchView::Start,
            CatalogFetch::GamesAsked => CatalogFetchView::GamesAsked,
            CatalogFetch::OthersAsked => CatalogFetchView::OthersAsked,
            CatalogFetch::ReadingGames { others_came } => CatalogFetchView::ReadingGames {
                others_came: *others_came,
            },
            CatalogFetch::ReadingOthers { games } => CatalogFetchView::ReadingOthers {
                games: game_views(games@),
            },
            CatalogFetch::Finished => CatalogFetchView::Finished,
        }
    }
}

impl View for CatalogEvent {
    type V = CatalogEventView;

    open spec fn view(&self) -> CatalogEventView {
        match self {
            CatalogEvent::Begin => CatalogEventView::Begin,
            CatalogEvent::Sent(sent) => CatalogEventView::Sent(sent@),
            CatalogEvent::Read(read) => CatalogEventView::Read(games_result_view(*read)),
        }
    }
}

impl View for CatalogAction {
    type V = CatalogActionView;

    open spec fn view(&self) -> CatalogActionView {
        match self {
            CatalogAction::Get(url) => CatalogActionView::Get(url@),
            CatalogAction::ReadGames => CatalogActionView::ReadGames,
            CatalogAction::ReadOthers => CatalogActionView::ReadOthers,
            CatalogAction::Finish(result) => CatalogActionView::Finish(games_result_view(*result)),
            CatalogAction::Wait => CatalogActionView::Wait,
        }
    }
}

/// The entries that are offered, in their order.
pub open spec fn listed_only(games: Seq<GameView>) -> Seq<GameView> {
    games.filter(|g: GameView| g.listed())
}

/// The end of a fetch, with an error.
pub open spec fn catalog_failure(message: Seq<char>) -> (CatalogFetchView, CatalogActionView) {
    (CatalogFetchView::Finished, CatalogActionView::Finish(Err(message)))
}

/// What follows from what came back, and what is to be done next.
pub open spec fn catalog_next(state: CatalogFetchView, event: CatalogEventView) -> (
    CatalogFetchView,
    CatalogActionView,
) {
    match (state, event) {
        (CatalogFetchView::Start, CatalogEventView::Begin) => (
            CatalogFetchView::GamesAsked,
            CatalogActionView::Get("https://discord.com/api/v9/games/detectable"@),
        ),
        (CatalogFetchView::GamesAsked, CatalogEventView::Sent(SentView::Failed(error))) =>
            catalog_failure("Failed to fetch games: "@ + error),
        (CatalogFetchView::GamesAsked, CatalogEventView::Sent(SentView::Answered(code))) => if success(
            code,
        ) {
            (
                CatalogFetchView::OthersAsked,
                CatalogActionView::Get(
                    "https://discord.com/api/v9/applications/non-games/detectable"@,
                ),
            )
        } else {
            catalog_failure("API returned status: "@ + status_text(code))
        },
        (CatalogFetchView::OthersAsked, CatalogEventView::Sent(SentView::Failed(error))) =>
            catalog_failure("Failed to fetch games: "@ + error),
        (CatalogFetchView::OthersAsked, CatalogEventView::Sent(SentView::Answered(code))) => (
            CatalogFetchView::ReadingGames { others_came: success(code) },
            CatalogActionView::ReadGames,
        ),
        (CatalogFetchView::ReadingGames { .. }, CatalogEventView::Read(Err(error))) =>
            catalog_failure("Failed to parse response: "@ + error),
        (CatalogFetchView::ReadingGames { others_came }, CatalogEventView::Read(Ok(games))) => if others_came {
            (CatalogFetchView::ReadingOthers { games }, CatalogActionView::ReadOthers)
        } else {
            (CatalogFetchView::Finished, CatalogActionView::Finish(Ok(listed_only(games))))
        },
        (CatalogFetchView::ReadingOthers { .. }, CatalogEventView::Read(Err(error))) =>
            catalog_failure("Failed to parse response: "@ + error),
        (CatalogFetchView::ReadingOthers { games }, CatalogEventView::Read(Ok(others))) => (
            CatalogFetchView::Finished,
            CatalogActionView::Finish(Ok(listed_only(games + others))),
        ),
        _ => (state, CatalogActionView::Wait),
    }
}

proof fn lemma_listed_views(games: Seq<Game>)
    ensures
        game_views(games.filter(|g: Game| g@.listed())) == listed_only(game_views(games)),
    decreases games.len(),
{
    reveal(Seq::filter);
    if games.len() > 0 {
        let rest = games.drop_last();
        lemma_listed_views(rest);
        assert(game_views(games).drop_last() =~= game_views(rest));
        let kept = rest.filter(|g: Game| g@.listed());
        assert(game_views(kept.push(games.last())) =~= game_views(kept).push(games.last()@));
    } else {
        assert(game_views(games) =~= Seq::<GameView>::empty());
    }
}

/// Keeps the entries that are offered.
fn offered(games: Vec<Game>) -> (r: Vec<Game>)
    ensures
        game_views(r@) == listed_only(game_views(games@)),
{
    proof {
        lemma_listed_views(games@);
    }
    keep_listed(games)
}

/// Takes what came back and says what is to be done next to fetch the catalogue.
pub fn fetch_from_api(state: CatalogFetch, event: CatalogEvent) -> (r: (
    CatalogFetch,
    CatalogAction,
))
    ensures
        (r.0@, r.1@) == catalog_next(state@, event@),
{
    match (state, event) {
        (CatalogFetch::Start, CatalogEvent::Begin) => (
            CatalogFetch::GamesAsked,
            CatalogAction::Get(DISCORD_GAMES_API_URL),
        ),
        (CatalogFetch::GamesAsked, CatalogEvent::Sent(Sent::Failed(error))) => (
            CatalogFetch::Finished,
            CatalogAction::Finish(Err(joined("Failed to fetch games: ", error.as_str()))),
        ),
        (CatalogFetch::GamesAsked, CatalogEvent::Sent(Sent::Answered(status))) => {
            if status.is_success() {
                (CatalogFetch::OthersAsked, CatalogAction::Get(DISCORD_NON_GAMES_API_URL))
            } else {
                let text = status.text();
                (
                    CatalogFetch::Finished,
                    CatalogAction::Finish(Err(joined("API returned status: ", text.as_str()))),
                )
            }
        },
        (CatalogFetch::OthersAsked, CatalogEvent::Sent(Sent::Failed(error))) => (
            CatalogFetch::Finished,
            CatalogAction::Finish(Err(joined("Failed to fetch games: ", error.as_str()))),
        ),
        (CatalogFetch::OthersAsked, CatalogEvent::Sent(Sent::Answered(status))) => (
            CatalogFetch::ReadingGames { others_came: status.is_success() },
            CatalogAction::ReadGames,
        ),
        (CatalogFetch::ReadingGames { .. }, CatalogEvent::Read(Err(error))) => (
            CatalogFetch::Finished,
            CatalogAction::Finish(Err(joined("Failed to parse response: ", error.as_str()))),
        ),
        (CatalogFetch::ReadingGames { others_came }, CatalogEvent::Read(Ok(games))) => {
            if others_came {
                (CatalogFetch::ReadingOthers { games }, CatalogAction::ReadOthers)
            } else {
                (CatalogFetch::Finished, CatalogAction::Finish(Ok(offered(games))))
            }
        },
        (CatalogFetch::ReadingOthers { .. }, CatalogEvent::Read(Err(error))) => (
            CatalogFetch::Finished,
            CatalogAction::Finish(Err(joined("Failed to parse response: ", error.as_str()))),
        ),
        (CatalogFetch::ReadingOthers { games }, CatalogEvent::Read(Ok(others))) => {
            let ghost first = games@;
            let ghost second = others@;
            let mut all = games;
            let mut more = others;
            all.append(&mut more);
            assert(game_views(first + second) =~= game_views(first) + game_views(second));
            (CatalogFetch::Finished, CatalogAction::Finish(Ok(offered(all))))
        },
        (state, _) => (state, CatalogAction::Wait),
    }
}

/// What comes back in the course of a fetch, whatever is asked for.
pub struct CatalogReplies {
    pub games_sent: SentView,
    pub others_sent: SentView,
    pub games_read: Result<Seq<GameView>, Seq<char>>,
    pub others_read: Result<Seq<GameView>, Seq<char>>,
}

/// What comes back when an action is carried out.
pub open spec fn catalog_reply(
    action: CatalogActionView,
    replies: CatalogReplies,
) -> CatalogEventView {
    match action {
        CatalogActionView::Get(url) => CatalogEventView::Sent(
            if url == "https://discord.com/api/v9/games/detectable"@ {
                replies.games_sent
            } else {
                replies.others_sent
            },
        ),
        CatalogActionView::ReadGames => CatalogEventView::Read(replies.games_read),
        CatalogActionView::ReadOthers => CatalogEventView::Read(replies.others_read),
        _ => CatalogEventView::Begin,
    }
}

/// The result of a fetch that is carried on for a number of steps, if it has
/// one by then.
pub open spec fn catalog_run(
    state: CatalogFetchView,
    event: CatalogEventView,
    replies: CatalogReplies,
    steps: nat,
) -> Option<Result<Seq<GameView>, Seq<char>>>
    decreases steps,
{
    let (next, action) = catalog_next(state, event);
    if action is Finish {
        Some(action->Finish_0)
    } else if steps == 0 {
        None
    } else {
        catalog_run(next, catalog_reply(action, replies), replies, (steps - 1) as nat)
    }
}

/// The result that the replies call for.
pub open spec fn catalog_outcome(replies: CatalogReplies) -> Result<Seq<GameView>, Seq<char>> {
    match (replies.games_sent, replies.others_sent) {
        (SentView::Failed(error), _) => Err("Failed to fetch games: "@ + error),
        (SentView::Answered(code), _) if !success(code) => Err(
            "API returned status: "@ + status_text(code),
        ),
        (_, SentView::Failed(error)) => Err("Failed to fetch games: "@ + error),
        (_, SentView::Answered(code)) => match (replies.games_read, replies.others_read) {
            (Err(error), _) => Err("Failed to parse response: "@ + error),
            (Ok(games), _) if !success(code) => Ok(listed_only(games)),
            (Ok(_), Err(error)) => Err("Failed to parse response: "@ + error),
            (Ok(games), Ok(others)) => Ok(listed_only(games + others)),
        },
    }
}

/// A fetch of the catalogue comes to its end with the result that the replies
/// call for: the games must be answered and readable; the other applications
/// are left out when their request is answered with a failure.
pub proof fn catalog_fetch_ends(replies: CatalogReplies)
    ensures
        catalog_run(CatalogFetchView::Start, CatalogEventView::Begin, replies, 4) == Some(
            catalog_outcome(replies),
        ),
{
    reveal_with_fuel(catalog_run, 5);
    reveal_strlit("https://discord.com/api/v9/games/detectable");
    reveal_strlit("https://discord.com/api/v9/applications/non-games/detectable");
    assert("https://discord.com/api/v9/games/detectable"@.len()
        != "https://discord.com/api/v9/applications/non-games/detectable"@.len());
}

/// A fetched catalogue holds exactly those of the entries that came which can
/// be started, by an executable or by a Steam app id.
pub proof fn fetched_games_are_listed(games: Seq<GameView>, game: GameView)
    ensures
        listed_only(games).contains(game) <==> games.contains(game) && game.listed(),
{
    let keep = |g: GameView| g.listed();
    if listed_only(games).contains(game) {
        games.lemma_filter_contains_rev(keep, game);
        let i = choose|i: int| 0 <= i < listed_only(games).len() && listed_only(games)[i] == game;
        games.lemma_filter_pred(keep, i);
    }
    if games.contains(game) && game.listed() {
        let i = choose|i: int| 0 <= i < games.len() && games[i] == game;
        games.lemma_filter_contains(keep, i);
    }
}

// The catalogue, from the cache or anew.

/// The catalogue that is handed out, and whether it was taken from the cache.
#[derive(Debug)]
pub struct FetchGamesResponse {
    pub games: Vec<Game>,
    pub from_cache: bool,
}

/// What a `FetchGamesResponse` says.
pub struct ResponseView {
    pub games: Seq<GameView>,
    pub from_cache: bool,
}

impl View for FetchGamesResponse {
    type V = ResponseView;

    open spec fn view(&self) -> ResponseView {
        ResponseView { games: game_views(self.games@), from_cache: self.from_cache }
    }
}

/// How far the catalogue has been provided.
#[derive(Debug)]
pub enum GamesRequest {
    Start { force_refresh: bool },
    /// The cached catalogue is being read.
    ReadingCache,
    /// The catalogue is being fetched.
    Fetching,
    /// The fetched catalogue is being written to the cache.
    Storing { games: Vec<Game> },
    /// There is nothing left to be done.
    Finished,
}

/// What came back.
#[derive(Debug)]
pub enum GamesEvent {
    /// The catalogue was asked for.
    Begin,
    /// The cached catalogue, if one could be read.
    CacheRead(Option<CacheData>),
    /// The fetched catalogue, or why it could not be fetched.
    Fetched(Result<Vec<Game>, String>),
    /// The catalogue was written to the cache, or could not be.
    Stored,
}

/// What is to be done next.
#[derive(Debug)]
pub enum GamesAction {
    ReadCache,
    Fetch,
    /// Write the catalogue to the cache. Whether that works does not matter.
    Store(Vec<Game>),
    Finish(Result<FetchGamesResponse, String>),
    /// Nothing: what came back was not awaited.
    Wait,
}

/// What a `GamesRequest` says.
pub enum GamesRequestView {
    Start { force_refresh: bool },
    ReadingCache,
    Fetching,
    Storing { games: Seq<GameView> },
    Finished,
}

/// What a `GamesEvent` says.
pub enum GamesEventView {
    Begin,
    CacheRead(Option<CacheView>),
    Fetched(Result<Seq<GameView>, Seq<char>>),
    Stored,
}

/// What a `GamesAction` says.
pub enum GamesActionView {
    ReadCache,
    Fetch,
    Store(Seq<GameView>),
    Finish(Result<ResponseView, Seq<char>>),
    Wait,
}

impl View for GamesRequest {
    type V = GamesRequestView;

    open spec fn view(&self) -> GamesRequestView {
        match self {
            GamesRequest::Start { force_refresh } => GamesRequestView::Start {
                force_refresh: *force_refresh,
            },
            GamesRequest::ReadingCache => GamesRequestView::ReadingCache,
            GamesRequest::Fetching => GamesRequestView::Fetching,
            GamesRequest::Storing { games } => GamesRequestView::Storing {
                games: game_views(games@),
            },
            GamesRequest::Finished => GamesRequestView::Finished,
        }
    }
}

impl View for GamesEvent {
    type V = GamesEventView;

    open spec fn view(&self) -> GamesEventView {
        match self {
            GamesEvent::Begin => GamesEventView::Begin,
            GamesEvent::CacheRead(cache) => GamesEventView::CacheRead(
                match cache {
                    Some(data) => Some(data@),
                    None => None,
                },
            ),
            GamesEvent::Fetched(result) => GamesEventView::Fetched(games_result_view(*result)),
            GamesEvent::Stored => GamesEventView::Stored,
        }
    }
}

impl View for GamesAction {
    type V = GamesActionView;

    open spec fn view(&self) -> GamesActionView {
        match self {
            GamesAction::ReadCache => GamesActionView::ReadCache,
            GamesAction::Fetch => GamesActionView::Fetch,
            GamesAction::Store(games) => GamesActionView::Store(game_views(games@)),
            GamesAction::Finish(Ok(response)) => GamesActionView::Finish(Ok(response@)),
            GamesAction::Finish(Err(error)) => GamesActionView::Finish(Err(error@)),
            GamesAction::Wait => GamesActionView::Wait,
        }
    }
}

/// What follows from what came back at a given time, and what is to be done
/// next.
pub open spec fn games_next(state: GamesRequestView, event: GamesEventView, now: Moment) -> (
    GamesRequestView,
    GamesActionView,
) {
    match (state, event) {
        (GamesRequestView::Start { force_refresh }, GamesEventView::Begin) => if force_refresh {
            (GamesRequestView::Fetching, GamesActionView::Fetch)
        } else {
            (GamesRequestView::ReadingCache, GamesActionView::ReadCache)
        },
        (GamesRequestView::ReadingCache, GamesEventView::CacheRead(Some(cache))) => if still_valid(
            now,
            cache.timestamp,
        ) {
            (
                GamesRequestView::Finished,
                GamesActionView::Finish(Ok(ResponseView { games: cache.games, from_cache: true })),
            )
        } else {
            (GamesRequestView::Fetching, GamesActionView::Fetch)
        },
        (GamesRequestView::ReadingCache, GamesEventView::CacheRead(None)) => (
            GamesRequestView::Fetching,
            GamesActionView::Fetch,
        ),
        (GamesRequestView::Fetching, GamesEventView::Fetched(Err(error))) => (
            GamesRequestView::Finished,
            GamesActionView::Finish(Err(error)),
        ),
        (GamesRequestView::Fetching, GamesEventView::Fetched(Ok(games))) => (
            GamesRequestView::Storing { games },
            GamesActionView::Store(games),
        ),
        (GamesRequestView::Storing { games }, GamesEventView::Stored) => (
            GamesRequestView::Finished,
            GamesActionView::Finish(Ok(ResponseView { games, from_cache: false })),
        ),
        _ => (state, GamesActionView::Wait),
    }
}

/// Whether what follows depends on the time: only a cached catalogue that was
/// read is judged by it.
pub open spec fn judged_by_time(state: GamesRequestView, event: GamesEventView) -> bool {
    state is ReadingCache && event matches GamesEventView::CacheRead(Some(_))
}

/// Takes what came back and says what is to be done next, where that does not
/// depend on the time.
fn fetch_games_anytime(state: GamesRequest, event: GamesEvent) -> (r: (
    GamesRequest,
    GamesAction,
))
    requires
        !judged_by_time(state@, event@),
    ensures
        forall|now: Moment| (r.0@, r.1@) == #[trigger] games_next(state@, event@, now),
{
    match (state, event) {
        (GamesRequest::Start { force_refresh }, GamesEvent::Begin) => {
            if force_refresh {
                (GamesRequest::Fetching, GamesAction::Fetch)
            } else {
                (GamesRequest::ReadingCache, GamesAction::ReadCache)
            }
        },
        (GamesRequest::ReadingCache, GamesEvent::CacheRead(None)) => (
            GamesRequest::Fetching,
            GamesAction::Fetch,
        ),
        (GamesRequest::Fetching, GamesEvent::Fetched(Err(error))) => (
            GamesRequest::Finished,
            GamesAction::Finish(Err(error)),
        ),
        (GamesRequest::Fetching, GamesEvent::Fetched(Ok(games))) => {
            let stored = clone_games(games.as_slice());
            (GamesRequest::Storing { games }, GamesAction::Store(stored))
        },
        (GamesRequest::Storing { games }, GamesEvent::Stored) => {
            let response = FetchGamesResponse { games, from_cache: false };
            (GamesRequest::Finished, GamesAction::Finish(Ok(response)))
        },
        (state, _) => (state, GamesAction::Wait),
    }
}

/// Judges a cached catalogue that was read: it is handed out while it counts,
/// else the catalogue is fetched.
fn judge_cache(cache: CacheData, now: Timestamp) -> (r: (GamesRequest, GamesAction))
    ensures
        (r.0@, r.1@) == games_next(
            GamesRequestView::ReadingCache,
            GamesEventView::CacheRead(Some(cache@)),
            now@,
        ),
{
    if is_cache_valid_at(&cache, now) {
        let response = FetchGamesResponse { games: cache.games, from_cache: true };
        (GamesRequest::Finished, GamesAction::Finish(Ok(response)))
    } else {
        (GamesRequest::Fetching, GamesAction::Fetch)
    }
}

/// Takes what came back at a given time and says what is to be done next to
/// provide the catalogue.
pub fn fetch_games_at(state: GamesRequest, event: GamesEvent, now: Timestamp) -> (r: (
    GamesRequest,
    GamesAction,
))
    ensures
        (r.0@, r.1@) == games_next(state@, event@, now@),
{
    match (state, event) {
        (GamesRequest::ReadingCache, GamesEvent::CacheRead(Some(cache))) => judge_cache(
            cache,
            now,
        ),
        (state, event) => fetch_games_anytime(state, event),
    }
}

/// Takes what came back and says what is to be done next to provide the
/// catalogue. The clock is read only to judge a cached catalogue.
pub fn fetch_games(state: GamesRequest, event: GamesEvent) -> (r: (GamesRequest, GamesAction))
    ensures
        if judged_by_time(state@, event@) {
            exists|now: Moment|
                clock_reading(now) && clock_gave(now) && (r.0@, r.1@) == #[trigger] games_next(
                    state@,
                    event@,
                    now,
                )
        } else {
            forall|now: Moment| (r.0@, r.1@) == #[trigger] games_next(state@, event@, now)
        },
{
    let ghost given = (state@, event@);
    match (state, event) {
        (GamesRequest::ReadingCache, GamesEvent::CacheRead(Some(cache))) => {
            let now = Timestamp::now();
            let next = judge_cache(cache, now);
            assert(clock_gave(now@) && (next.0@, next.1@) == games_next(
                given.0,
                given.1,
                now@,
            ));
            next
        },
        (state, event) => fetch_games_anytime(state, event),
    }
}

/// What comes back when an action is carried out: the cached catalogue, if any,
/// or the fetched one.
pub open spec fn games_reply(
    action: GamesActionView,
    cache: Option<CacheView>,
    fetched: Result<Seq<GameView>, Seq<char>>,
) -> GamesEventView {
    match action {
        GamesActionView::ReadCache => GamesEventView::CacheRead(cache),
        GamesActionView::Fetch => GamesEventView::Fetched(fetched),
        GamesActionView::Store(_) => GamesEventView::Stored,
        _ => GamesEventView::Begin,
    }
}

/// The result of a request that is carried on for a number of steps, if it has
/// one by then. `clock` gives the time at each step, by the steps that are left.
pub open spec fn games_run(
    state: GamesRequestView,
    event: GamesEventView,
    cache: Option<CacheView>,
    fetched: Result<Seq<GameView>, Seq<char>>,
    clock: spec_fn(nat) -> Moment,
    steps: nat,
) -> Option<Result<ResponseView, Seq<char>>>
    decreases steps,
{
    let (next, action) = games_next(state, event, clock(steps));
    if action is Finish {
        Some(action->Finish_0)
    } else if steps == 0 {
        None
    } else {
        games_run(
            next,
            games_reply(action, cache, fetched),
            cache,
            fetched,
            clock,
            (steps - 1) as nat,
        )
    }
}

/// The catalogue is taken from the cache exactly when no refresh is forced and
/// there is a cached catalogue that still counts when it is read. Otherwise the
/// result is that of the fetch.
pub proof fn games_request_ends(
    force_refresh: bool,
    cache: Option<CacheView>,
    fetched: Result<Seq<GameView>, Seq<char>>,
    clock: spec_fn(nat) -> Moment,
)
    ensures
        games_run(
            GamesRequestView::Start { force_refresh },
            GamesEventView::Begin,
            cache,
            fetched,
            clock,
            3,
        ) == Some(
            if !force_refresh && cache is Some && still_valid(clock(2), cache->0.timestamp) {
                Ok(ResponseView { games: cache->0.games, from_cache: true })
            } else {
                match fetched {
                    Ok(games) => Ok(ResponseView { games, from_cache: false }),
                    Err(error) => Err(error),
                }
            },
        ),
{
    reveal_with_fuel(games_run, 4);
}

/// What is stored of a fetched catalogue is what a request without a forced
/// refresh hands out for as long as it counts.
pub proof fn stored_catalogue_is_served(
    games: Seq<GameView>,
    fetched_at: Moment,
    stored_at: Moment,
    now: Moment,
)
    requires
        still_valid(now, stored_at),
    ensures
        ({
            let (_, stored) = games_next(
                GamesRequestView::Fetching,
                GamesEventView::Fetched(Ok(games)),
                fetched_at,
            );
            &&& stored is Store
            &&& games_next(
                GamesRequestView::ReadingCache,
                GamesEventView::CacheRead(
                    Some(CacheView { timestamp: stored_at, games: stored->Store_0 }),
                ),
                now,
            ).1 == GamesActionView::Finish(Ok(ResponseView { games, from_cache: true }))
        }),
{
}

// The information on a Steam app.

/// How far the information on an app has been fetched.
#[derive(Debug)]
pub enum SteamFetch {
    Start,
    /// The information was asked for.
    Asked,
    /// The answer is being read.
    Reading,
    /// There is nothing left to be done.
    Finished,
}

/// What came back.
#[derive(Debug)]
pub enum SteamEvent {
    /// The information was asked for.
    Begin,
    /// What became of the request.
    Sent(Sent),
    /// The bytes of the answer, or why they could not be read.
    Read(Result<Vec<u8>, String>),
}

/// What is to be done next.
#[derive(Debug)]
pub enum SteamAction {
    /// Send a request.
    Get(String),
    /// Read the answer.
    ReadBody,
    /// Hand out the install directory and the candidates.
    Finish(Result<(String, Vec<String>), String>),
    /// Nothing: what came back was not awaited.
    Wait,
}

/// What a `SteamEvent` says.
pub enum SteamEventView {
    Begin,
    Sent(SentView),
    Read(Result<Seq<u8>, Seq<char>>),
}

/// What a `SteamAction` says.
pub enum SteamActionView {
    Get(Seq<char>),
    ReadBody,
    Finish(Result<(Seq<char>, Seq<Seq<char>>), Seq<char>>),
    Wait,
}

impl View for SteamEvent {
    type V = SteamEventView;

    open spec fn view(&self) -> SteamEventView {
        match self {
            SteamEvent::Begin => SteamEventView::Begin,
            SteamEvent::Sent(sent) => SteamEventView::Sent(sent@),
            SteamEvent::Read(Ok(body)) => SteamEventView::Read(Ok(body@)),
            SteamEvent::Read(Err(error)) => SteamEventView::Read(Err(error@)),
        }
    }
}

impl View for SteamAction {
    type V = SteamActionView;

    open spec fn view(&self) -> SteamActionView {
        match self {
            SteamAction::Get(url) => SteamActionView::Get(url@),
            SteamAction::ReadBody => SteamActionView::ReadBody,
            SteamAction::Finish(info) => SteamActionView::Finish(info_view(*info)),
            SteamAction::Wait => SteamActionView::Wait,
        }
    }
}

/// What a parsed answer gives for an app; an answer that is no JSON gives an
/// error.
pub open spec fn answer_info(app_id: Seq<char>, parsed: Option<JsonView>) -> Result<
    (Seq<char>, Seq<Seq<char>>),
    Seq<char>,
> {
    match parsed {
        Some(reply) => launch_info(app_id, reply),
        None => Err("Failed to parse SteamCMD response: error decoding response body"@),
    }
}

/// What follows from what came back, and what is to be done next.
pub open spec fn steam_next(state: SteamFetch, app_id: Seq<char>, event: SteamEventView) -> (
    SteamFetch,
    SteamActionView,
) {
    match (state, event) {
        (SteamFetch::Start, SteamEventView::Begin) => (
            SteamFetch::Asked,
            SteamActionView::Get("https://api.steamcmd.net/v1/info"@ + "/"@ + app_id),
        ),
        (SteamFetch::Asked, SteamEventView::Sent(SentView::Failed(error))) => (
            SteamFetch::Finished,
            SteamActionView::Finish(Err("Failed to reach SteamCMD info API: "@ + error)),
        ),
        (SteamFetch::Asked, SteamEventView::Sent(SentView::Answered(code))) => if success(code) {
            (SteamFetch::Reading, SteamActionView::ReadBody)
        } else {
            (
                SteamFetch::Finished,
                SteamActionView::Finish(
                    Err("SteamCMD info API returned status: "@ + status_text(code)),
                ),
            )
        },
        (SteamFetch::Reading, SteamEventView::Read(Err(error))) => (
            SteamFetch::Finished,
            SteamActionView::Finish(Err("Failed to parse SteamCMD response: "@ + error)),
        ),
        (SteamFetch::Reading, SteamEventView::Read(Ok(body))) => (
            SteamFetch::Finished,
            SteamActionView::Finish(answer_info(app_id, parsed_json(body))),
        ),
        _ => (state, SteamActionView::Wait),
    }
}

/// Reads the information on an app from a parsed answer. The error for an
/// answer that is no JSON has the words of the HTTP client for a body that it
/// cannot decode.
pub fn read_answer(app_id: &str, parsed: Option<Json>) -> (r: Result<
    (String, Vec<String>),
    String,
>)
    ensures
        info_view(r) == answer_info(
            app_id@,
            match parsed {
                Some(reply) => Some(reply@),
                None => None,
            },
        ),
{
    match parsed {
        Some(reply) => read_launch_info(app_id, &reply),
        None => Err(
            "Failed to parse SteamCMD response: error decoding response body".to_owned(),
        ),
    }
}

/// Takes what came back and says what is to be done next to fetch the
/// information on an app.
pub fn fetch_steam_launch_info(state: SteamFetch, app_id: &str, event: SteamEvent) -> (r: (
    SteamFetch,
    SteamAction,
))
    ensures
        (r.0, r.1@) == steam_next(state, app_id@, event@),
{
    match (state, event) {
        (SteamFetch::Start, SteamEvent::Begin) => (
            SteamFetch::Asked,
            SteamAction::Get(steam_info_url(app_id)),
        ),
        (SteamFetch::Asked, SteamEvent::Sent(Sent::Failed(error))) => (
            SteamFetch::Finished,
            SteamAction::Finish(
                Err(joined("Failed to reach SteamCMD info API: ", error.as_str())),
            ),
        ),
        (SteamFetch::Asked, SteamEvent::Sent(Sent::Answered(status))) => {
            if status.is_success() {
                (SteamFetch::Reading, SteamAction::ReadBody)
            } else {
                let text = status.text();
                let message = joined("SteamCMD info API returned status: ", text.as_str());
                (SteamFetch::Finished, SteamAction::Finish(Err(message)))
            }
        },
        (SteamFetch::Reading, SteamEvent::Read(Err(error))) => (
            SteamFetch::Finished,
            SteamAction::Finish(
                Err(joined("Failed to parse SteamCMD response: ", error.as_str())),
            ),
        ),
        (SteamFetch::Reading, SteamEvent::Read(Ok(body))) => {
            let parsed = parse_json(body.as_slice());
            (SteamFetch::Finished, SteamAction::Finish(read_answer(app_id, parsed)))
        },
        (state, _) => (state, SteamAction::Wait),
    }
}

/// Hands the information on an app to the user.
pub fn resolve_steam_launch_info(info: Result<(String, Vec<String>), String>) -> (r: Result<
    SteamLaunchInfo,
    String,
>)
    ensures
        match (info, r) {
            (Ok((installdir, candidates)), Ok(offer)) => offer.installdir == installdir
                && offer.candidates == candidates,
            (Err(error), Err(same)) => same == error,
            _ => false,
        },
{
    match info {
        Ok((installdir, candidates)) => Ok(SteamLaunchInfo { installdir, candidates }),
        Err(error) => Err(error),
    }
}

/// The result of a fetch that is carried on for a number of steps, if it has
/// one by then, whatever the request and the read come to.
pub open spec fn steam_run(
    state: SteamFetch,
    app_id: Seq<char>,
    event: SteamEventView,
    sent: SentView,
    read: Result<Seq<u8>, Seq<char>>,
    steps: nat,
) -> Option<Result<(Seq<char>, Seq<Seq<char>>), Seq<char>>>
    decreases steps,
{
    let (next, action) = steam_next(state, app_id, event);
    if action is Finish {
        Some(action->Finish_0)
    } else if steps == 0 {
        None
    } else {
        let reply = match action {
            SteamActionView::Get(_) => SteamEventView::Sent(sent),
            SteamActionView::ReadBody => SteamEventView::Read(read),
            _ => SteamEventView::Begin,
        };
        steam_run(next, app_id, reply, sent, read, (steps - 1) as nat)
    }
}

/// A fetch of the information on an app comes to its end, with what the body of
/// a successful answer says or with the error that stands in the way.
pub proof fn steam_fetch_ends(
    app_id: Seq<char>,
    sent: SentView,
    read: Result<Seq<u8>, Seq<char>>,
)
    ensures
        steam_run(SteamFetch::Start, app_id, SteamEventView::Begin, sent, read, 2) == Some(
            match (sent, read) {
                (SentView::Failed(error), _) => Err(
                    "Failed to reach SteamCMD info API: "@ + error,
                ),
                (SentView::Answered(code), _) if !success(code) => Err(
                    "SteamCMD info API returned status: "@ + status_text(code),
                ),
                (_, Err(error)) => Err("Failed to parse SteamCMD response: "@ + error),
                (_, Ok(body)) => answer_info(app_id, parsed_json(body)),
            },
        ),
{
    reveal_with_fuel(steam_run, 3);
}

// What a request comes to.

/// A cached catalogue that was read is handed out exactly when less than 172800
/// seconds have passed since its time; an older one is never handed out, and the
/// catalogue is fetched. Neither time is written as a leap second.
pub proof fn expired_catalogue_is_never_served(cache: CacheView, now: Moment)
    requires
        now.nanos < 1_000_000_000,
        cache.timestamp.nanos < 1_000_000_000,
    ensures
        games_next(
            GamesRequestView::ReadingCache,
            GamesEventView::CacheRead(Some(cache)),
            now,
        ) == if (now.secs - cache.timestamp.secs) * 1_000_000_000 + (now.nanos
            - cache.timestamp.nanos) < 172_800_000_000_000 {
            (
                GamesRequestView::Finished,
                GamesActionView::Finish(
                    Ok(ResponseView { games: cache.games, from_cache: true }),
                ),
            )
        } else {
            (GamesRequestView::Fetching, GamesActionView::Fetch)
        },
{
    counts_for_two_days(now, cache.timestamp);
}

/// Whether a game can be started: an executable of it is known, or a Steam
/// product of it carries an id.
pub open spec fn startable(game: GameView) -> bool {
    ||| game.executables is Some && game.executables->0.len() > 0
    ||| game.third_party_skus is Some && exists|i: int, id: Seq<char>|
        steam_product_at(game.third_party_skus->0, i, id)
}

/// A fetch succeeds exactly when both requests are answered, the first with a
/// code of the two hundreds, and what is read of them can be read; the second
/// answer is read only when its code is one of the two hundreds. A fetched
/// catalogue holds exactly the entries that were read and can be started, those
/// of the first list before those of the second and each list in its order.
pub proof fn fetched_catalogue_is_what_can_be_started(replies: CatalogReplies)
    ensures
        ({
            let end = catalog_run(
                CatalogFetchView::Start,
                CatalogEventView::Begin,
                replies,
                4,
            );
            let with_others = replies.others_sent is Answered && 200
                <= replies.others_sent->Answered_0 < 300;
            &&& end is Some
            &&& end->0 is Ok <==> {
                &&& replies.games_sent is Answered
                &&& 200 <= replies.games_sent->Answered_0 < 300
                &&& replies.others_sent is Answered
                &&& replies.games_read is Ok
                &&& with_others ==> replies.others_read is Ok
            }
            &&& end->0 is Ok ==> end->0->Ok_0 == replies.games_read->Ok_0.filter(
                |g: GameView| startable(g),
            ) + (if with_others {
                replies.others_read->Ok_0.filter(|g: GameView| startable(g))
            } else {
                Seq::empty()
            })
        }),
{
    catalog_fetch_ends(replies);
    let keep = |g: GameView| startable(g);
    let listed = |g: GameView| g.listed();
    assert forall|g: GameView| #[trigger] keep(g) == listed(g) by {
        listed_games_can_be_started(g);
    }
    assert(keep =~= listed);
    if replies.games_read is Ok && replies.others_read is Ok {
        Seq::filter_distributes_over_add(
            replies.games_read->Ok_0,
            replies.others_read->Ok_0,
            listed,
        );
    }
    if replies.games_read is Ok {
        let games = replies.games_read->Ok_0.filter(keep);
        assert(games + Seq::<GameView>::empty() =~= games);
    }
}

/// The information on an app is asked for under its id, as it is given, behind
/// the address of the service, and nothing else is ever asked for.
pub proof fn an_app_is_asked_for_by_its_id(
    state: SteamFetch,
    app_id: Seq<char>,
    event: SteamEventView,
)
    ensures
        steam_next(SteamFetch::Start, app_id, SteamEventView::Begin).1 == SteamActionView::Get(
            "https://api.steamcmd.net/v1/info/"@ + app_id,
        ),
        steam_next(state, app_id, event).1 is Get ==> state is Start && event is Begin,
{
    reveal_strlit("https://api.steamcmd.net/v1/info");
    reveal_strlit("/");
    reveal_strlit("https://api.steamcmd.net/v1/info/");
    assert("https://api.steamcmd.net/v1/info"@ + "/"@ + app_id
        =~= "https://api.steamcmd.net/v1/info/"@ + app_id);
}

} // verus!
