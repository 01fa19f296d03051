//! The catalogue of detectable games, and the rules that read it.

use vstd::prelude::*;

use crate::text::{byte_len, chars_of, count_either, same_text};
use crate::text::{occurrences, views};

verus! {

/// One executable by which a game is recognised.
#[derive(Debug)]
pub struct Executable {
    pub name: String,
    pub os: Option<String>,
}

/// A product of a store that sells a game. Some entries carry no id.
#[derive(Debug)]
pub struct ThirdPartySku {
    pub distributor: String,
    pub id: Option<String>,
}

/// One entry of the catalogue.
#[derive(Debug)]
pub struct Game {
    pub id: String,
    pub name: String,
    pub icon_hash: Option<String>,
    pub executables: Option<Vec<Executable>>,
    pub aliases: Vec<String>,
    pub third_party_skus: Option<Vec<ThirdPartySku>>,
}

/// What an `Executable` says.
pub struct ExecutableView {
    pub name: Seq<char>,
    pub os: Option<Seq<char>>,
}

/// What a `ThirdPartySku` says.
pub struct SkuView {
    pub distributor: Seq<char>,
    pub id: Option<Seq<char>>,
}

/// What a `Game` says.
pub struct GameView {
    pub id: Seq<char>,
    pub name: Seq<char>,
    pub icon_hash: Option<Seq<char>>,
    pub executables: Option<Seq<ExecutableView>>,
    pub aliases: Seq<Seq<char>>,
    pub third_party_skus: Option<Seq<SkuView>>,
}

/// The view of a text that may be missing.
pub open spec fn optional_view(t: Option<String>) -> Option<Seq<char>> {
    match t {
        Some(s) => Some(s@),
        None => None,
    }
}

impl View for Executable {
    type V = ExecutableView;

    open spec fn view(&self) -> ExecutableView {
        ExecutableView { name: self.name@, os: optional_view(self.os) }
    }
}

impl View for ThirdPartySku {
    type V = SkuView;

    open spec fn view(&self) -> SkuView {
        SkuView { distributor: self.distributor@, id: optional_view(self.id) }
    }
}

/// The views of a list of executables.
pub open spec fn executable_views(list: Seq<Executable>) -> Seq<ExecutableView> {
    list.map_values(|e: Executable| e@)
}

/// The views of a list of products.
pub open spec fn sku_views(list: Seq<ThirdPartySku>) -> Seq<SkuView> {
    list.map_values(|s: ThirdPartySku| s@)
}

/// The views of a list of games.
pub open spec fn game_views(list: Seq<Game>) -> Seq<GameView> {
    list.map_values(|g: Game| g@)
}

impl View for Game {
    type V = GameView;

    open spec fn view(&self) -> GameView {
        GameView {
            id: self.id@,
            name: self.name@,
            icon_hash: optional_view(self.icon_hash),
            executables: match self.executables {
                Some(list) => Some(executable_views(list@)),
                None => None,
            },
            aliases: views(self.aliases@),
            third_party_skus: match self.third_party_skus {
                Some(list) => Some(sku_views(list@)),
                None => None,
            },
        }
    }
}

/// Copies a text that may be missing.
pub fn clone_optional(t: &Option<String>) -> (r: Option<String>)
    ensures
        optional_view(r) == optional_view(*t),
{
    match t {
        Some(s) => Some(s.clone()),
        None => None,
    }
}

/// Copies a list of texts.
pub fn clone_texts(list: &Vec<String>) -> (r: Vec<String>)
    ensures
        views(r@) == views(list@),
{
    let mut out: Vec<String> = Vec::new();
    let mut i: usize = 0;
    while i < list.len()
        invariant
            i <= list.len(),
            views(out@) == views(list@.take(i as int)),
        decreases list.len() - i,
    {
        let ghost before = out@;
        out.push(list[i].clone());
        assert(views(out@) =~= views(before).push(list@[i as int]@));
        assert(views(list@.take(i + 1)) =~= views(list@.take(i as int)).push(list@[i as int]@));
        i += 1;
    }
    assert(list@.take(list@.len() as int) =~= list@);
    out
}

impl Clone for Executable {
    fn clone(&self) -> (r: Self)
        ensures
            r@ == self@,
    {
        Executable { name: self.name.clone(), os: clone_optional(&self.os) }
    }
}

impl Clone for ThirdPartySku {
    fn clone(&self) -> (r: Self)
        ensures
            r@ == self@,
    {
        ThirdPartySku { distributor: self.distributor.clone(), id: clone_optional(&self.id) }
    }
}

fn clone_executables(list: &Vec<Executable>) -> (r: Vec<Executable>)
    ensures
        executable_views(r@) == executable_views(list@),
{
    let mut out: Vec<Executable> = Vec::new();
    let mut i: usize = 0;
    while i < list.len()
        invariant
            i <= list.len(),
            executable_views(out@) == executable_views(list@.take(i as int)),
        decreases list.len() - i,
    {
        let ghost before = out@;
        out.push(list[i].clone());
        assert(executable_views(out@) =~= executable_views(before).push(list@[i as int]@));
        assert(executable_views(list@.take(i + 1)) =~= executable_views(list@.take(i as int)).push(
            list@[i as int]@,
        ));
        i += 1;
    }
    assert(list@.take(list@.len() as int) =~= list@);
    out
}

fn clone_skus(list: &Vec<ThirdPartySku>) -> (r: Vec<ThirdPartySku>)
    ensures
        sku_views(r@) == sku_views(list@),
{
    let mut out: Vec<ThirdPartySku> = Vec::new();
    let mut i: usize = 0;
    while i < list.len()
        invariant
            i <= list.len(),
            sku_views(out@) == sku_views(list@.take(i as int)),
        decreases list.len() - i,
    {
        let ghost before = out@;
        out.push(list[i].clone());
        assert(sku_views(out@) =~= sku_views(before).push(list@[i as int]@));
        assert(sku_views(list@.take(i + 1)) =~= sku_views(list@.take(i as int)).push(
            list@[i as int]@,
        ));
        i += 1;
    }
    assert(list@.take(list@.len() as int) =~= list@);
    out
}

impl Clone for Game {
    fn clone(&self) -> (r: Self)
        ensures
            r@ == self@,
    {
        Game {
            id: self.id.clone(),
            name: self.name.clone(),
            icon_hash: clone_optional(&self.icon_hash),
            executables: match &self.executables {
                Some(list) => Some(clone_executables(list)),
                None => None,
            },
            aliases: clone_texts(&self.aliases),
            third_party_skus: match &self.third_party_skus {
                Some(list) => Some(clone_skus(list)),
                None => None,
            },
        }
    }
}

/// Copies a list of games.
pub fn clone_games(list: &[Game]) -> (r: Vec<Game>)
    ensures
        game_views(r@) == game_views(list@),
{
    let mut out: Vec<Game> = Vec::new();
    let mut i: usize = 0;
    while i < list.len()
        invariant
            i <= list.len(),
            game_views(out@) == game_views(list@.take(i as int)),
        decreases list.len() - i,
    {
        let ghost before = out@;
        out.push(list[i].clone());
        assert(game_views(out@) =~= game_views(before).push(list@[i as int]@));
        assert(game_views(list@.take(i + 1)) =~= game_views(list@.take(i as int)).push(
            list@[i as int]@,
        ));
        i += 1;
    }
    assert(list@.take(list@.len() as int) =~= list@);
    out
}

/// The id of the first Steam product in a list that carries one.
pub open spec fn steam_id_in(skus: Seq<SkuView>) -> Option<Seq<char>>
    decreases skus.len(),
{
    if skus.len() == 0 {
        None
    } else if skus[0].distributor == "steam"@ && skus[0].id is Some {
        skus[0].id
    } else {
        steam_id_in(skus.drop_first())
    }
}

impl GameView {
    /// The Steam app id of a game, when the catalogue gives one.
    pub open spec fn steam_app_id(self) -> Option<Seq<char>> {
        match self.third_party_skus {
            Some(skus) => steam_id_in(skus),
            None => None,
        }
    }

    /// Whether the catalogue knows at least one executable of the game.
    pub open spec fn has_executables(self) -> bool {
        self.executables matches Some(list) && list.len() > 0
    }

    /// Whether a game is offered: it can be started by an executable, or its
    /// executable can be derived from its Steam app id.
    pub open spec fn listed(self) -> bool {
        self.has_executables() || self.steam_app_id() is Some
    }
}

/// The Steam app id of a game, if the catalogue lists one, whether or not it
/// also knows an executable of the game.
pub fn steam_app_id(game: &Game) -> (r: Option<&str>)
    ensures
        match r {
            Some(id) => game@.steam_app_id() == Some(id@),
            None => game@.steam_app_id() is None,
        },
{
    let skus = match &game.third_party_skus {
        Some(list) => list,
        None => {
            return None;
        },
    };
    let ghost all = sku_views(skus@);
    let mut i: usize = 0;
    assert(all.skip(0) =~= all);
    while i < skus.len()
        invariant
            i <= skus.len(),
            all == sku_views(skus@),
            game@.third_party_skus == Some(all),
            steam_id_in(all) == steam_id_in(all.skip(i as int)),
        decreases skus.len() - i,
    {
        assert(all.skip(i as int)[0] == skus@[i as int]@);
        if same_text(skus[i].distributor.as_str(), "steam") && skus[i].id.is_some() {
            return match &skus[i].id {
                Some(id) => Some(id.as_str()),
                None => None,
            };
        }
        assert(all.skip(i as int).drop_first() =~= all.skip(i + 1));
        i += 1;
    }
    None
}

/// Whether product `i` is one of Steam with a given id.
pub open spec fn steam_product_at(skus: Seq<SkuView>, i: int, id: Seq<char>) -> bool {
    &&& 0 <= i < skus.len()
    &&& skus[i].distributor == "steam"@
    &&& skus[i].id == Some(id)
}

/// A list gives a Steam app id exactly when one of its Steam products carries
/// an id, and it gives that of the first such product.
pub proof fn steam_id_is_found_if_listed(skus: Seq<SkuView>)
    ensures
        match steam_id_in(skus) {
            Some(id) => exists|i: int|
                {
                    &&& #[trigger] steam_product_at(skus, i, id)
                    &&& forall|j: int, other: Seq<char>|
                        0 <= j < i ==> !#[trigger] steam_product_at(skus, j, other)
                },
            None => forall|i: int, id: Seq<char>| !#[trigger] steam_product_at(skus, i, id),
        },
    decreases skus.len(),
{
    if skus.len() > 0 {
        let rest = skus.drop_first();
        steam_id_is_found_if_listed(rest);
        if skus[0].distributor == "steam"@ && skus[0].id is Some {
            assert(steam_product_at(skus, 0, skus[0].id->0));
        } else {
            assert forall|i: int, id: Seq<char>| #[trigger]
                steam_product_at(skus, i, id) implies steam_product_at(rest, i - 1, id) by {
                assert(i > 0);
            }
            if let Some(id) = steam_id_in(rest) {
                let i = choose|i: int|
                    {
                        &&& #[trigger] steam_product_at(rest, i, id)
                        &&& forall|j: int, other: Seq<char>|
                            0 <= j < i ==> !#[trigger] steam_product_at(rest, j, other)
                    };
                assert(steam_product_at(skus, i + 1, id));
            }
        }
    }
}

/// A game is offered exactly when it can be started: its list of executables is
/// not empty, whatever its products are, or one of its Steam products carries an
/// id, whatever its executables are.
pub proof fn listed_games_can_be_started(game: GameView)
    ensures
        game.listed() <==> {
            ||| game.executables is Some && game.executables->0.len() > 0
            ||| game.third_party_skus is Some && exists|i: int, id: Seq<char>|
                steam_product_at(game.third_party_skus->0, i, id)
        },
{
    if let Some(skus) = game.third_party_skus {
        steam_id_is_found_if_listed(skus);
    }
}

/// One more way to start a game never takes it off the catalogue: neither do
/// executables that become known, nor products that are added.
pub proof fn more_ways_to_start_keep_a_game_listed(
    game: GameView,
    executables: Seq<ExecutableView>,
    skus: Seq<SkuView>,
)
    requires
        game.listed(),
    ensures
        executables.len() > 0 ==> (GameView { executables: Some(executables), ..game }).listed(),
        (GameView {
            third_party_skus: Some(
                match game.third_party_skus {
                    Some(before) => before + skus,
                    None => skus,
                },
            ),
            ..game
        }).listed(),
{
    listed_games_can_be_started(game);
    let known = GameView { executables: Some(executables), ..game };
    listed_games_can_be_started(known);
    let all = match game.third_party_skus {
        Some(before) => before + skus,
        None => skus,
    };
    let sold = GameView { third_party_skus: Some(all), ..game };
    listed_games_can_be_started(sold);
    if let Some(before) = game.third_party_skus {
        assert forall|i: int, id: Seq<char>|
            steam_product_at(before, i, id) implies steam_product_at(all, i, id) by {
        }
    }
}

/// Whether a game is offered.
pub fn is_listed(game: &Game) -> (r: bool)
    ensures
        r == game@.listed(),
{
    let has_executables = match &game.executables {
        Some(list) => list.len() > 0,
        None => false,
    };
    has_executables || steam_app_id(game).is_some()
}

/// Keeps the games that are offered, in their order.
pub fn keep_listed(games: Vec<Game>) -> (r: Vec<Game>)
    ensures
        r@ == games@.filter(|g: Game| g@.listed()),
{
    let ghost keep = |g: Game| g@.listed();
    let mut out: Vec<Game> = Vec::new();
    for game in it: games
        invariant
            it.seq() == games@,
            keep == (|g: Game| g@.listed()),
            out@ == games@.take(it.index()).filter(keep),
    {
        proof {
            reveal(Seq::filter);
            assert(games@.take(it.index() + 1).drop_last() =~= games@.take(it.index()));
        }
        if is_listed(&game) {
            out.push(game);
        }
    }
    assert(games@.take(games@.len() as int) =~= games@);
    out
}

impl ExecutableView {
    /// Whether an executable can stand for the game on Windows. A name that
    /// begins with `>` is a pattern for names, not a name.
    pub open spec fn suitable(self) -> bool {
        self.os == Some("win32"@) && !(self.name.len() > 0 && self.name[0] == '>')
    }

    /// The number of path separators in the name.
    pub open spec fn separators(self) -> nat {
        occurrences(self.name, '/') + occurrences(self.name, '\\')
    }

    /// The length of the name in bytes.
    pub open spec fn size(self) -> nat {
        vstd::utf8::encode_utf8(self.name).len()
    }

    /// Whether this name is simpler than the other: fewer path separators, or
    /// as many and shorter.
    pub open spec fn simpler_than(self, other: ExecutableView) -> bool {
        self.separators() < other.separators() || (self.separators() == other.separators()
            && self.size() < other.size())
    }
}

/// Whether entry `i` is the best choice: it is suitable, no suitable entry is
/// simpler, and it is simpler than every suitable entry before it.
pub open spec fn best_at(list: Seq<ExecutableView>, i: int) -> bool {
    &&& 0 <= i < list.len()
    &&& list[i].suitable()
    &&& forall|j: int|
        0 <= j < list.len() && #[trigger] list[j].suitable() ==> !list[j].simpler_than(list[i])
    &&& forall|j: int|
        0 <= j < i && #[trigger] list[j].suitable() ==> list[i].simpler_than(list[j])
}

/// The name of the best choice, if there is one.
pub open spec fn best_name(list: Seq<ExecutableView>) -> Option<Seq<char>> {
    if exists|i: int| best_at(list, i) {
        Some(list[choose|i: int| best_at(list, i)].name)
    } else {
        None
    }
}

/// At most one entry is the best choice.
pub proof fn best_choice_is_unique(list: Seq<ExecutableView>, i: int, j: int)
    requires
        best_at(list, i),
        best_at(list, j),
    ensures
        i == j,
{
    assert(list[i].suitable() && list[j].suitable());
}

/// The executables that can stand for the game on Windows, in their order.
pub open spec fn suitable_only(list: Seq<ExecutableView>) -> Seq<ExecutableView> {
    list.filter(|e: ExecutableView| e.suitable())
}

proof fn lemma_best_exists(list: Seq<ExecutableView>, i: int)
    requires
        0 <= i < list.len(),
        list[i].suitable(),
    ensures
        exists|b: int| best_at(list, b),
    decreases list.len(),
{
    let rest = list.drop_last();
    let last = list.len() - 1;
    if exists|k: int| 0 <= k < rest.len() && #[trigger] rest[k].suitable() {
        let k = choose|k: int| 0 <= k < rest.len() && #[trigger] rest[k].suitable();
        lemma_best_exists(rest, k);
        let b = choose|b: int| best_at(rest, b);
        assert(rest[b] == list[b]);
        if list[last].suitable() && list[last].simpler_than(list[b]) {
            assert forall|j: int| 0 <= j < last && #[trigger] list[j].suitable() implies list[
                last
            ].simpler_than(list[j]) by {
                assert(rest[j].suitable());
            }
            assert(best_at(list, last));
        } else {
            assert forall|j: int| 0 <= j < list.len() && #[trigger] list[j].suitable() implies !list[
                j
            ].simpler_than(list[b]) by {
                if j < last {
                    assert(rest[j].suitable());
                }
            }
            assert forall|j: int| 0 <= j < b && #[trigger] list[j].suitable() implies list[
                b
            ].simpler_than(list[j]) by {
                assert(rest[j].suitable());
            }
            assert(best_at(list, b));
        }
    } else {
        assert forall|j: int| 0 <= j < last implies !#[trigger] list[j].suitable() by {
            assert(!rest[j].suitable());
        }
        assert(best_at(list, last));
    }
}

proof fn lemma_best_stays(list: Seq<ExecutableView>, i: int)
    requires
        best_at(list, i),
    ensures
        exists|k: int| #[trigger]
            best_at(suitable_only(list), k) && suitable_only(list)[k] == list[i],
{
    let keep = |e: ExecutableView| e.suitable();
    let head = list.take(i);
    let tail = list.skip(i + 1);
    let one = seq![list[i]];
    let kept = suitable_only(list);
    assert(list =~= head + (one + tail));
    Seq::filter_distributes_over_add(head, one + tail, keep);
    Seq::filter_distributes_over_add(one, tail, keep);
    assert(one.filter(keep) =~= one) by {
        reveal(Seq::filter);
        assert(one.drop_last() =~= Seq::<ExecutableView>::empty());
    }
    let k = head.filter(keep).len() as int;
    assert(kept[k] == list[i]);
    assert forall|j: int| 0 <= j < kept.len() && #[trigger] kept[j].suitable() implies !kept[
        j
    ].simpler_than(kept[k]) by {
        assert(kept.contains(kept[j]));
        list.lemma_filter_contains_rev(keep, kept[j]);
        let at = choose|at: int| 0 <= at < list.len() && list[at] == kept[j];
        assert(list[at].suitable());
    }
    assert forall|j: int| 0 <= j < k && #[trigger] kept[j].suitable() implies kept[
        k
    ].simpler_than(kept[j]) by {
        assert(kept[j] == head.filter(keep)[j]);
        assert(head.filter(keep).contains(kept[j]));
        head.lemma_filter_contains_rev(keep, kept[j]);
        let at = choose|at: int| 0 <= at < head.len() && head[at] == kept[j];
        assert(list[at].suitable());
    }
    assert(best_at(kept, k));
}

/// Executables that cannot stand for the game, because they are not for Windows
/// or their name is a pattern, never change the choice.
pub proof fn only_suitable_executables_count(list: Seq<ExecutableView>)
    ensures
        best_name(list) == best_name(suitable_only(list)),
{
    let keep = |e: ExecutableView| e.suitable();
    let kept = suitable_only(list);
    if exists|i: int| best_at(list, i) {
        let i = choose|i: int| best_at(list, i);
        lemma_best_stays(list, i);
        let k = choose|k: int| #[trigger] best_at(kept, k) && kept[k] == list[i];
        best_choice_is_unique(kept, k, choose|b: int| best_at(kept, b));
    } else if exists|k: int| best_at(kept, k) {
        let k = choose|k: int| best_at(kept, k);
        assert(kept.contains(kept[k]));
        list.lemma_filter_contains_rev(keep, kept[k]);
        let i = choose|i: int| 0 <= i < list.len() && list[i] == kept[k];
        lemma_best_exists(list, i);
    }
}

/// Whether a character separates the names in a path.
pub open spec fn separator(c: char) -> bool {
    c == '/' || c == '\\'
}

/// The number of characters in a name that are path separators.
pub open spec fn separator_count(name: Seq<char>) -> nat {
    name.filter(|c: char| separator(c)).len()
}

proof fn lemma_separators_are_counted(exe: ExecutableView)
    ensures
        exe.separators() == separator_count(exe.name),
    decreases exe.name.len(),
{
    reveal(Seq::filter);
    if exe.name.len() > 0 {
        lemma_separators_are_counted(ExecutableView { name: exe.name.drop_last(), ..exe });
    }
}

/// A name is simpler than another exactly when it holds fewer path separators,
/// whatever the lengths, or as many and takes fewer bytes.
pub proof fn fewer_separators_are_simpler(a: ExecutableView, b: ExecutableView)
    ensures
        a.simpler_than(b) <==> {
            ||| separator_count(a.name) < separator_count(b.name)
            ||| separator_count(a.name) == separator_count(b.name) && vstd::utf8::encode_utf8(
                a.name,
            ).len() < vstd::utf8::encode_utf8(b.name).len()
        },
{
    lemma_separators_are_counted(a);
    lemma_separators_are_counted(b);
}

/// One more separator in a name, wherever it stands, makes it less simple.
pub proof fn a_separator_more_is_less_simple(
    exe: ExecutableView,
    before: Seq<char>,
    after: Seq<char>,
    c: char,
)
    requires
        separator(c),
        exe.name == before + after,
    ensures
        exe.simpler_than(ExecutableView { name: before.push(c) + after, ..exe }),
{
    let longer = ExecutableView { name: before.push(c) + after, ..exe };
    let keep = |c: char| separator(c);
    fewer_separators_are_simpler(exe, longer);
    Seq::filter_distributes_over_add(before, after, keep);
    Seq::filter_distributes_over_add(before.push(c), after, keep);
    reveal(Seq::filter);
    assert(before.push(c).drop_last() =~= before);
}

/// An executable can stand for the game exactly when it is for `win32` and its
/// name is not something behind a `>`.
pub proof fn suitable_names_are_no_patterns(exe: ExecutableView)
    ensures
        exe.suitable() <==> exe.os == Some("win32"@) && !exists|rest: Seq<char>|
            exe.name == #[trigger] (seq!['>'] + rest),
{
    if exe.name.len() > 0 && exe.name[0] == '>' {
        assert(exe.name =~= seq!['>'] + exe.name.drop_first());
    }
    assert forall|rest: Seq<char>| exe.name == #[trigger] (seq!['>'] + rest) implies exe.name.len()
        > 0 && exe.name[0] == '>' by {
        assert((seq!['>'] + rest)[0] == '>');
    }
}

/// Whether one name goes before another: it holds fewer path separators, or as
/// many and takes fewer bytes.
pub open spec fn goes_before(name: Seq<char>, other: Seq<char>) -> bool {
    ||| separator_count(name) < separator_count(other)
    ||| separator_count(name) == separator_count(other) && vstd::utf8::encode_utf8(name).len()
        < vstd::utf8::encode_utf8(other).len()
}

/// Whether an executable is for `win32` and its name does not begin with `>`.
pub open spec fn for_windows(exe: ExecutableView) -> bool {
    exe.os == Some("win32"@) && (exe.name.len() > 0 ==> exe.name[0] != '>')
}

/// The name that is chosen is that of an executable for `win32` that is no
/// pattern; no such executable goes before it, and it goes before all such
/// executables that stand before it in the list. Nothing is chosen only when
/// there is none.
pub proof fn the_best_executable_is_chosen(list: Seq<ExecutableView>)
    ensures
        match best_name(list) {
            Some(name) => exists|i: int|
                {
                    &&& 0 <= i < list.len()
                    &&& (#[trigger] list[i]).name == name
                    &&& for_windows(list[i])
                    &&& forall|j: int|
                        0 <= j < list.len() && for_windows(#[trigger] list[j]) ==> !goes_before(
                            list[j].name,
                            name,
                        )
                    &&& forall|j: int|
                        0 <= j < i && for_windows(#[trigger] list[j]) ==> goes_before(
                            name,
                            list[j].name,
                        )
                },
            None => forall|j: int| 0 <= j < list.len() ==> !for_windows(#[trigger] list[j]),
        },
{
    if best_name(list) is Some {
        let i = choose|i: int| best_at(list, i);
        assert forall|j: int| 0 <= j < list.len() && for_windows(#[trigger] list[j]) implies {
            &&& !goes_before(list[j].name, list[i].name)
            &&& j < i ==> goes_before(list[i].name, list[j].name)
        } by {
            assert(list[j].suitable());
            fewer_separators_are_simpler(list[i], list[j]);
            fewer_separators_are_simpler(list[j], list[i]);
        }
        assert(list[i].name == best_name(list)->0);
        assert(for_windows(list[i]));
    } else {
        assert forall|j: int| 0 <= j < list.len() implies !for_windows(#[trigger] list[j]) by {
            if list[j].suitable() {
                lemma_best_exists(list, j);
            }
        }
    }
}

fn is_suitable(exe: &Executable) -> (r: bool)
    ensures
        r == exe@.suitable(),
{
    let on_windows = match &exe.os {
        Some(os) => same_text(os.as_str(), "win32"),
        None => false,
    };
    if !on_windows {
        return false;
    }
    let name = chars_of(exe.name.as_str());
    !(name.len() > 0 && name[0] == '>')
}

/// Selects the best executable for Windows: of those for `win32` whose name is
/// no pattern, the first with the fewest path separators and, among these, the
/// shortest name.
pub fn select_best_executable(executables: &[Executable]) -> (r: Option<String>)
    ensures
        match r {
            Some(name) => exists|i: int|
                best_at(executable_views(executables@), i) && name@ == executables@[i].name@,
            None => forall|i: int|
                0 <= i < executables@.len() ==> !(#[trigger] executables@[i])@.suitable(),
        },
        optional_view(r) == best_name(executable_views(executables@)),
{
    let ghost all = executable_views(executables@);
    let mut best: Option<usize> = None;
    let mut best_separators: usize = 0;
    let mut best_size: usize = 0;
    let mut i: usize = 0;
    while i < executables.len()
        invariant
            i <= executables.len(),
            all == executable_views(executables@),
            match best {
                Some(b) => {
                    &&& b < i
                    &&& best_at(all.take(i as int), b as int)
                    &&& best_separators == all[b as int].separators()
                    &&& best_size == all[b as int].size()
                },
                None => forall|j: int| 0 <= j < i ==> !(#[trigger] all[j]).suitable(),
            },
        decreases executables.len() - i,
    {
        let exe = &executables[i];
        assert(exe@ == all[i as int]);
        let ghost seen = all.take(i as int);
        let ghost next = all.take(i + 1);
        assert(forall|j: int| 0 <= j < i ==> next[j] == seen[j]);
        assert(next[i as int] == all[i as int]);
        if is_suitable(exe) {
            let separators = count_either(exe.name.as_str(), '/', '\\');
            let size = byte_len(exe.name.as_str());
            let better = match best {
                Some(_) => separators < best_separators || (separators == best_separators && size
                    < best_size),
                None => true,
            };
            if better {
                proof {
                    if best is Some {
                        let b = best->0 as int;
                        assert(next[i as int].simpler_than(next[b]));
                        assert forall|j: int| 0 <= j < i && #[trigger] next[j].suitable() implies
                            next[i as int].simpler_than(next[j]) by {
                            assert(seen[j].suitable());
                            assert(!seen[j].simpler_than(seen[b]));
                        }
                    } else {
                        assert forall|j: int| 0 <= j < i implies !#[trigger] next[j].suitable() by {
                            assert(!all[j].suitable());
                        }
                    }
                    assert(best_at(next, i as int));
                }
                best = Some(i);
                best_separators = separators;
                best_size = size;
            } else {
                proof {
                    let b = best->0 as int;
                    assert forall|j: int|
                        0 <= j < next.len() && #[trigger] next[j].suitable() implies
                        !next[j].simpler_than(next[b]) by {
                        if j < i {
                            assert(seen[j].suitable());
                        }
                    }
                    assert forall|j: int| 0 <= j < b && #[trigger] next[j].suitable() implies
                        next[b].simpler_than(next[j]) by {
                        assert(seen[j].suitable());
                    }
                    assert(best_at(next, b));
                }
            }
        } else {
            proof {
                if best is Some {
                    let b = best->0 as int;
                    assert forall|j: int|
                        0 <= j < next.len() && #[trigger] next[j].suitable() implies
                        !next[j].simpler_than(next[b]) by {
                        if j < i {
                            assert(seen[j].suitable());
                        }
                    }
                    assert forall|j: int| 0 <= j < b && #[trigger] next[j].suitable() implies
                        next[b].simpler_than(next[j]) by {
                        assert(seen[j].suitable());
                    }
                    assert(best_at(next, b));
                }
            }
        }
        i += 1;
    }
    assert(all.take(all.len() as int) =~= all);
    match best {
        Some(b) => {
            assert(best_at(all, b as int));
            proof {
                best_choice_is_unique(all, b as int, choose|k: int| best_at(all, k));
            }
            Some(executables[b].name.clone())
        },
        None => {
            assert forall|j: int| 0 <= j < executables@.len() implies !(
            #[trigger] executables@[j])@.suitable() by {
                assert(!all[j].suitable());
            }
            assert forall|j: int| !best_at(all, j) by {
                if 0 <= j < all.len() {
                    assert(!all[j].suitable());
                }
            }
            None
        },
    }
}

} // verus!
