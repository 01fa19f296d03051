//! The favorite games, and the file that keeps them.

use vstd::prelude::*;

use crate::text::same_text;
use crate::text::views;

verus! {

/// The name of the directory that holds the file with the favorites.
pub const CONFIG_DIR_NAME: &'static str = "disactivity";

/// The name of the file that holds the favorites.
pub const FAVORITES_FILE_NAME: &'static str = "disactivity_favorites.json";

/// The list of texts that a JSON text writes, if it writes one.
pub uninterp spec fn parsed_json_list(text: Seq<char>) -> Option<Seq<Seq<char>>>;

/// The JSON text of a list of texts.
pub uninterp spec fn json_list_text(list: Seq<Seq<char>>) -> Seq<char>;

/// `serde_json::from_str` into a list of texts: whether the text is a JSON array
/// of strings, and which, depends on the text alone.
#[verifier::external_body]
fn parse_list(text: &str) -> (r: Result<Vec<String>, serde_json::Error>)
    ensures
        match r {
            Ok(list) => parsed_json_list(text@) == Some(views(list@)),
            Err(_) => parsed_json_list(text@) is None,
        },
{
    serde_json::from_str(text)
}

/// `serde_json::to_string` of a list of texts: it fails only on values that
/// refuse to be written and on maps, so never here. The text depends on the
/// list alone, and `serde_json::from_str` reads the same list back from it.
#[verifier::external_body]
fn write_list(list: &Vec<String>) -> (r: Result<String, serde_json::Error>)
    ensures
        r is Ok,
        r->Ok_0@ == json_list_text(views(list@)),
        parsed_json_list(r->Ok_0@) == Some(views(list@)),
{
    serde_json::to_string(list)
}

/// A set of game ids.
#[derive(Debug)]
pub struct Favorites {
    ids: Vec<String>,
}

impl View for Favorites {
    type V = Set<Seq<char>>;

    closed spec fn view(&self) -> Set<Seq<char>> {
        views(self.ids@).to_set()
    }
}

impl Favorites {
    #[verifier::type_invariant]
    spec fn valid(self) -> bool {
        views(self.ids@).no_duplicates()
    }

    /// No favorites.
    pub fn new() -> (r: Favorites)
        ensures
            r@ == Set::<Seq<char>>::empty(),
    {
        let ids: Vec<String> = Vec::new();
        assert(views(ids@) =~= Seq::<Seq<char>>::empty());
        assert(views(ids@).to_set() =~= Set::<Seq<char>>::empty());
        Favorites { ids }
    }

    /// The place of a game among the favorites, if it is one.
    fn find(&self, game_id: &str) -> (r: Option<usize>)
        ensures
            match r {
                Some(i) => i < self.ids@.len() && self.ids@[i as int]@ == game_id@
                    && self@.contains(game_id@),
                None => !self@.contains(game_id@),
            },
    {
        let ghost all = views(self.ids@);
        let mut i: usize = 0;
        while i < self.ids.len()
            invariant
                i <= self.ids.len(),
                all == views(self.ids@),
                forall|k: int| 0 <= k < i ==> all[k] != game_id@,
            decreases self.ids.len() - i,
        {
            assert(all[i as int] == self.ids@[i as int]@);
            if same_text(self.ids[i].as_str(), game_id) {
                assert(all.contains(game_id@));
                return Some(i);
            }
            i += 1;
        }
        None
    }

    /// Whether a game is a favorite.
    pub fn contains(&self, game_id: &str) -> (r: bool)
        ensures
            r == self@.contains(game_id@),
    {
        self.find(game_id).is_some()
    }

    /// Makes a game a favorite.
    pub fn insert(&mut self, game_id: String)
        ensures
            final(self)@ == old(self)@.insert(game_id@),
    {
        proof {
            use_type_invariant(&*self);
        }
        if self.find(game_id.as_str()).is_some() {
            assert(self@.insert(game_id@) =~= self@);
            return;
        }
        let mut ids: Vec<String> = Vec::new();
        std::mem::swap(&mut ids, &mut self.ids);
        let ghost before = views(ids@);
        ids.push(game_id);
        proof {
            let after = views(ids@);
            assert(after =~= before.push(game_id@));
            assert(!before.contains(game_id@));
            assert(after.no_duplicates());
            assert forall|id: Seq<char>| after.to_set().contains(id) == before.to_set().insert(
                game_id@,
            ).contains(id) by {
                if before.contains(id) {
                    let k = choose|k: int| 0 <= k < before.len() && before[k] == id;
                    assert(after[k] == id);
                }
                if id == game_id@ {
                    assert(after[before.len() as int] == id);
                }
            }
            assert(after.to_set() =~= before.to_set().insert(game_id@));
        }
        self.ids = ids;
    }

    /// Makes a game no favorite any more.
    pub fn remove(&mut self, game_id: &str)
        ensures
            final(self)@ == old(self)@.remove(game_id@),
    {
        proof {
            use_type_invariant(&*self);
        }
        match self.find(game_id) {
            Some(at) => {
                let mut ids: Vec<String> = Vec::new();
                std::mem::swap(&mut ids, &mut self.ids);
                let ghost before = views(ids@);
                let _ = ids.remove(at);
                proof {
                    let after = views(ids@);
                    assert(before[at as int] == game_id@);
                    assert(after =~= before.remove(at as int));
                    assert forall|k: int, l: int|
                        0 <= k < after.len() && 0 <= l < after.len() && k != l implies after[k]
                        != after[l] by {
                        let i = if k < at { k } else { k + 1 };
                        let j = if l < at { l } else { l + 1 };
                        assert(before[i] != before[j]);
                    }
                    assert forall|id: Seq<char>|
                        after.to_set().contains(id) == before.to_set().remove(
                            game_id@,
                        ).contains(id) by {
                        if after.contains(id) {
                            let k = choose|k: int| 0 <= k < after.len() && after[k] == id;
                            let i = if k < at { k } else { k + 1 };
                            assert(before[i] == id);
                            assert(before[i] != before[at as int]);
                        }
                        if before.contains(id) && id != game_id@ {
                            let i = choose|i: int| 0 <= i < before.len() && before[i] == id;
                            let k = if i < at { i } else { i - 1 };
                            assert(after[k] == id);
                        }
                    }
                    assert(after.to_set() =~= before.to_set().remove(game_id@));
                }
                self.ids = ids;
            },
            None => {
                assert(self@.remove(game_id@) =~= self@);
            },
        }
    }

    /// The favorites, each once.
    pub fn into_vec(self) -> (r: Vec<String>)
        ensures
            views(r@).no_duplicates(),
            views(r@).to_set() == self@,
    {
        proof {
            use_type_invariant(&self);
        }
        self.ids
    }
}

/// The favorites in a list that was read; none when it could not be read.
pub open spec fn favorites_of(parsed: Option<Seq<Seq<char>>>) -> Set<Seq<char>> {
    match parsed {
        Some(list) => list.to_set(),
        None => Set::empty(),
    }
}

/// The favorites that the content of the file stands for. There are none when
/// there is no file or it cannot be read.
pub open spec fn stored_favorites(content: Option<Seq<char>>) -> Set<Seq<char>> {
    match content {
        Some(text) => favorites_of(parsed_json_list(text)),
        None => Set::empty(),
    }
}

/// The content of the file, when there is one.
pub open spec fn content_view(content: Option<&str>) -> Option<Seq<char>> {
    match content {
        Some(text) => Some(text@),
        None => None,
    }
}

/// Makes a set of the favorites in a list that was read.
pub fn favorites_from(parsed: Option<Vec<String>>) -> (r: Favorites)
    ensures
        r@ == favorites_of(
            match parsed {
                Some(list) => Some(views(list@)),
                None => None,
            },
        ),
{
    let mut out = Favorites::new();
    if let Some(list) = parsed {
        let ghost all = views(list@);
        assert(all.take(0).to_set() =~= Set::<Seq<char>>::empty());
        for id in it: list
            invariant
                it.seq() == list@,
                all == views(list@),
                out@ == all.take(it.index()).to_set(),
        {
            proof {
                let before = all.take(it.index());
                let after = all.take(it.index() + 1);
                assert(all[it.index()] == id@);
                assert(after =~= before.push(id@));
                assert forall|x: Seq<char>| after.to_set().contains(x) == before.to_set().insert(
                    id@,
                ).contains(x) by {
                    if before.contains(x) {
                        let k = choose|k: int| 0 <= k < before.len() && before[k] == x;
                        assert(after[k] == x);
                    }
                    if x == id@ {
                        assert(after[before.len() as int] == x);
                    }
                }
                assert(after.to_set() =~= before.to_set().insert(id@));
            }
            out.insert(id);
        }
        assert(all.take(all.len() as int) =~= all);
    }
    out
}

/// Reads the favorites from the content of their file, if there is one.
pub fn read_favorites(content: Option<&str>) -> (r: Favorites)
    ensures
        r@ == stored_favorites(content_view(content)),
{
    match content {
        Some(text) => match parse_list(text) {
            Ok(list) => favorites_from(Some(list)),
            Err(_) => favorites_from(None),
        },
        None => Favorites::new(),
    }
}

/// Whether a text is the JSON text of a list that holds each of the favorites
/// once, in some order, and can be read again.
pub open spec fn writes(text: Seq<char>, favorites: Set<Seq<char>>) -> bool {
    &&& stored_favorites(Some(text)) == favorites
    &&& exists|list: Seq<Seq<char>>|
        {
            &&& list.no_duplicates()
            &&& list.to_set() == favorites
            &&& text == #[trigger] json_list_text(list)
        }
}

/// Writes the favorites as the content of their file, from which they can be
/// read again.
pub fn write_favorites(favorites: &Favorites) -> (r: Result<String, String>)
    ensures
        r is Ok,
        writes(r->Ok_0@, favorites@),
{
    proof {
        use_type_invariant(favorites);
    }
    match write_list(&favorites.ids) {
        Ok(text) => Ok(text),
        Err(error) => Err(error.to_string()),
    }
}

/// The favorites in the file, each once.
pub fn get_favorites(content: Option<&str>) -> (r: Vec<String>)
    ensures
        views(r@).no_duplicates(),
        views(r@).to_set() == stored_favorites(content_view(content)),
{
    read_favorites(content).into_vec()
}

/// Makes a game a favorite: the new content of the file.
pub fn add_favorite(content: Option<&str>, game_id: String) -> (r: Result<String, String>)
    ensures
        r is Ok,
        writes(r->Ok_0@, stored_favorites(content_view(content)).insert(game_id@)),
{
    let mut favorites = read_favorites(content);
    favorites.insert(game_id);
    write_favorites(&favorites)
}

/// Makes a game no favorite any more: the new content of the file.
pub fn remove_favorite(content: Option<&str>, game_id: &str) -> (r: Result<String, String>)
    ensures
        r is Ok,
        writes(r->Ok_0@, stored_favorites(content_view(content)).remove(game_id@)),
{
    let mut favorites = read_favorites(content);
    favorites.remove(game_id);
    write_favorites(&favorites)
}

/// The favorites with one game made a favorite if it was none, and none if it
/// was one.
pub open spec fn toggled(favorites: Set<Seq<char>>, game_id: Seq<char>) -> Set<Seq<char>> {
    if favorites.contains(game_id) {
        favorites.remove(game_id)
    } else {
        favorites.insert(game_id)
    }
}

/// Makes a game a favorite if it was none, and none if it was one: the new
/// content of the file, and whether the game is a favorite now.
pub fn toggle_favorite(content: Option<&str>, game_id: String) -> (r: Result<
    (String, bool),
    String,
>)
    ensures
        r is Ok,
        writes((r->Ok_0).0@, toggled(stored_favorites(content_view(content)), game_id@)),
        (r->Ok_0).1 == !stored_favorites(content_view(content)).contains(game_id@),
{
    let mut favorites = read_favorites(content);
    let is_favorite: bool = if favorites.contains(game_id.as_str()) {
        favorites.remove(game_id.as_str());
        false
    } else {
        favorites.insert(game_id);
        true
    };
    match write_favorites(&favorites) {
        Ok(text) => Ok((text, is_favorite)),
        Err(error) => Err(error),
    }
}

/// Toggling says truly whether the game is a favorite now, concerns no other
/// game, and is undone by toggling again.
pub proof fn toggling_twice_restores(
    favorites: Set<Seq<char>>,
    game_id: Seq<char>,
    other_id: Seq<char>,
)
    ensures
        toggled(favorites, game_id).contains(game_id) == !favorites.contains(game_id),
        other_id != game_id ==> toggled(favorites, game_id).contains(other_id)
            == favorites.contains(other_id),
        toggled(toggled(favorites, game_id), game_id) == favorites,
{
    assert(toggled(toggled(favorites, game_id), game_id) =~= favorites);
}

/// Adding twice is adding once, and removing undoes adding.
pub proof fn removing_undoes_adding(favorites: Set<Seq<char>>, game_id: Seq<char>)
    ensures
        favorites.insert(game_id).insert(game_id) == favorites.insert(game_id),
        !favorites.contains(game_id) ==> favorites.insert(game_id).remove(game_id) == favorites,
{
    assert(favorites.insert(game_id).insert(game_id) =~= favorites.insert(game_id));
    if !favorites.contains(game_id) {
        assert(favorites.insert(game_id).remove(game_id) =~= favorites);
    }
}

/// A game is a favorite exactly when the file can be read as a list and the list
/// holds its id, wherever and however often.
pub proof fn favorites_are_what_the_list_holds(content: Option<Seq<char>>, game_id: Seq<char>)
    ensures
        stored_favorites(content).contains(game_id) <==> {
            &&& content is Some
            &&& parsed_json_list(content->0) is Some
            &&& exists|i: int|
                0 <= i < parsed_json_list(content->0)->0.len() && #[trigger] parsed_json_list(
                    content->0,
                )->0[i] == game_id
        },
{
    if content is Some && parsed_json_list(content->0) is Some {
        let list = parsed_json_list(content->0)->0;
        assert(list.to_set().contains(game_id) <==> list.contains(game_id));
    }
}

} // verus!
