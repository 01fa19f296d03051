//! The games that run at present, by their ids.

use vstd::prelude::*;

use crate::paths::{Location, LocationView};
use crate::text::same_text;
use crate::text::views;

verus! {

/// Where the executable of a running game was put, and what is to be removed
/// when the game is stopped.
#[derive(Debug)]
pub enum CleanupTarget {
    /// Everything lies in a directory for temporary files.
    TempDir(Location),
    /// A manifest and an install directory were put into a Steam library.
    SteamFake { manifest_path: Location, install_dir: Location },
}

/// What a `CleanupTarget` says.
pub enum CleanupView {
    TempDir(LocationView),
    SteamFake { manifest_path: LocationView, install_dir: LocationView },
}

impl View for CleanupTarget {
    type V = CleanupView;

    open spec fn view(&self) -> CleanupView {
        match self {
            CleanupTarget::TempDir(dir) => CleanupView::TempDir(dir@),
            CleanupTarget::SteamFake { manifest_path, install_dir } => CleanupView::SteamFake {
                manifest_path: manifest_path@,
                install_dir: install_dir@,
            },
        }
    }
}

/// A running game: its process, and what is to be removed after it.
#[derive(Debug)]
pub struct RunningGame<P> {
    pub process: P,
    pub cleanup: CleanupTarget,
}

/// The running games, each under its own id.
#[derive(Debug)]
pub struct RunningGames<P> {
    entries: Vec<(String, RunningGame<P>)>,
}

/// The games under their ids.
pub open spec fn by_id<P>(entries: Seq<(String, RunningGame<P>)>) -> Map<Seq<char>, RunningGame<P>>
    decreases entries.len(),
{
    if entries.len() == 0 {
        Map::empty()
    } else {
        by_id(entries.drop_last()).insert(entries.last().0@, entries.last().1)
    }
}

/// Whether no id occurs twice.
pub open spec fn ids_unique<P>(entries: Seq<(String, RunningGame<P>)>) -> bool {
    forall|i: int, j: int|
        0 <= i < j < entries.len() ==> (#[trigger] entries[i]).0@ != (#[trigger] entries[j]).0@
}

proof fn lemma_by_id<P>(entries: Seq<(String, RunningGame<P>)>)
    requires
        ids_unique(entries),
    ensures
        forall|i: int|
            0 <= i < entries.len() ==> by_id(entries).contains_key((#[trigger] entries[i]).0@)
                && by_id(entries)[entries[i].0@] == entries[i].1,
        forall|id: Seq<char>| #[trigger]
            by_id(entries).contains_key(id) ==> exists|i: int|
                0 <= i < entries.len() && (#[trigger] entries[i]).0@ == id,
    decreases entries.len(),
{
    if entries.len() > 0 {
        let rest = entries.drop_last();
        assert(ids_unique(rest));
        lemma_by_id(rest);
        assert forall|i: int| 0 <= i < entries.len() implies by_id(entries).contains_key(
            (#[trigger] entries[i]).0@,
        ) && by_id(entries)[entries[i].0@] == entries[i].1 by {
            if i < rest.len() {
                assert(rest[i] == entries[i]);
                assert(entries[i].0@ != entries[entries.len() - 1].0@);
            }
        }
        assert forall|id: Seq<char>| #[trigger] by_id(entries).contains_key(id) implies exists|
            i: int,
        | 0 <= i < entries.len() && (#[trigger] entries[i]).0@ == id by {
            if id == entries.last().0@ {
                assert(entries[entries.len() - 1].0@ == id);
            } else {
                assert(by_id(rest).contains_key(id));
                let i = choose|i: int| 0 <= i < rest.len() && (#[trigger] rest[i]).0@ == id;
                assert(entries[i] == rest[i]);
            }
        }
    }
}

proof fn lemma_without<P>(entries: Seq<(String, RunningGame<P>)>, at: int)
    requires
        ids_unique(entries),
        0 <= at < entries.len(),
    ensures
        ids_unique(entries.remove(at)),
        by_id(entries.remove(at)) == by_id(entries).remove(entries[at].0@),
{
    let fewer = entries.remove(at);
    let id = entries[at].0@;
    assert forall|i: int, j: int| 0 <= i < j < fewer.len() implies (#[trigger] fewer[i]).0@ != (
    #[trigger] fewer[j]).0@ by {
        let k = if i < at { i } else { i + 1 };
        let l = if j < at { j } else { j + 1 };
        assert(entries[k].0@ != entries[l].0@);
    }
    lemma_by_id(entries);
    lemma_by_id(fewer);
    let expected = by_id(entries).remove(id);
    assert forall|key: Seq<char>|
        (#[trigger] by_id(fewer).contains_key(key)) == expected.contains_key(key) && (by_id(
            fewer,
        ).contains_key(key) ==> by_id(fewer)[key] == expected[key]) by {
        if by_id(fewer).contains_key(key) {
            let i = choose|i: int| 0 <= i < fewer.len() && (#[trigger] fewer[i]).0@ == key;
            let k = if i < at { i } else { i + 1 };
            assert(entries[k] == fewer[i]);
            assert(k != at);
            if k < at {
                assert(entries[k].0@ != entries[at].0@);
            } else {
                assert(entries[at].0@ != entries[k].0@);
            }
        }
        if expected.contains_key(key) {
            assert(by_id(entries).contains_key(key));
            let k = choose|k: int| 0 <= k < entries.len() && (#[trigger] entries[k]).0@ == key;
            let i = if k < at { k } else { k - 1 };
            assert(fewer[i] == entries[k]);
        }
    }
    assert(by_id(fewer) =~= expected);
}

impl<P> View for RunningGames<P> {
    type V = Map<Seq<char>, RunningGame<P>>;

    closed spec fn view(&self) -> Map<Seq<char>, RunningGame<P>> {
        by_id(self.entries@)
    }
}

impl<P> RunningGames<P> {
    #[verifier::type_invariant]
    spec fn valid(self) -> bool {
        ids_unique(self.entries@)
    }

    /// No running games.
    pub fn new() -> (r: RunningGames<P>)
        ensures
            r@ == Map::<Seq<char>, RunningGame<P>>::empty(),
    {
        RunningGames { entries: Vec::new() }
    }

    /// The place of an id among the entries, if it is there.
    fn find(&self, id: &str) -> (r: Option<usize>)
        ensures
            match r {
                Some(i) => i < self.entries@.len() && self.entries@[i as int].0@ == id@
                    && self@.contains_key(id@) && self@[id@] == self.entries@[i as int].1,
                None => !self@.contains_key(id@),
            },
    {
        proof {
            use_type_invariant(self);
            lemma_by_id(self.entries@);
        }
        let mut i: usize = 0;
        while i < self.entries.len()
            invariant
                i <= self.entries.len(),
                forall|k: int| 0 <= k < i ==> (#[trigger] self.entries@[k]).0@ != id@,
                forall|k: int|
                    0 <= k < self.entries@.len() ==> self@.contains_key(
                        (#[trigger] self.entries@[k]).0@,
                    ) && self@[self.entries@[k].0@] == self.entries@[k].1,
            decreases self.entries.len() - i,
        {
            if same_text(self.entries[i].0.as_str(), id) {
                return Some(i);
            }
            i += 1;
        }
        None
    }

    /// Whether a game runs.
    pub fn contains(&self, id: &str) -> (r: bool)
        ensures
            r == self@.contains_key(id@),
    {
        self.find(id).is_some()
    }

    /// Takes a game out, if it runs.
    pub fn remove(&mut self, id: &str) -> (r: Option<RunningGame<P>>)
        ensures
            final(self)@ == old(self)@.remove(id@),
            match r {
                Some(game) => old(self)@.contains_key(id@) && game == old(self)@[id@],
                None => !old(self)@.contains_key(id@),
            },
    {
        proof {
            use_type_invariant(&*self);
        }
        match self.find(id) {
            Some(at) => {
                let mut entries: Vec<(String, RunningGame<P>)> = Vec::new();
                std::mem::swap(&mut entries, &mut self.entries);
                proof {
                    lemma_without(entries@, at as int);
                }
                let entry = entries.remove(at);
                self.entries = entries;
                Some(entry.1)
            },
            None => {
                assert(self@.remove(id@) =~= self@);
                None
            },
        }
    }

    /// Puts a game under an id and hands back the game that was there.
    pub fn insert(&mut self, id: String, game: RunningGame<P>) -> (r: Option<RunningGame<P>>)
        ensures
            final(self)@ == old(self)@.insert(id@, game),
            match r {
                Some(before) => old(self)@.contains_key(id@) && before == old(self)@[id@],
                None => !old(self)@.contains_key(id@),
            },
    {
        let ghost all = self@;
        let before = self.remove(id.as_str());
        proof {
            use_type_invariant(&*self);
            lemma_by_id(self.entries@);
        }
        let mut entries: Vec<(String, RunningGame<P>)> = Vec::new();
        std::mem::swap(&mut entries, &mut self.entries);
        let ghost rest = entries@;
        entries.push((id, game));
        proof {
            assert(entries@.drop_last() =~= rest);
            assert forall|i: int, j: int| 0 <= i < j < entries@.len() implies (
            #[trigger] entries@[i]).0@ != (#[trigger] entries@[j]).0@ by {
                if j == rest.len() {
                    assert(by_id(rest).contains_key(rest[i].0@));
                    assert(!by_id(rest).contains_key(id@));
                }
            }
            assert(by_id(entries@) =~= all.insert(id@, game));
        }
        self.entries = entries;
        before
    }

    /// The ids of the running games, each once.
    pub fn ids(&self) -> (r: Vec<String>)
        ensures
            views(r@).no_duplicates(),
            views(r@).to_set() == self@.dom(),
    {
        proof {
            use_type_invariant(self);
            lemma_by_id(self.entries@);
        }
        let mut out: Vec<String> = Vec::new();
        let mut i: usize = 0;
        while i < self.entries.len()
            invariant
                i <= self.entries.len(),
                out@.len() == i,
                forall|k: int| 0 <= k < i ==> (#[trigger] out@[k])@ == self.entries@[k].0@,
            decreases self.entries.len() - i,
        {
            out.push(self.entries[i].0.clone());
            i += 1;
        }
        proof {
            let ids = views(out@);
            assert forall|k: int, l: int| 0 <= k < ids.len() && 0 <= l < ids.len() && k
                != l implies ids[k] != ids[l] by {
                assert(ids[k] == out@[k]@ && ids[l] == out@[l]@);
                if k < l {
                    assert(self.entries@[k].0@ != self.entries@[l].0@);
                } else {
                    assert(self.entries@[l].0@ != self.entries@[k].0@);
                }
            }
            assert forall|id: Seq<char>| ids.to_set().contains(id) == self@.dom().contains(id) by {
                if ids.contains(id) {
                    let k = choose|k: int| 0 <= k < ids.len() && ids[k] == id;
                    assert(ids[k] == out@[k]@);
                    assert(self@.contains_key(self.entries@[k].0@));
                }
                if self@.contains_key(id) {
                    let k = choose|k: int|
                        0 <= k < self.entries@.len() && (#[trigger] self.entries@[k]).0@ == id;
                    assert(ids[k] == out@[k]@);
                    assert(ids.contains(id));
                }
            }
            assert(ids.to_set() =~= self@.dom());
        }
        out
    }

    /// Takes all games out.
    pub fn drain(&mut self) -> (r: Vec<(String, RunningGame<P>)>)
        ensures
            final(self)@ == Map::<Seq<char>, RunningGame<P>>::empty(),
            by_id(r@) == old(self)@,
            ids_unique(r@),
    {
        proof {
            use_type_invariant(&*self);
        }
        let mut entries: Vec<(String, RunningGame<P>)> = Vec::new();
        std::mem::swap(&mut entries, &mut self.entries);
        entries
    }
}

} // verus!
