//! Where files are put, as parts of a path below a known directory.

use vstd::prelude::*;

use crate::catalog::clone_texts;
use crate::text::{
    joined_by, lemma_pieces_of_two, pieces, pieces_hold_no_separator, replaced,
    splitting_undoes_joining, views,
};
use crate::text::{replace_char, split_on};

verus! {

/// The directory that a location is relative to.
#[derive(Debug, Clone, Copy, PartialEq, Eq, Structural)]
pub enum Base {
    /// The directory for temporary files.
    Temp,
    /// The directory where Steam is installed.
    Steam,
}

/// A file or directory: the parts of its path, to be joined one after the other
/// to the directory that it is relative to.
#[derive(Debug)]
pub struct Location {
    pub base: Base,
    pub parts: Vec<String>,
}

/// What a `Location` says.
pub struct LocationView {
    pub base: Base,
    pub parts: Seq<Seq<char>>,
}

impl View for Location {
    type V = LocationView;

    open spec fn view(&self) -> LocationView {
        LocationView { base: self.base, parts: views(self.parts@) }
    }
}

impl LocationView {
    /// The location some parts further down.
    pub open spec fn below(self, more: Seq<Seq<char>>) -> LocationView {
        LocationView { base: self.base, parts: self.parts + more }
    }

    /// Whether this location is `root` or lies somewhere below it, by the parts
    /// alone: a part such as `..` is not resolved.
    pub open spec fn within(self, root: LocationView) -> bool {
        &&& self.base == root.base
        &&& root.parts.len() <= self.parts.len()
        &&& self.parts.take(root.parts.len() as int) == root.parts
    }
}

impl Clone for Location {
    fn clone(&self) -> (r: Self)
        ensures
            r@ == self@,
    {
        Location { base: self.base, parts: clone_texts(&self.parts) }
    }
}

impl Location {
    /// The location one part further down.
    pub fn join(self, part: &str) -> (r: Location)
        ensures
            r@ == self@.below(seq![part@]),
    {
        let ghost before = self.parts@;
        let mut parts = self.parts;
        parts.push(part.to_owned());
        assert(views(parts@) =~= views(before) + seq![part@]);
        Location { base: self.base, parts }
    }

    /// The location some parts further down.
    pub fn join_all(self, more: &Vec<String>) -> (r: Location)
        ensures
            r@ == self@.below(views(more@)),
    {
        let ghost start = self@;
        let mut out = self;
        let mut i: usize = 0;
        assert(out@.parts =~= start.below(views(more@).take(0)).parts);
        while i < more.len()
            invariant
                i <= more.len(),
                out@ == start.below(views(more@).take(i as int)),
            decreases more.len() - i,
        {
            let ghost before = out@;
            out = out.join(more[i].as_str());
            proof {
                let named = views(more@);
                assert(named[i as int] == more@[i as int]@);
                assert(out@.parts =~= start.below(named.take(i + 1)).parts);
            }
            i += 1;
        }
        assert(views(more@).take(more@.len() as int) =~= views(more@));
        out
    }
}

/// The path of an executable with forward slashes only, in pieces.
pub open spec fn path_pieces(exe_path: Seq<char>) -> Seq<Seq<char>> {
    pieces(replaced(exe_path, '\\', '/'), '/')
}

/// The folders that the path of an executable names. Empty names are left out.
pub open spec fn path_folders(exe_path: Seq<char>) -> Seq<Seq<char>> {
    path_pieces(exe_path).drop_last().filter(|p: Seq<char>| p.len() > 0)
}

/// The file that the path of an executable names. It is empty when the path
/// ends in a separator.
pub open spec fn path_file(exe_path: Seq<char>) -> Seq<char> {
    path_pieces(exe_path).last()
}

/// The folders and the file that the path of an executable names.
pub fn split_executable_path(exe_path: &str) -> (r: (Vec<String>, String))
    ensures
        views(r.0@) == path_folders(exe_path@),
        r.1@ == path_file(exe_path@),
{
    let normalized = replace_char(exe_path, '\\', '/');
    let mut parts = split_on(normalized.as_str(), '/');
    let ghost all = path_pieces(exe_path@);
    let ghost keep = |p: Seq<char>| p.len() > 0;
    assert(views(parts@) == all);
    let file = match parts.pop() {
        Some(last) => last,
        None => String::new(),
    };
    assert(file@ == all.last());
    assert(views(parts@) =~= all.drop_last());
    let mut folders: Vec<String> = Vec::new();
    assert(views(folders@) =~= Seq::<Seq<char>>::empty());
    let ghost named = all.drop_last();
    proof {
        reveal(Seq::filter);
        assert(named.take(0).filter(keep) =~= Seq::<Seq<char>>::empty());
    }
    for part in it: parts
        invariant
            it.seq() == parts@,
            views(parts@) == named,
            keep == (|p: Seq<char>| p.len() > 0),
            views(folders@) == named.take(it.index()).filter(keep),
    {
        let ghost before = folders@;
        proof {
            reveal(Seq::filter);
            assert(views(parts@)[it.index()] == part@);
            assert(named.take(it.index() + 1).drop_last() =~= named.take(it.index()));
        }
        if !part.as_str().is_empty() {
            folders.push(part);
            assert(views(folders@) =~= views(before).push(part@));
        }
    }
    assert(named.take(named.len() as int) =~= named);
    (folders, file)
}

/// Whether a name is free of path separators.
pub open spec fn plain_name(name: Seq<char>) -> bool {
    !name.contains('/') && !name.contains('\\')
}

/// The folders and the file of an executable are plain names, and no folder
/// has an empty name.
pub proof fn path_names_are_plain(exe_path: Seq<char>)
    ensures
        plain_name(path_file(exe_path)),
        forall|i: int|
            0 <= i < path_folders(exe_path).len() ==> plain_name(
                #[trigger] path_folders(exe_path)[i],
            ) && path_folders(exe_path)[i].len() > 0,
{
    let slashed = replaced(exe_path, '\\', '/');
    let all = path_pieces(exe_path);
    pieces_hold_no_separator(slashed, '/');
    assert forall|i: int| 0 <= i < all.len() implies plain_name(#[trigger] all[i]) by {
        lemma_pieces_from_text(slashed, '/', i);
        if all[i].contains('\\') {
            assert(slashed.contains('\\'));
        }
    }
    let keep = |p: Seq<char>| p.len() > 0;
    let named = all.drop_last();
    assert forall|i: int| 0 <= i < path_folders(exe_path).len() implies plain_name(
        #[trigger] path_folders(exe_path)[i],
    ) && path_folders(exe_path)[i].len() > 0 by {
        let folder = path_folders(exe_path)[i];
        named.lemma_filter_pred(keep, i);
        assert(path_folders(exe_path).contains(folder));
        named.lemma_filter_contains_rev(keep, folder);
        let k = choose|k: int| 0 <= k < named.len() && named[k] == folder;
        assert(all[k] == folder);
    }
}

proof fn lemma_join_holds_only_parts(parts: Seq<Seq<char>>, sep: char, c: char)
    requires
        c != sep,
        forall|i: int| 0 <= i < parts.len() ==> !(#[trigger] parts[i]).contains(c),
    ensures
        !joined_by(parts, sep).contains(c),
    decreases parts.len(),
{
    let all = joined_by(parts, sep);
    if parts.len() > 1 {
        let rest = parts.drop_last();
        assert forall|i: int| 0 <= i < rest.len() implies !(#[trigger] rest[i]).contains(c) by {
            assert(rest[i] == parts[i]);
        }
        lemma_join_holds_only_parts(rest, sep, c);
        let head = joined_by(rest, sep);
        let last = parts[parts.len() - 1];
        if all.contains(c) {
            let k = choose|k: int| 0 <= k < all.len() && all[k] == c;
            if k < head.len() {
                assert(head[k] == c);
            } else if k > head.len() {
                assert(last[k - head.len() - 1] == c);
            }
        }
    } else if parts.len() == 1 {
        assert(!parts[0].contains(c));
    }
}

/// Forward and backward slashes mean the same in the path of an executable.
pub proof fn slashes_mean_the_same(exe_path: Seq<char>)
    ensures
        path_folders(replaced(exe_path, '\\', '/')) == path_folders(exe_path),
        path_file(replaced(exe_path, '\\', '/')) == path_file(exe_path),
{
    let once = replaced(exe_path, '\\', '/');
    assert(replaced(once, '\\', '/') =~= once);
}

/// The names that a path is made of come back: of names joined by slashes all
/// but the last are the folders, in their order, and the last is the file.
pub proof fn path_names_come_back(names: Seq<Seq<char>>)
    requires
        names.len() > 0,
        forall|i: int| 0 <= i < names.len() ==> plain_name(#[trigger] names[i]),
        forall|i: int| 0 <= i < names.len() - 1 ==> (#[trigger] names[i]).len() > 0,
    ensures
        path_folders(joined_by(names, '/')) == names.drop_last(),
        path_file(joined_by(names, '/')) == names.last(),
{
    let path = joined_by(names, '/');
    lemma_join_holds_only_parts(names, '/', '\\');
    assert forall|i: int| 0 <= i < path.len() implies path[i] != '\\' by {
        if path[i] == '\\' {
            assert(path.contains('\\'));
        }
    }
    assert(replaced(path, '\\', '/') =~= path);
    splitting_undoes_joining(names, '/');
    let keep = |p: Seq<char>| p.len() > 0;
    lemma_filter_keeps_all(names.drop_last(), keep);
}

proof fn lemma_filter_keeps_all(list: Seq<Seq<char>>, keep: spec_fn(Seq<char>) -> bool)
    requires
        forall|i: int| 0 <= i < list.len() ==> keep(#[trigger] list[i]),
    ensures
        list.filter(keep) == list,
    decreases list.len(),
{
    reveal(Seq::filter);
    if list.len() > 0 {
        let rest = list.drop_last();
        assert forall|i: int| 0 <= i < rest.len() implies keep(#[trigger] rest[i]) by {
            assert(rest[i] == list[i]);
        }
        assert(keep(list[list.len() - 1]));
        lemma_filter_keeps_all(rest, keep);
        assert(rest.push(list.last()) =~= list);
    } else {
        assert(list.filter(keep) =~= list);
    }
}

/// A separator twice in a row counts once, and so does one at the beginning.
pub proof fn empty_names_are_left_out(before: Seq<char>, after: Seq<char>)
    ensures
        path_folders(before.push('/').push('/') + after) == path_folders(
            before.push('/') + after,
        ),
        path_file(before.push('/').push('/') + after) == path_file(before.push('/') + after),
        path_folders(seq!['/'] + after) == path_folders(after),
        path_file(seq!['/'] + after) == path_file(after),
{
    let a = replaced(before, '\\', '/');
    let b = replaced(after, '\\', '/');
    let keep = |p: Seq<char>| p.len() > 0;
    let none = Seq::<char>::empty();
    let twice = before.push('/').push('/') + after;
    let once = before.push('/') + after;
    pieces_hold_no_separator(a, '/');
    pieces_hold_no_separator(b, '/');
    assert(replaced(twice, '\\', '/') =~= a.push('/').push('/') + b);
    assert(replaced(once, '\\', '/') =~= a.push('/') + b);
    assert(replaced(seq!['/'] + after, '\\', '/') =~= none.push('/') + b);
    lemma_pieces_of_two(a, b, '/');
    lemma_pieces_of_two(a.push('/'), b, '/');
    lemma_pieces_of_two(a, none, '/');
    lemma_pieces_of_two(none, b, '/');
    assert(a.push('/') + none =~= a.push('/'));
    let pa = pieces(a, '/');
    let pb = pieces(b, '/');
    let pn = seq![none];
    assert(pieces(none, '/') =~= pn);
    assert(pn.filter(keep) =~= Seq::<Seq<char>>::empty()) by {
        reveal(Seq::filter);
        let nothing = Seq::<Seq<char>>::empty();
        assert(pn.drop_last() =~= nothing);
        assert(nothing.filter(keep).len() == 0);
        assert(pn.last().len() == 0);
        assert(!keep(pn.last()));
    }
    assert((pa + pn + pb).drop_last() =~= pa + (pn + pb.drop_last()));
    assert((pa + pb).drop_last() =~= pa + pb.drop_last());
    assert((pn + pb).drop_last() =~= pn + pb.drop_last());
    Seq::filter_distributes_over_add(pa, pn + pb.drop_last(), keep);
    Seq::filter_distributes_over_add(pn, pb.drop_last(), keep);
    Seq::filter_distributes_over_add(pa, pb.drop_last(), keep);
    let fb = pb.drop_last().filter(keep);
    assert(Seq::<Seq<char>>::empty() + fb =~= fb);
}

/// A piece holds only characters of the text.
proof fn lemma_pieces_from_text(s: Seq<char>, sep: char, i: int)
    requires
        0 <= i < pieces(s, sep).len(),
    ensures
        forall|c: char| #[trigger] pieces(s, sep)[i].contains(c) ==> s.contains(c),
    decreases s.len(),
{
    if s.len() > 0 {
        let shorter = s.drop_last();
        let before = pieces(shorter, sep);
        let after = pieces(s, sep);
        pieces_hold_no_separator(shorter, sep);
        assert forall|c: char| #[trigger] after[i].contains(c) implies s.contains(c) by {
            let k = choose|k: int| 0 <= k < after[i].len() && after[i][k] == c;
            if i < before.len() {
                lemma_pieces_from_text(shorter, sep, i);
                if k < before[i].len() {
                    assert(before[i][k] == c);
                    assert(before[i].contains(c));
                    let at = choose|at: int| 0 <= at < shorter.len() && shorter[at] == c;
                    assert(s[at] == c);
                } else {
                    assert(s[s.len() - 1] == c);
                }
            }
        }
    }
}

} // verus!
