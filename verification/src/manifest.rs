//! The manifest by which Steam takes an app for installed.

use vstd::prelude::*;

use crate::text::{joined, replace_char};
use crate::text::{
    joined_by, lemma_join_one_more, occurrences, pieces, replaced, replacing_changes_one_character,
    splitting_undoes_joining,
};

verus! {

/// The text of a minimal manifest. Double quotes in the name become single
/// quotes; the app id and the install directory stand as they are.
pub open spec fn manifest_text(app_id: Seq<char>, name: Seq<char>, installdir: Seq<char>) -> Seq<
    char,
> {
    "\"AppState\"\n{\n\t\"appid\"\t\t\""@ + app_id + "\"\n\t\"name\"\t\t\""@ + replaced(
        name,
        '"',
        '\'',
    ) + "\"\n\t\"installdir\"\t\t\""@ + installdir + "\"\n}\n"@
}

/// Builds a minimal Steam manifest that marks an app as installed. It is
/// deliberately sparse: only the app id, the name and the install directory.
pub fn build_appmanifest(app_id: &str, name: &str, installdir: &str) -> (r: String)
    ensures
        r@ == manifest_text(app_id@, name@, installdir@),
{
    let safe_name = replace_char(name, '"', '\'');
    let mut out = "\"AppState\"\n{\n\t\"appid\"\t\t\"".to_owned();
    out.append(app_id);
    out.append("\"\n\t\"name\"\t\t\"");
    out.append(safe_name.as_str());
    out.append("\"\n\t\"installdir\"\t\t\"");
    out.append(installdir);
    out.append("\"\n}\n");
    out
}

/// The name of the file that holds the manifest of an app.
pub fn appmanifest_file_name(app_id: &str) -> (r: String)
    ensures
        r@ == "appmanifest_"@ + app_id@ + ".acf"@,
{
    let stem = joined("appmanifest_", app_id);
    joined(stem.as_str(), ".acf")
}

proof fn lemma_occurrences_add(a: Seq<char>, b: Seq<char>, c: char)
    ensures
        occurrences(a + b, c) == occurrences(a, c) + occurrences(b, c),
    decreases b.len(),
{
    if b.len() == 0 {
        assert(a + b =~= a);
    } else {
        lemma_occurrences_add(a, b.drop_last(), c);
        assert((a + b).drop_last() =~= a + b.drop_last());
    }
}

proof fn lemma_replaced_has_none(s: Seq<char>, from: char, to: char)
    requires
        from != to,
    ensures
        occurrences(replaced(s, from, to), from) == 0,
    decreases s.len(),
{
    if s.len() > 0 {
        lemma_replaced_has_none(s.drop_last(), from, to);
        assert(replaced(s, from, to).drop_last() =~= replaced(s.drop_last(), from, to));
    }
}

/// Whatever the name of the game, it adds no double quote to the manifest: the
/// quotes are the fourteen of the layout and those in the app id and the
/// install directory.
pub proof fn name_cannot_add_quotes(app_id: Seq<char>, name: Seq<char>, installdir: Seq<char>)
    ensures
        occurrences(manifest_text(app_id, name, installdir), '"') == 14 + occurrences(app_id, '"')
            + occurrences(installdir, '"'),
{
    let head = "\"AppState\"\n{\n\t\"appid\"\t\t\""@;
    let before_name = "\"\n\t\"name\"\t\t\""@;
    let before_dir = "\"\n\t\"installdir\"\t\t\""@;
    let tail = "\"\n}\n"@;
    let safe = replaced(name, '"', '\'');
    reveal_strlit("\"AppState\"\n{\n\t\"appid\"\t\t\"");
    reveal_strlit("\"\n\t\"name\"\t\t\"");
    reveal_strlit("\"\n\t\"installdir\"\t\t\"");
    reveal_strlit("\"\n}\n");
    assert(occurrences(head, '"') == 5) by {
        reveal_with_fuel(occurrences, 26);
    }
    assert(occurrences(before_name, '"') == 4) by {
        reveal_with_fuel(occurrences, 13);
    }
    assert(occurrences(before_dir, '"') == 4) by {
        reveal_with_fuel(occurrences, 19);
    }
    assert(occurrences(tail, '"') == 1) by {
        reveal_with_fuel(occurrences, 5);
    }
    lemma_replaced_has_none(name, '"', '\'');
    lemma_occurrences_add(head, app_id, '"');
    lemma_occurrences_add(head + app_id, before_name, '"');
    lemma_occurrences_add(head + app_id + before_name, safe, '"');
    lemma_occurrences_add(head + app_id + before_name + safe, before_dir, '"');
    lemma_occurrences_add(head + app_id + before_name + safe + before_dir, installdir, '"');
    lemma_occurrences_add(
        head + app_id + before_name + safe + before_dir + installdir,
        tail,
        '"',
    );
}

// What can be read out of a manifest.

/// Whether piece `i` between double quotes is a key, and the value that follows
/// it is a given one. Behind the title each line holds a key and a value in
/// quotes.
pub open spec fn field_at(parts: Seq<Seq<char>>, i: int, key: Seq<char>, value: Seq<char>) -> bool {
    &&& 3 <= i < parts.len() - 2
    &&& i % 4 == 3
    &&& parts[i] == key
    &&& parts[i + 2] == value
}

/// Whether a manifest gives a field a value.
pub open spec fn names_field(text: Seq<char>, key: Seq<char>, value: Seq<char>) -> bool {
    exists|i: int| field_at(pieces(text, '"'), i, key, value)
}

/// Whether a manifest gives a field this value and no other.
pub open spec fn has_field(text: Seq<char>, key: Seq<char>, value: Seq<char>) -> bool {
    &&& names_field(text, key, value)
    &&& forall|other: Seq<char>| #[trigger] names_field(text, key, other) ==> other == value
}

/// What a manifest says is what it was made for: its app id is the one that was
/// given, its name is the given one with double quotes replaced, and its install
/// directory is the one that was given. The app id and the install directory hold
/// no double quotes.
pub proof fn manifest_says_what_was_given(
    app_id: Seq<char>,
    name: Seq<char>,
    installdir: Seq<char>,
)
    requires
        !app_id.contains('"'),
        !installdir.contains('"'),
    ensures
        has_field(manifest_text(app_id, name, installdir), "appid"@, app_id),
        has_field(manifest_text(app_id, name, installdir), "name"@, replaced(name, '"', '\'')),
        has_field(manifest_text(app_id, name, installdir), "installdir"@, installdir),
{
    let text = manifest_text(app_id, name, installdir);
    let safe = replaced(name, '"', '\'');
    let q = '"';
    let none = Seq::<char>::empty();
    reveal_strlit("\"AppState\"\n{\n\t\"appid\"\t\t\"");
    reveal_strlit("\"\n\t\"name\"\t\t\"");
    reveal_strlit("\"\n\t\"installdir\"\t\t\"");
    reveal_strlit("\"\n}\n");
    reveal_strlit("AppState");
    reveal_strlit("\n{\n\t");
    reveal_strlit("appid");
    reveal_strlit("\t\t");
    reveal_strlit("\n\t");
    reveal_strlit("name");
    reveal_strlit("installdir");
    reveal_strlit("\n}\n");
    let p0 = seq![none];
    let p1 = p0.push("AppState"@);
    let p2 = p1.push("\n{\n\t"@);
    let p3 = p2.push("appid"@);
    let p4 = p3.push("\t\t"@);
    let p5 = p4.push(app_id);
    let p6 = p5.push("\n\t"@);
    let p7 = p6.push("name"@);
    let p8 = p7.push("\t\t"@);
    let p9 = p8.push(safe);
    let p10 = p9.push("\n\t"@);
    let p11 = p10.push("installdir"@);
    let p12 = p11.push("\t\t"@);
    let p13 = p12.push(installdir);
    let parts = p13.push("\n}\n"@);
    lemma_join_one_more(p0, "AppState"@, q);
    lemma_join_one_more(p1, "\n{\n\t"@, q);
    lemma_join_one_more(p2, "appid"@, q);
    lemma_join_one_more(p3, "\t\t"@, q);
    lemma_join_one_more(p4, app_id, q);
    lemma_join_one_more(p5, "\n\t"@, q);
    lemma_join_one_more(p6, "name"@, q);
    lemma_join_one_more(p7, "\t\t"@, q);
    lemma_join_one_more(p8, safe, q);
    lemma_join_one_more(p9, "\n\t"@, q);
    lemma_join_one_more(p10, "installdir"@, q);
    lemma_join_one_more(p11, "\t\t"@, q);
    lemma_join_one_more(p12, installdir, q);
    lemma_join_one_more(p13, "\n}\n"@, q);
    let head = "\"AppState\"\n{\n\t\"appid\"\t\t\""@;
    let before_name = "\"\n\t\"name\"\t\t\""@;
    let before_dir = "\"\n\t\"installdir\"\t\t\""@;
    assert(joined_by(p4, q).push(q) =~= head);
    assert(joined_by(p5, q) == head + app_id);
    assert(joined_by(p8, q).push(q) =~= head + app_id + before_name);
    assert(joined_by(p9, q) == head + app_id + before_name + safe);
    assert(joined_by(p12, q).push(q) =~= head + app_id + before_name + safe + before_dir);
    assert(joined_by(p13, q) == head + app_id + before_name + safe + before_dir + installdir);
    assert(joined_by(parts, q) =~= text);
    assert forall|i: int| 0 <= i < parts.len() implies !(#[trigger] parts[i]).contains(q) by {
        if i == 9 {
            replacing_changes_one_character(name, q, '\'');
        }
    }
    splitting_undoes_joining(parts, q);
    assert(field_at(parts, 3, "appid"@, app_id));
    assert(field_at(parts, 7, "name"@, safe));
    assert(field_at(parts, 11, "installdir"@, installdir));
    assert("appid"@.len() == 5 && "name"@.len() == 4 && "installdir"@.len() == 10);
    assert forall|i: int, key: Seq<char>, value: Seq<char>|
        field_at(parts, i, key, value) implies i == 3 || i == 7 || i == 11 by {
    }
}

} // verus!
