//! Text operations: exact models over sequences of characters, and the
//! executable functions that compute them.

use vstd::prelude::*;

verus! {

/// `String::push`: appends one character to the end of the text.
pub assume_specification[ String::push ](text: &mut String, c: char)
    ensures
        final(text)@ == old(text)@.push(c),
;

/// The lowercase form of a text, as the Unicode character database defines it.
pub uninterp spec fn lowercase(s: Seq<char>) -> Seq<char>;

/// `str::to_lowercase`: the Unicode lowercase form of the text, which depends
/// on the text alone.
#[verifier::external_body]
pub(crate) fn to_lowercase(s: &str) -> (r: String)
    ensures
        r@ == lowercase(s@),
{
    s.to_lowercase()
}

/// The characters of a text, in order.
pub fn chars_of(s: &str) -> (r: Vec<char>)
    ensures
        r@ == s@,
{
    let mut out: Vec<char> = Vec::new();
    for c in it: s.chars()
        invariant
            out@ == it.seq().take(it.index()),
            it.seq() == s@,
    {
        out.push(c);
    }
    out
}

/// The text made of the characters in `chars[from..to]`.
pub fn text_of(chars: &Vec<char>, from: usize, to: usize) -> (r: String)
    requires
        from <= to <= chars.len(),
    ensures
        r@ == chars@.subrange(from as int, to as int),
{
    let mut out = String::new();
    let mut i: usize = from;
    while i < to
        invariant
            from <= i <= to <= chars.len(),
            out@ == chars@.subrange(from as int, i as int),
        decreases to - i,
    {
        out.push(chars[i]);
        i += 1;
    }
    out
}

/// The texts `a` and `b`, one after the other.
pub fn joined(a: &str, b: &str) -> (r: String)
    ensures
        r@ == a@ + b@,
{
    let mut out = a.to_owned();
    out.append(b);
    out
}

/// Whether two texts hold the same characters.
pub fn same_text(a: &str, b: &str) -> (r: bool)
    ensures
        r == (a@ == b@),
{
    let left = chars_of(a);
    let right = chars_of(b);
    if left.len() != right.len() {
        return false;
    }
    let mut i: usize = 0;
    while i < left.len()
        invariant
            i <= left.len() == right.len(),
            left@ == a@,
            right@ == b@,
            forall|k: int| 0 <= k < i ==> left@[k] == right@[k],
        decreases left.len() - i,
    {
        if left[i] != right[i] {
            return false;
        }
        i += 1;
    }
    assert(left@ =~= right@);
    true
}

/// `s` with every occurrence of `from` replaced by `to`.
pub open spec fn replaced(s: Seq<char>, from: char, to: char) -> Seq<char> {
    s.map_values(|c: char| if c == from { to } else { c })
}

/// Replaces every occurrence of a character by another one.
pub fn replace_char(s: &str, from: char, to: char) -> (r: String)
    ensures
        r@ == replaced(s@, from, to),
{
    let chars = chars_of(s);
    let mut out = String::new();
    let mut i: usize = 0;
    while i < chars.len()
        invariant
            i <= chars.len(),
            out@ == replaced(chars@.take(i as int), from, to),
        decreases chars.len() - i,
    {
        let c = chars[i];
        out.push(if c == from { to } else { c });
        i += 1;
    }
    assert(chars@.take(chars@.len() as int) =~= chars@);
    out
}

/// How often `c` occurs in `s`.
pub open spec fn occurrences(s: Seq<char>, c: char) -> nat
    decreases s.len(),
{
    if s.len() == 0 {
        0
    } else {
        occurrences(s.drop_last(), c) + if s.last() == c { 1nat } else { 0nat }
    }
}

/// Counts the occurrences of two different characters together.
pub fn count_either(s: &str, a: char, b: char) -> (r: usize)
    requires
        a != b,
    ensures
        r == occurrences(s@, a) + occurrences(s@, b),
{
    let chars = chars_of(s);
    let mut found: usize = 0;
    let mut i: usize = 0;
    while i < chars.len()
        invariant
            a != b,
            i <= chars.len(),
            found <= i,
            found == occurrences(chars@.take(i as int), a) + occurrences(chars@.take(i as int), b),
        decreases chars.len() - i,
    {
        assert(chars@.take(i + 1).drop_last() =~= chars@.take(i as int));
        if chars[i] == a || chars[i] == b {
            found += 1;
        }
        i += 1;
    }
    assert(chars@.take(chars@.len() as int) =~= chars@);
    found
}

/// The number of bytes that a text takes in UTF-8.
pub fn byte_len(s: &str) -> (r: usize)
    ensures
        r == vstd::utf8::encode_utf8(s@).len(),
{
    s.as_bytes().len()
}

/// The pieces of `s` between the occurrences of `sep`. There is always at least
/// one piece, and pieces may be empty.
pub open spec fn pieces(s: Seq<char>, sep: char) -> Seq<Seq<char>>
    decreases s.len(),
{
    if s.len() == 0 {
        seq![Seq::<char>::empty()]
    } else {
        let before = pieces(s.drop_last(), sep);
        if s.last() == sep {
            before.push(Seq::<char>::empty())
        } else {
            before.drop_last().push(before.last().push(s.last()))
        }
    }
}

/// The views of a list of texts.
pub open spec fn views(texts: Seq<String>) -> Seq<Seq<char>> {
    texts.map_values(|t: String| t@)
}

/// Splits a text at every occurrence of `sep`.
pub fn split_on(s: &str, sep: char) -> (r: Vec<String>)
    ensures
        views(r@) == pieces(s@, sep),
        r@.len() > 0,
{
    let chars = chars_of(s);
    let mut out: Vec<String> = Vec::new();
    let mut current = String::new();
    let mut i: usize = 0;
    assert(pieces(chars@.take(0), sep) =~= views(out@).push(current@));
    while i < chars.len()
        invariant
            i <= chars.len(),
            pieces(chars@.take(i as int), sep) == views(out@).push(current@),
        decreases chars.len() - i,
    {
        let ghost seen = views(out@);
        let ghost piece = current@;
        let c = chars[i];
        assert(chars@.take(i + 1).drop_last() =~= chars@.take(i as int));
        assert(seen.push(piece).drop_last() =~= seen);
        if c == sep {
            out.push(current);
            current = String::new();
            assert(views(out@) =~= seen.push(piece));
        } else {
            current.push(c);
        }
        i += 1;
    }
    assert(chars@.take(chars@.len() as int) =~= chars@);
    let ghost seen = views(out@);
    let ghost piece = current@;
    out.push(current);
    assert(views(out@) =~= seen.push(piece));
    out
}

/// No piece holds the separator, and there is always a piece.
pub proof fn pieces_hold_no_separator(s: Seq<char>, sep: char)
    ensures
        pieces(s, sep).len() > 0,
        forall|i: int| 0 <= i < pieces(s, sep).len() ==> !(#[trigger] pieces(s, sep)[i]).contains(
            sep,
        ),
    decreases s.len(),
{
    if s.len() > 0 {
        let before = pieces(s.drop_last(), sep);
        let after = pieces(s, sep);
        pieces_hold_no_separator(s.drop_last(), sep);
        assert forall|i: int| 0 <= i < after.len() implies !(#[trigger] after[i]).contains(sep) by {
            assert(!before.last().contains(sep));
            if i < before.len() - 1 || (i < before.len() && s.last() == sep) {
                assert(after[i] == before[i]);
            } else if s.last() != sep {
                assert forall|k: int| 0 <= k < after[i].len() implies after[i][k] != sep by {
                    if k < before.last().len() {
                        assert(before.last()[k] == after[i][k]);
                    }
                }
            }
        }
    }
}

/// The parts in one text, with a separator between each two.
pub open spec fn joined_by(parts: Seq<Seq<char>>, sep: char) -> Seq<char>
    decreases parts.len(),
{
    if parts.len() == 0 {
        Seq::empty()
    } else if parts.len() == 1 {
        parts[0]
    } else {
        joined_by(parts.drop_last(), sep).push(sep) + parts.last()
    }
}

/// The pieces of a text, put together again, give the text.
pub proof fn pieces_join_back(s: Seq<char>, sep: char)
    ensures
        joined_by(pieces(s, sep), sep) == s,
    decreases s.len(),
{
    let after = pieces(s, sep);
    if s.len() == 0 {
        assert(after[0] =~= s);
    } else {
        let before = pieces(s.drop_last(), sep);
        pieces_hold_no_separator(s.drop_last(), sep);
        pieces_join_back(s.drop_last(), sep);
        assert(s =~= s.drop_last().push(s.last()));
        if s.last() == sep {
            assert(after.drop_last() =~= before);
            assert(joined_by(after, sep) =~= s);
        } else {
            assert(after.drop_last() =~= before.drop_last());
            assert(joined_by(after, sep) =~= joined_by(before, sep).push(s.last()));
        }
    }
}

/// The index of the first `c` in `s`, or the length of `s` when there is none.
pub open spec fn first_index(s: Seq<char>, c: char) -> int
    decreases s.len(),
{
    if s.len() == 0 || s[0] == c {
        0
    } else {
        1 + first_index(s.drop_first(), c)
    }
}

/// What stands before and after the first `sep` in `s`, when there is one.
pub open spec fn cut_at_first(s: Seq<char>, sep: char) -> Option<(Seq<char>, Seq<char>)> {
    let at = first_index(s, sep);
    if at < s.len() {
        Some((s.take(at), s.skip(at + 1)))
    } else {
        None
    }
}

/// The first index is where the first occurrence stands.
pub proof fn lemma_first_index(s: Seq<char>, c: char)
    ensures
        0 <= first_index(s, c) <= s.len(),
        first_index(s, c) < s.len() ==> s[first_index(s, c)] == c,
        forall|k: int| 0 <= k < first_index(s, c) ==> s[k] != c,
    decreases s.len(),
{
    if s.len() > 0 && s[0] != c {
        let rest = s.drop_first();
        lemma_first_index(rest, c);
        assert forall|k: int| 0 <= k < first_index(s, c) implies s[k] != c by {
            if k > 0 {
                assert(rest[k - 1] == s[k]);
            }
        }
    }
}

/// Splits a text at the first occurrence of `sep`.
pub fn split_once(s: &str, sep: char) -> (r: Option<(String, String)>)
    ensures
        match r {
            Some((before, after)) => cut_at_first(s@, sep) == Some((before@, after@)),
            None => cut_at_first(s@, sep) is None,
        },
{
    let chars = chars_of(s);
    proof {
        lemma_first_index(s@, sep);
    }
    let mut i: usize = 0;
    while i < chars.len()
        invariant
            i <= chars.len(),
            chars@ == s@,
            i <= first_index(s@, sep) <= s@.len(),
            first_index(s@, sep) < s@.len() ==> s@[first_index(s@, sep)] == sep,
            forall|k: int| 0 <= k < first_index(s@, sep) ==> s@[k] != sep,
        decreases chars.len() - i,
    {
        if chars[i] == sep {
            let before = text_of(&chars, 0, i);
            let after = text_of(&chars, i + 1, chars.len());
            assert(before@ =~= s@.take(i as int));
            assert(after@ =~= s@.skip(i + 1));
            return Some((before, after));
        }
        i += 1;
    }
    None
}

/// Whether `pattern` occurs in `s` at index `at`.
pub open spec fn occurs_at(s: Seq<char>, pattern: Seq<char>, at: int) -> bool {
    0 <= at && at + pattern.len() <= s.len() && s.subrange(at, at + pattern.len()) == pattern
}

/// Whether `pattern` occurs somewhere in `s`.
pub open spec fn has_substring(s: Seq<char>, pattern: Seq<char>) -> bool {
    exists|at: int| occurs_at(s, pattern, at)
}

/// Whether `pattern` occurs in `s` at index `at`.
fn matches_at(s: &Vec<char>, pattern: &Vec<char>, at: usize) -> (r: bool)
    ensures
        r == occurs_at(s@, pattern@, at as int),
{
    if at > s.len() || pattern.len() > s.len() - at {
        return false;
    }
    let mut k: usize = 0;
    while k < pattern.len()
        invariant
            k <= pattern.len(),
            at + pattern.len() <= s.len(),
            forall|j: int| 0 <= j < k ==> s@[at + j] == pattern@[j],
        decreases pattern.len() - k,
    {
        if s[at + k] != pattern[k] {
            assert(s@.subrange(at as int, at + pattern@.len())[k as int] != pattern@[k as int]);
            return false;
        }
        k += 1;
    }
    assert(s@.subrange(at as int, at + pattern@.len()) =~= pattern@);
    true
}

/// Whether `pattern` occurs somewhere in the text.
pub fn contains_text(s: &str, pattern: &str) -> (r: bool)
    ensures
        r == has_substring(s@, pattern@),
{
    let text = chars_of(s);
    let sought = chars_of(pattern);
    let mut at: usize = 0;
    while at < text.len()
        invariant
            at <= text.len(),
            text@ == s@,
            sought@ == pattern@,
            forall|k: int| 0 <= k < at ==> !occurs_at(s@, pattern@, k),
        decreases text.len() - at,
    {
        if matches_at(&text, &sought, at) {
            return true;
        }
        at += 1;
    }
    let last = matches_at(&text, &sought, at);
    proof {
        assert forall|k: int| occurs_at(s@, pattern@, k) implies last by {
            if k < at {
            } else {
                assert(k == at);
            }
        }
    }
    last
}

/// Whether `s` begins with `prefix`.
pub open spec fn begins_with(s: Seq<char>, prefix: Seq<char>) -> bool {
    occurs_at(s, prefix, 0)
}

/// Whether the text begins with `prefix`.
pub fn starts_with(s: &str, prefix: &str) -> (r: bool)
    ensures
        r == begins_with(s@, prefix@),
{
    let text = chars_of(s);
    let sought = chars_of(prefix);
    matches_at(&text, &sought, 0)
}

/// The lowercase form of an ASCII capital letter; any other character as it is.
pub open spec fn ascii_lower(c: char) -> char {
    if 'A' <= c && c <= 'Z' {
        ((c as u8) + 32) as char
    } else {
        c
    }
}

/// Whether two texts are equal when the case of ASCII letters is left aside.
pub open spec fn same_ignoring_ascii_case(a: Seq<char>, b: Seq<char>) -> bool {
    a.len() == b.len() && forall|i: int| 0 <= i < a.len() ==> ascii_lower(a[i]) == ascii_lower(b[i])
}

fn lower_ascii(c: char) -> (r: char)
    ensures
        r == ascii_lower(c),
{
    if 'A' <= c && c <= 'Z' {
        ((c as u8) + 32) as char
    } else {
        c
    }
}

/// Compares two texts and leaves the case of ASCII letters aside.
pub fn eq_ignore_ascii_case(a: &str, b: &str) -> (r: bool)
    ensures
        r == same_ignoring_ascii_case(a@, b@),
{
    let left = chars_of(a);
    let right = chars_of(b);
    if left.len() != right.len() {
        return false;
    }
    let mut i: usize = 0;
    while i < left.len()
        invariant
            i <= left.len() == right.len(),
            left@ == a@,
            right@ == b@,
            forall|k: int| 0 <= k < i ==> ascii_lower(left@[k]) == ascii_lower(right@[k]),
        decreases left.len() - i,
    {
        if lower_ascii(left[i]) != lower_ascii(right[i]) {
            return false;
        }
        i += 1;
    }
    true
}

/// The characters with the Unicode property `White_Space`.
pub open spec fn white_space(c: char) -> bool {
    ||| '\u{9}' <= c <= '\u{d}'
    ||| c == ' '
    ||| c == '\u{85}'
    ||| c == '\u{a0}'
    ||| c == '\u{1680}'
    ||| '\u{2000}' <= c <= '\u{200a}'
    ||| c == '\u{2028}'
    ||| c == '\u{2029}'
    ||| c == '\u{202f}'
    ||| c == '\u{205f}'
    ||| c == '\u{3000}'
}

/// Whether a character has the Unicode property `White_Space`.
pub fn is_white_space(c: char) -> (r: bool)
    ensures
        r == white_space(c),
{
    ('\u{9}' <= c && c <= '\u{d}') || c == ' ' || c == '\u{85}' || c == '\u{a0}' || c == '\u{1680}'
        || ('\u{2000}' <= c && c <= '\u{200a}') || c == '\u{2028}' || c == '\u{2029}' || c
        == '\u{202f}' || c == '\u{205f}' || c == '\u{3000}'
}

/// `s` without the white space that it begins with.
pub open spec fn trimmed_start(s: Seq<char>) -> Seq<char>
    decreases s.len(),
{
    if s.len() > 0 && white_space(s[0]) {
        trimmed_start(s.drop_first())
    } else {
        s
    }
}

/// `s` without the white space that it ends in.
pub open spec fn trimmed_end(s: Seq<char>) -> Seq<char>
    decreases s.len(),
{
    if s.len() > 0 && white_space(s.last()) {
        trimmed_end(s.drop_last())
    } else {
        s
    }
}

/// `s` without white space at either end.
pub open spec fn trimmed(s: Seq<char>) -> Seq<char> {
    trimmed_end(trimmed_start(s))
}

/// Removes the white space at both ends of a text.
pub fn trim(s: &str) -> (r: String)
    ensures
        r@ == trimmed(s@),
{
    let chars = chars_of(s);
    let mut from: usize = 0;
    assert(chars@.skip(0) =~= chars@);
    while from < chars.len() && is_white_space(chars[from])
        invariant
            from <= chars.len(),
            trimmed_start(chars@) == trimmed_start(chars@.skip(from as int)),
        decreases chars.len() - from,
    {
        assert(chars@.skip(from as int).drop_first() =~= chars@.skip(from + 1));
        from += 1;
    }
    let mut to: usize = chars.len();
    assert(trimmed_start(chars@) =~= chars@.subrange(from as int, to as int));
    while to > from && is_white_space(chars[to - 1])
        invariant
            from <= to <= chars.len(),
            trimmed(chars@) == trimmed_end(chars@.subrange(from as int, to as int)),
        decreases to,
    {
        assert(chars@.subrange(from as int, to as int).drop_last() =~= chars@.subrange(
            from as int,
            to - 1,
        ));
        to -= 1;
    }
    text_of(&chars, from, to)
}

/// Whether `c` is one of the ten ASCII digits.
pub open spec fn digit(c: char) -> bool {
    '0' <= c && c <= '9'
}

/// The number that a sequence of decimal digits writes.
pub open spec fn decimal_value(digits: Seq<char>) -> int
    decreases digits.len(),
{
    if digits.len() == 0 {
        0
    } else {
        decimal_value(digits.drop_last()) * 10 + (digits.last() as int - '0' as int)
    }
}

/// The digits of a number: what follows an optional plus sign.
pub open spec fn unsigned_part(s: Seq<char>) -> Seq<char> {
    if s.len() > 0 && s[0] == '+' {
        s.drop_first()
    } else {
        s
    }
}

/// The 32-bit number that a text writes: an optional plus sign and at least one
/// digit, nothing else.
pub open spec fn parsed_u32(s: Seq<char>) -> Option<u32> {
    let digits = unsigned_part(s);
    if digits.len() > 0 && (forall|i: int| 0 <= i < digits.len() ==> digit(digits[i]))
        && decimal_value(digits) <= u32::MAX {
        Some(decimal_value(digits) as u32)
    } else {
        None
    }
}

/// Reads a 32-bit number from a text.
pub fn parse_u32(s: &str) -> (r: Option<u32>)
    ensures
        r == parsed_u32(s@),
{
    let chars = chars_of(s);
    let start: usize = if chars.len() > 0 && chars[0] == '+' {
        1
    } else {
        0
    };
    let ghost digits = unsigned_part(s@);
    assert(digits =~= s@.skip(start as int));
    if start == chars.len() {
        return None;
    }
    let mut value: u64 = 0;
    let mut fits: bool = true;
    let mut i: usize = start;
    assert(digits.take(0) =~= Seq::<char>::empty());
    while i < chars.len()
        invariant
            start <= i <= chars.len(),
            chars@ == s@,
            digits == unsigned_part(s@),
            digits == s@.skip(start as int),
            forall|k: int| 0 <= k < i - start ==> digit(digits[k]),
            fits ==> value == decimal_value(digits.take(i - start)) && value <= u32::MAX,
            !fits ==> decimal_value(digits.take(i - start)) > u32::MAX,
        decreases chars.len() - i,
    {
        let c = chars[i];
        assert(digits[i - start] == c);
        if !('0' <= c && c <= '9') {
            return None;
        }
        assert(digits.take(i + 1 - start).drop_last() =~= digits.take(i - start));
        if fits {
            value = value * 10 + ((c as u32) - ('0' as u32)) as u64;
            fits = value <= 0xffff_ffff;
        }
        i += 1;
    }
    assert(digits.take(digits.len() as int) =~= digits);
    if fits {
        Some(value as u32)
    } else {
        None
    }
}

// What holds of every text.

/// Replacing leaves the length alone and changes exactly the characters that
/// are to be replaced.
pub proof fn replacing_changes_one_character(s: Seq<char>, from: char, to: char)
    ensures
        replaced(s, from, to).len() == s.len(),
        forall|i: int|
            0 <= i < s.len() ==> #[trigger] replaced(s, from, to)[i] == (if s[i] == from {
                to
            } else {
                s[i]
            }),
{
}

/// The number of occurrences of a character is the number of characters that
/// are left when all others are dropped.
pub proof fn occurrences_are_counted(s: Seq<char>, c: char)
    ensures
        occurrences(s, c) == s.filter(|x: char| x == c).len(),
    decreases s.len(),
{
    reveal(Seq::filter);
    if s.len() > 0 {
        occurrences_are_counted(s.drop_last(), c);
    }
}

/// A text is cut at its first separator: put together again with one separator
/// between them the two parts give the text, and the first part holds none. A
/// text that is not cut holds none.
pub proof fn cut_is_at_the_first_separator(s: Seq<char>, sep: char)
    ensures
        match cut_at_first(s, sep) {
            Some((before, after)) => s == before.push(sep) + after && !before.contains(sep),
            None => !s.contains(sep),
        },
{
    lemma_first_index(s, sep);
    if let Some((before, after)) = cut_at_first(s, sep) {
        assert(s =~= before.push(sep) + after);
        if before.contains(sep) {
            let k = choose|k: int| 0 <= k < before.len() && before[k] == sep;
            assert(s[k] == sep);
        }
    }
}

/// Whether a text is made of three parts.
pub open spec fn made_of(
    s: Seq<char>,
    before: Seq<char>,
    middle: Seq<char>,
    after: Seq<char>,
) -> bool {
    s == before + middle + after
}

/// Whether a text holds a part somewhere.
pub open spec fn mentions(s: Seq<char>, part: Seq<char>) -> bool {
    exists|before: Seq<char>, after: Seq<char>| made_of(s, before, part, after)
}

/// A pattern occurs in a text exactly when the text is made of something, the
/// pattern and something else; it stands at the beginning exactly when nothing
/// comes before it.
pub proof fn substring_is_a_part(s: Seq<char>, pattern: Seq<char>)
    ensures
        has_substring(s, pattern) <==> mentions(s, pattern),
        begins_with(s, pattern) <==> exists|after: Seq<char>|
            made_of(s, Seq::empty(), pattern, after),
{
    let none = Seq::<char>::empty();
    assert forall|at: int| occurs_at(s, pattern, at) implies made_of(
        s,
        s.take(at),
        pattern,
        s.skip(at + pattern.len()),
    ) by {
        let end = at + pattern.len();
        assert(s =~= s.take(at) + s.subrange(at, end) + s.skip(end));
    }
    assert forall|before: Seq<char>, after: Seq<char>|
        made_of(s, before, pattern, after) implies occurs_at(s, pattern, before.len() as int) by {
        let at = before.len() as int;
        assert(s.subrange(at, at + pattern.len()) =~= pattern);
    }
    if begins_with(s, pattern) {
        assert(s.take(0) =~= none);
        assert(made_of(s, none, pattern, s.skip(0int + pattern.len())));
    }
}

/// The case of ASCII letters is all that may differ: at each place the two
/// texts hold the same character, or a capital letter and the small letter that
/// stands 32 places behind it.
pub proof fn only_the_case_of_ascii_letters_differs(a: Seq<char>, b: Seq<char>)
    ensures
        same_ignoring_ascii_case(a, b) <==> {
            &&& a.len() == b.len()
            &&& forall|i: int|
                0 <= i < a.len() ==> {
                    ||| #[trigger] a[i] == b[i]
                    ||| 'A' <= a[i] <= 'Z' && b[i] as int == a[i] as int + 32
                    ||| 'A' <= b[i] <= 'Z' && a[i] as int == b[i] as int + 32
                }
        },
{
    assert forall|x: char, y: char| ascii_lower(x) == ascii_lower(y) <==> {
        ||| x == y
        ||| 'A' <= x <= 'Z' && y as int == x as int + 32
        ||| 'A' <= y <= 'Z' && x as int == y as int + 32
    } by {
        lemma_ascii_lower(x);
        lemma_ascii_lower(y);
    }
}

proof fn lemma_ascii_lower(c: char)
    ensures
        ascii_lower(c) as int == if 'A' <= c <= 'Z' {
            c as int + 32
        } else {
            c as int
        },
{
}

/// Whether a text is nothing but white space.
pub open spec fn blank(s: Seq<char>) -> bool {
    forall|i: int| 0 <= i < s.len() ==> white_space(#[trigger] s[i])
}

/// Whether a text neither begins nor ends in white space.
pub open spec fn tight(s: Seq<char>) -> bool {
    s.len() > 0 ==> !white_space(s[0]) && !white_space(s.last())
}

proof fn lemma_trimmed_start(s: Seq<char>)
    ensures
        trimmed_start(s).len() <= s.len(),
        s == s.take(s.len() - trimmed_start(s).len()) + trimmed_start(s),
        blank(s.take(s.len() - trimmed_start(s).len())),
        trimmed_start(s).len() > 0 ==> !white_space(trimmed_start(s)[0]),
    decreases s.len(),
{
    let t = trimmed_start(s);
    if s.len() > 0 && white_space(s[0]) {
        let rest = s.drop_first();
        lemma_trimmed_start(rest);
        let cut = s.take(s.len() - t.len());
        let inner = rest.take(rest.len() - t.len());
        assert(cut =~= seq![s[0]] + inner);
        assert(s =~= seq![s[0]] + rest);
        assert(s =~= cut + t);
        assert forall|i: int| 0 <= i < cut.len() implies white_space(#[trigger] cut[i]) by {
            if i > 0 {
                assert(inner[i - 1] == cut[i]);
            }
        }
    } else {
        assert(s.take(0) + s =~= s);
    }
}

proof fn lemma_trimmed_end(s: Seq<char>)
    ensures
        trimmed_end(s).len() <= s.len(),
        s == trimmed_end(s) + s.skip(trimmed_end(s).len() as int),
        blank(s.skip(trimmed_end(s).len() as int)),
        trimmed_end(s).len() > 0 ==> trimmed_end(s)[0] == s[0] && !white_space(
            trimmed_end(s).last(),
        ),
    decreases s.len(),
{
    let t = trimmed_end(s);
    if s.len() > 0 && white_space(s.last()) {
        let rest = s.drop_last();
        lemma_trimmed_end(rest);
        let cut = s.skip(t.len() as int);
        let inner = rest.skip(t.len() as int);
        assert(cut =~= inner.push(s.last()));
        assert(s =~= rest.push(s.last()));
        assert(s =~= t + cut);
        assert forall|i: int| 0 <= i < cut.len() implies white_space(#[trigger] cut[i]) by {
            if i < inner.len() {
                assert(inner[i] == cut[i]);
            }
        }
    } else {
        assert(s + s.skip(s.len() as int) =~= s);
    }
}

/// Trimming takes away white space at both ends and nothing else, and leaves
/// none there.
pub proof fn trimming_takes_only_white_space(s: Seq<char>)
    ensures
        tight(trimmed(s)),
        exists|before: Seq<char>, after: Seq<char>|
            blank(before) && blank(after) && #[trigger] made_of(s, before, trimmed(s), after),
{
    let start = trimmed_start(s);
    let t = trimmed(s);
    lemma_trimmed_start(s);
    lemma_trimmed_end(start);
    let before = s.take(s.len() - start.len());
    let after = start.skip(t.len() as int);
    assert(s =~= before + t + after);
    assert(made_of(s, before, t, after));
}

proof fn lemma_trim_start_of(before: Seq<char>, rest: Seq<char>)
    requires
        blank(before),
        rest.len() > 0,
        !white_space(rest[0]),
    ensures
        trimmed_start(before + rest) == rest,
    decreases before.len(),
{
    let s = before + rest;
    if before.len() > 0 {
        let fewer = before.drop_first();
        assert forall|i: int| 0 <= i < fewer.len() implies white_space(#[trigger] fewer[i]) by {
            assert(fewer[i] == before[i + 1]);
        }
        assert(s.drop_first() =~= fewer + rest);
        assert(s[0] == before[0]);
        lemma_trim_start_of(fewer, rest);
    } else {
        assert(s =~= rest);
    }
}

proof fn lemma_trim_end_of(rest: Seq<char>, after: Seq<char>)
    requires
        blank(after),
        rest.len() > 0,
        !white_space(rest.last()),
    ensures
        trimmed_end(rest + after) == rest,
    decreases after.len(),
{
    let s = rest + after;
    if after.len() > 0 {
        let fewer = after.drop_last();
        assert forall|i: int| 0 <= i < fewer.len() implies white_space(#[trigger] fewer[i]) by {
            assert(fewer[i] == after[i]);
        }
        assert(s.drop_last() =~= rest + fewer);
        assert(s.last() == after.last());
        lemma_trim_end_of(rest, fewer);
    } else {
        assert(s =~= rest);
    }
}

/// A text that neither begins nor ends in white space is what trimming leaves of
/// it, whatever white space is put around it.
pub proof fn trimming_undoes_padding(before: Seq<char>, text: Seq<char>, after: Seq<char>)
    requires
        blank(before),
        blank(after),
        text.len() > 0,
        tight(text),
    ensures
        trimmed(before + text + after) == text,
{
    assert(before + text + after =~= before + (text + after));
    lemma_trim_start_of(before, text + after);
    lemma_trim_end_of(text, after);
}

/// A number is read digit by digit: a digit behind nothing or behind a plus sign
/// is its value, a digit behind a number makes it ten times as large and adds its
/// value, and nothing else is a number, nor is what does not fit in 32 bits.
pub proof fn numbers_are_read_digit_by_digit(s: Seq<char>, c: char)
    ensures
        parsed_u32(Seq::empty()) is None,
        s == Seq::<char>::empty() || s == seq!['+'] ==> parsed_u32(s.push(c)) == (if '0' <= c
            && c <= '9' {
            Some((c as int - '0' as int) as u32)
        } else {
            None
        }),
        s != Seq::<char>::empty() && s != seq!['+'] ==> parsed_u32(s.push(c)) == match parsed_u32(
            s,
        ) {
            Some(n) => if '0' <= c && c <= '9' && n * 10 + (c as int - '0' as int) <= u32::MAX {
                Some((n * 10 + (c as int - '0' as int)) as u32)
            } else {
                None
            },
            None => None,
        },
{
    let longer = s.push(c);
    let digits = unsigned_part(s);
    if s.len() == 0 {
        assert(s =~= Seq::<char>::empty());
        reveal_with_fuel(decimal_value, 2);
        if c != '+' {
            assert(unsigned_part(longer) =~= seq![c]);
            assert(unsigned_part(longer).drop_last() =~= Seq::<char>::empty());
        }
    } else {
        assert(unsigned_part(longer) =~= digits.push(c));
        assert(digits.push(c).drop_last() =~= digits);
        if digits.len() == 0 {
            assert(s =~= seq!['+']);
            reveal_with_fuel(decimal_value, 2);
            assert(digits.push(c)[0] == c);
        } else {
            assert(s != seq!['+'] || s.len() == 1);
            let all = forall|i: int| 0 <= i < digits.len() ==> digit(digits[i]);
            assert(all ==> decimal_value(digits) >= 0) by {
                if all {
                    lemma_decimal_value(digits);
                }
            }
            if forall|i: int| 0 <= i < digits.push(c).len() ==> digit(digits.push(c)[i]) {
                assert forall|i: int| 0 <= i < digits.len() implies digit(digits[i]) by {
                    assert(digits.push(c)[i] == digits[i]);
                }
                assert(digit(digits.push(c)[digits.len() as int]));
            }
        }
    }
}

proof fn lemma_decimal_value(digits: Seq<char>)
    requires
        forall|i: int| 0 <= i < digits.len() ==> digit(digits[i]),
    ensures
        decimal_value(digits) >= 0,
    decreases digits.len(),
{
    if digits.len() > 0 {
        let rest = digits.drop_last();
        assert forall|i: int| 0 <= i < rest.len() implies digit(rest[i]) by {
            assert(rest[i] == digits[i]);
        }
        assert(digit(digits[digits.len() - 1]));
        lemma_decimal_value(rest);
    }
}

/// A text without the separator is its only piece.
pub proof fn lemma_one_piece(s: Seq<char>, sep: char)
    requires
        !s.contains(sep),
    ensures
        pieces(s, sep) == seq![s],
    decreases s.len(),
{
    if s.len() > 0 {
        let rest = s.drop_last();
        assert(s[s.len() - 1] != sep);
        assert forall|i: int| 0 <= i < rest.len() implies rest[i] != sep by {
            assert(s[i] != sep);
        }
        lemma_one_piece(rest, sep);
        assert(rest.push(s.last()) =~= s);
        assert(pieces(s, sep) =~= seq![s]);
    } else {
        assert(s =~= Seq::<char>::empty());
    }
}

/// The pieces of two texts with a separator between them are those of the one
/// and those of the other.
pub proof fn lemma_pieces_of_two(a: Seq<char>, b: Seq<char>, sep: char)
    ensures
        pieces(a.push(sep) + b, sep) == pieces(a, sep) + pieces(b, sep),
    decreases b.len(),
{
    let s = a.push(sep) + b;
    if b.len() == 0 {
        assert(s.drop_last() =~= a);
        assert(pieces(s, sep) =~= pieces(a, sep) + pieces(b, sep));
    } else {
        let rest = b.drop_last();
        lemma_pieces_of_two(a, rest, sep);
        pieces_hold_no_separator(rest, sep);
        assert(s.drop_last() =~= a.push(sep) + rest);
        assert(s.last() == b.last());
        assert(pieces(s, sep) =~= pieces(a, sep) + pieces(b, sep));
    }
}

/// One more part is joined behind one more separator.
pub proof fn lemma_join_one_more(parts: Seq<Seq<char>>, part: Seq<char>, sep: char)
    requires
        parts.len() > 0,
    ensures
        joined_by(parts.push(part), sep) == joined_by(parts, sep).push(sep) + part,
{
    assert(parts.push(part).drop_last() =~= parts);
}

/// Splitting undoes joining: parts that hold no separator come back as they were
/// when they are joined with separators between them and split again.
pub proof fn splitting_undoes_joining(parts: Seq<Seq<char>>, sep: char)
    requires
        parts.len() > 0,
        forall|i: int| 0 <= i < parts.len() ==> !(#[trigger] parts[i]).contains(sep),
    ensures
        pieces(joined_by(parts, sep), sep) == parts,
    decreases parts.len(),
{
    if parts.len() == 1 {
        lemma_one_piece(parts[0], sep);
        assert(parts =~= seq![parts[0]]);
    } else {
        let rest = parts.drop_last();
        assert forall|i: int| 0 <= i < rest.len() implies !(#[trigger] rest[i]).contains(sep) by {
            assert(rest[i] == parts[i]);
        }
        splitting_undoes_joining(rest, sep);
        assert(!parts[parts.len() - 1].contains(sep));
        lemma_one_piece(parts.last(), sep);
        lemma_pieces_of_two(joined_by(rest, sep), parts.last(), sep);
        assert(rest + seq![parts.last()] =~= parts);
    }
}

} // verus!
