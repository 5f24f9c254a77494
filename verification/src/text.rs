//! Text primitives over Unicode scalar values, each with an exact contract.

use vstd::prelude::*;

verus! {

/// Appends one character, as `String::push` documents.
pub assume_specification[ std::string::String::push ](s: &mut std::string::String, ch: char)
    ensures
        final(s)@ == old(s)@.push(ch),
;

/// Lexicographic order by code point, which is also the byte order of UTF-8.
pub open spec fn lex_less(left: Seq<char>, right: Seq<char>) -> bool
    decreases left.len(),
{
    if right.len() == 0 {
        false
    } else if left.len() == 0 {
        true
    } else if left[0] != right[0] {
        left[0] < right[0]
    } else {
        lex_less(left.drop_first(), right.drop_first())
    }
}

/// Nothing is less than itself.
pub proof fn lex_less_irreflexive(text: Seq<char>)
    ensures
        !lex_less(text, text),
    decreases text.len(),
{
    if text.len() > 0 {
        lex_less_irreflexive(text.drop_first());
    }
}

/// The order is transitive.
pub proof fn lex_less_transitive(a: Seq<char>, b: Seq<char>, c: Seq<char>)
    requires
        lex_less(a, b),
        lex_less(b, c),
    ensures
        lex_less(a, c),
    decreases a.len(),
{
    if a.len() > 0 && a[0] == b[0] && b[0] == c[0] {
        lex_less_transitive(a.drop_first(), b.drop_first(), c.drop_first());
    }
}

/// Two different texts are ordered one way or the other.
pub proof fn lex_less_total(a: Seq<char>, b: Seq<char>)
    ensures
        lex_less(a, b) || lex_less(b, a) || a == b,
    decreases a.len(),
{
    if a.len() > 0 && b.len() > 0 && a[0] == b[0] {
        lex_less_total(a.drop_first(), b.drop_first());
        if a.drop_first() == b.drop_first() {
            assert(a =~= seq![a[0]] + a.drop_first());
            assert(b =~= seq![b[0]] + b.drop_first());
        }
    } else if a.len() == 0 && b.len() == 0 {
        assert(a =~= b);
    }
}

/// Whether `left` sorts before `right`.
pub fn text_less(left: &str, right: &str) -> (less: bool)
    ensures
        less == lex_less(left@, right@),
{
    let mut lefts = left.chars();
    let mut rights = right.chars();
    loop
        invariant
            lex_less(left@, right@) == lex_less(vstd::std_specs::iter::IteratorSpec::remaining(&lefts), vstd::std_specs::iter::IteratorSpec::remaining(&rights)),
            vstd::std_specs::iter::IteratorSpec::decrease(&lefts) is Some,
        decreases vstd::std_specs::iter::IteratorSpec::decrease(&lefts)->0,
    {
        let a = lefts.next();
        let b = rights.next();
        match (a, b) {
            (_, None) => {
                return false;
            },
            (None, Some(_)) => {
                return true;
            },
            (Some(x), Some(y)) => {
                if x != y {
                    return x < y;
                }
            },
        }
    }
}

/// The characters of a text.
pub fn chars_of(text: &str) -> (characters: Vec<char>)
    ensures
        characters@ == text@,
{
    let mut characters: Vec<char> = Vec::new();
    for character in it: text.chars()
        invariant
            characters@ == it.seq().take(it.index()),
            it.seq() == text@,
    {
        characters.push(character);
    }
    characters
}

/// Whether two texts hold the same characters.
pub fn text_eq(left: &str, right: &str) -> (same: bool)
    ensures
        same == (left@ == right@),
{
    let lefts = chars_of(left);
    let rights = chars_of(right);
    if lefts.len() != rights.len() {
        return false;
    }
    let mut i: usize = 0;
    while i < lefts.len()
        invariant
            lefts@ == left@,
            rights@ == right@,
            lefts@.len() == rights@.len(),
            i <= lefts@.len(),
            forall|j: int| 0 <= j < i ==> lefts@[j] == rights@[j],
        decreases lefts@.len() - i,
    {
        if lefts[i] != rights[i] {
            assert(left@[i as int] != right@[i as int]);
            return false;
        }
        i += 1;
    }
    assert(left@ =~= right@);
    true
}

/// Whether two optional texts are both absent or hold the same characters.
pub fn optional_text_eq(left: &Option<String>, right: &Option<String>) -> (same: bool)
    ensures
        same == (optional_view(*left) == optional_view(*right)),
{
    match (left, right) {
        (None, None) => true,
        (Some(a), Some(b)) => text_eq(a.as_str(), b.as_str()),
        _ => false,
    }
}

/// The characters of an optional text.
pub open spec fn optional_view(text: Option<String>) -> Option<Seq<char>> {
    match text {
        Some(value) => Some(value@),
        None => None,
    }
}

/// A copy of an optional text.
pub fn optional_clone(text: &Option<String>) -> (copy: Option<String>)
    ensures
        optional_view(copy) == optional_view(*text),
{
    match text {
        Some(value) => Some(value.clone()),
        None => None,
    }
}

/// The text between two character positions.
pub fn text_between(characters: &Vec<char>, from: usize, to: usize) -> (text: String)
    requires
        from <= to <= characters@.len(),
    ensures
        text@ == characters@.subrange(from as int, to as int),
{
    let mut text = String::new();
    let mut i: usize = from;
    while i < to
        invariant
            from <= i <= to <= characters@.len(),
            text@ == characters@.subrange(from as int, i as int),
        decreases to - i,
    {
        text.push(characters[i]);
        i += 1;
        assert(characters@.subrange(from as int, i as int) =~= characters@.subrange(
            from as int,
            i - 1,
        ).push(characters@[i - 1]));
    }
    text
}

/// The text made of the given characters.
pub fn text_of(characters: &Vec<char>) -> (text: String)
    ensures
        text@ == characters@,
{
    let text = text_between(characters, 0, characters.len());
    assert(characters@.subrange(0, characters@.len() as int) =~= characters@);
    text
}

/// The Unicode `White_Space` property.
pub open spec fn white_space(c: char) -> bool {
    ||| '\u{9}' <= c <= '\u{d}'
    ||| c == '\u{20}'
    ||| c == '\u{85}'
    ||| c == '\u{a0}'
    ||| c == '\u{1680}'
    ||| '\u{2000}' <= c <= '\u{200a}'
    ||| c == '\u{2028}'
    ||| c == '\u{2029}'
    ||| c == '\u{202f}'
    ||| c == '\u{205f}'
    ||| c == '\u{3000}'
}

/// Whether a character is white space.
pub fn is_white_space(c: char) -> (result: bool)
    ensures
        result == white_space(c),
{
    ('\u{9}' <= c && c <= '\u{d}') || c == '\u{20}' || c == '\u{85}' || c == '\u{a0}' || c
        == '\u{1680}' || ('\u{2000}' <= c && c <= '\u{200a}') || c == '\u{2028}' || c == '\u{2029}'
        || c == '\u{202f}' || c == '\u{205f}' || c == '\u{3000}'
}

/// The Unicode general category `Cc`.
pub open spec fn control(c: char) -> bool {
    c <= '\u{1f}' || '\u{7f}' <= c <= '\u{9f}'
}

/// Whether a character is a control character.
pub fn is_control(c: char) -> (result: bool)
    ensures
        result == control(c),
{
    c <= '\u{1f}' || ('\u{7f}' <= c && c <= '\u{9f}')
}

/// Whether any character is a control character.
pub open spec fn has_control(text: Seq<char>) -> bool {
    exists|i: int| 0 <= i < text.len() && control(#[trigger] text[i])
}

/// Whether a text contains a control character.
pub fn contains_control(text: &str) -> (result: bool)
    ensures
        result == has_control(text@),
{
    let characters = chars_of(text);
    let mut i: usize = 0;
    while i < characters.len()
        invariant
            characters@ == text@,
            i <= characters@.len(),
            forall|j: int| 0 <= j < i ==> !control(#[trigger] text@[j]),
        decreases characters@.len() - i,
    {
        if is_control(characters[i]) {
            assert(control(text@[i as int]));
            return true;
        }
        i += 1;
    }
    false
}

/// A text of white space only, the empty text included.
pub open spec fn blank(text: Seq<char>) -> bool {
    forall|i: int| 0 <= i < text.len() ==> white_space(#[trigger] text[i])
}

/// Whether nothing but white space is left of a text.
pub fn is_blank(text: &str) -> (result: bool)
    ensures
        result == blank(text@),
{
    let characters = chars_of(text);
    let mut i: usize = 0;
    while i < characters.len()
        invariant
            characters@ == text@,
            i <= characters@.len(),
            forall|j: int| 0 <= j < i ==> white_space(#[trigger] text@[j]),
        decreases characters@.len() - i,
    {
        if !is_white_space(characters[i]) {
            assert(!white_space(text@[i as int]));
            return false;
        }
        i += 1;
    }
    true
}

/// A text without the white space at its two ends.
pub open spec fn trimmed(text: Seq<char>) -> Seq<char>
    decreases text.len(),
{
    if text.len() == 0 {
        text
    } else if white_space(text[0]) {
        trimmed(text.drop_first())
    } else if white_space(text.last()) {
        trimmed(text.drop_last())
    } else {
        text
    }
}

/// Trimming leaves nothing exactly of a blank text.
pub proof fn trimmed_is_empty_exactly_when_blank(text: Seq<char>)
    ensures
        (trimmed(text).len() == 0) == blank(text),
    decreases text.len(),
{
    if text.len() > 0 {
        if white_space(text[0]) {
            let rest = text.drop_first();
            trimmed_is_empty_exactly_when_blank(rest);
            assert forall|i: int| blank(rest) && 0 <= i < text.len() implies white_space(
                #[trigger] text[i],
            ) by {
                if i > 0 {
                    assert(rest[i - 1] == text[i]);
                }
            }
            assert(blank(text) ==> blank(rest));
        } else if white_space(text.last()) {
            let rest = text.drop_last();
            trimmed_is_empty_exactly_when_blank(rest);
            assert(!white_space(text[0]));
            assert(rest.len() > 0 ==> rest[0] == text[0]);
        } else {
            assert(!white_space(text[0]));
        }
    }
}

/// Removes the white space at the two ends of a text.
pub fn trim_text(text: &str) -> (result: String)
    ensures
        result@ == trimmed(text@),
{
    let characters = chars_of(text);
    let mut from: usize = 0;
    let mut to: usize = characters.len();
    assert(characters@.subrange(0, to as int) =~= text@);
    while from < to && is_white_space(characters[from])
        invariant
            from <= to <= characters@.len(),
            characters@ == text@,
            trimmed(text@) == trimmed(characters@.subrange(from as int, to as int)),
        decreases to - from,
    {
        assert(characters@.subrange(from as int, to as int).drop_first() =~= characters@.subrange(
            from + 1,
            to as int,
        ));
        from += 1;
    }
    while from < to && is_white_space(characters[to - 1])
        invariant
            from <= to <= characters@.len(),
            characters@ == text@,
            from < to ==> !white_space(characters@[from as int]),
            trimmed(text@) == trimmed(characters@.subrange(from as int, to as int)),
        decreases to - from,
    {
        assert(characters@.subrange(from as int, to as int).drop_last() =~= characters@.subrange(
            from as int,
            to - 1,
        ));
        to -= 1;
    }
    text_between(&characters, from, to)
}

/// Whether `part` occurs at position `at` of `text`.
pub open spec fn occurs_at(text: Seq<char>, part: Seq<char>, at: int) -> bool {
    0 <= at && at + part.len() <= text.len() && text.subrange(at, at + part.len()) == part
}

/// Whether `part` occurs anywhere in `text`.
pub open spec fn occurs(text: Seq<char>, part: Seq<char>) -> bool {
    exists|at: int| #[trigger] occurs_at(text, part, at)
}

/// Whether the characters of `part` stand at position `at` of `text`.
pub fn matches_at(text: &Vec<char>, part: &Vec<char>, at: usize) -> (result: bool)
    ensures
        result == occurs_at(text@, part@, at as int),
{
    if part.len() > text.len() || at > text.len() - part.len() {
        return false;
    }
    let mut i: usize = 0;
    while i < part.len()
        invariant
            i <= part@.len(),
            at + part.len() <= text.len(),
            forall|j: int| 0 <= j < i ==> text@[at + j] == part@[j],
        decreases part@.len() - i,
    {
        if text[at + i] != part[i] {
            assert(text@.subrange(at as int, at + part@.len())[i as int] != part@[i as int]);
            return false;
        }
        i += 1;
    }
    assert(text@.subrange(at as int, at + part@.len()) =~= part@);
    true
}

/// Whether `part` occurs anywhere in `text`.
pub fn contains_text(text: &Vec<char>, part: &Vec<char>) -> (result: bool)
    ensures
        result == occurs(text@, part@),
{
    if part.len() > text.len() {
        return false;
    }
    let last: usize = text.len() - part.len();
    let mut at: usize = 0;
    loop
        invariant
            last == text@.len() - part@.len(),
            at <= last,
            forall|earlier: int| 0 <= earlier < at ==> !occurs_at(text@, part@, earlier),
        decreases last - at,
    {
        if matches_at(text, part, at) {
            return true;
        }
        if at == last {
            return false;
        }
        at += 1;
    }
}

/// Whether a text begins with another.
pub open spec fn begins_with(text: Seq<char>, prefix: Seq<char>) -> bool {
    occurs_at(text, prefix, 0)
}

/// Whether a text begins with another.
pub fn starts_with(text: &str, prefix: &str) -> (result: bool)
    ensures
        result == begins_with(text@, prefix@),
{
    matches_at(&chars_of(text), &chars_of(prefix), 0)
}

/// The position of the first occurrence of a character, or the length of the
/// text where it does not occur.
pub open spec fn position(text: Seq<char>, c: char) -> nat
    decreases text.len(),
{
    if text.len() == 0 || text[0] == c {
        0
    } else {
        1 + position(text.drop_first(), c)
    }
}

/// What stands before the position is free of the character, and the position
/// itself holds it unless it is the end.
pub proof fn position_is_first(text: Seq<char>, c: char)
    ensures
        position(text, c) <= text.len(),
        position(text, c) < text.len() ==> text[position(text, c) as int] == c,
        forall|i: int| 0 <= i < position(text, c) ==> text[i] != c,
    decreases text.len(),
{
    if text.len() > 0 && text[0] != c {
        let rest = text.drop_first();
        position_is_first(rest, c);
        assert forall|i: int| 0 <= i < position(text, c) implies text[i] != c by {
            if i > 0 {
                assert(rest[i - 1] == text[i]);
            }
        }
    }
}

/// A position with no earlier occurrence is the first.
pub proof fn position_found(text: Seq<char>, c: char, at: int)
    requires
        0 <= at <= text.len(),
        at < text.len() ==> text[at] == c,
        forall|i: int| 0 <= i < at ==> text[i] != c,
    ensures
        position(text, c) == at,
    decreases text.len(),
{
    if at > 0 {
        let rest = text.drop_first();
        assert forall|i: int| 0 <= i < at - 1 implies rest[i] != c by {
            assert(rest[i] == text[i + 1]);
        }
        position_found(rest, c, at - 1);
    }
}

/// Finds the first occurrence of a character at or after `from`, counted from
/// there.
pub fn find_char(characters: &Vec<char>, c: char, from: usize) -> (at: usize)
    requires
        from <= characters@.len(),
    ensures
        at == from + position(characters@.skip(from as int), c),
        from <= at <= characters@.len(),
        at < characters@.len() ==> characters@[at as int] == c,
        forall|i: int| from <= i < at ==> characters@[i] != c,
{
    let ghost rest = characters@.skip(from as int);
    let mut at: usize = from;
    while at < characters.len() && characters[at] != c
        invariant
            from <= at <= characters@.len(),
            forall|i: int| from <= i < at ==> characters@[i] != c,
        decreases characters@.len() - at,
    {
        at += 1;
    }
    proof {
        assert forall|i: int| 0 <= i < at - from implies rest[i] != c by {
            assert(rest[i] == characters@[from + i]);
        }
        position_found(rest, c, at - from);
    }
    at
}

/// ASCII letters in lower case, anything else unchanged.
pub open spec fn lower_ascii(c: char) -> char {
    if 'A' <= c <= 'Z' {
        ((c as u8) + 32) as char
    } else {
        c
    }
}

/// ASCII letters in upper case, anything else unchanged.
pub open spec fn upper_ascii(c: char) -> char {
    if 'a' <= c <= 'z' {
        ((c as u8) - 32) as char
    } else {
        c
    }
}

/// A character in ASCII lower case.
pub fn to_lower_ascii(c: char) -> (result: char)
    ensures
        result == lower_ascii(c),
{
    if 'A' <= c && c <= 'Z' {
        ((c as u8) + 32) as char
    } else {
        c
    }
}

/// A character in ASCII upper case.
pub fn to_upper_ascii(c: char) -> (result: char)
    ensures
        result == upper_ascii(c),
{
    if 'a' <= c && c <= 'z' {
        ((c as u8) - 32) as char
    } else {
        c
    }
}

/// A text in ASCII lower case.
pub open spec fn lowered(text: Seq<char>) -> Seq<char> {
    Seq::new(text.len(), |i: int| lower_ascii(text[i]))
}

/// A text in ASCII upper case.
pub open spec fn raised(text: Seq<char>) -> Seq<char> {
    Seq::new(text.len(), |i: int| upper_ascii(text[i]))
}

/// The characters in ASCII lower case.
pub fn lower_chars(characters: &Vec<char>) -> (result: Vec<char>)
    ensures
        result@ == lowered(characters@),
{
    let mut result: Vec<char> = Vec::new();
    let mut i: usize = 0;
    while i < characters.len()
        invariant
            i <= characters@.len(),
            result@ == lowered(characters@.take(i as int)),
        decreases characters@.len() - i,
    {
        result.push(to_lower_ascii(characters[i]));
        i += 1;
        assert(result@ =~= lowered(characters@.take(i as int)));
    }
    assert(characters@.take(i as int) =~= characters@);
    result
}

/// The characters in ASCII upper case.
pub fn upper_chars(characters: &Vec<char>) -> (result: Vec<char>)
    ensures
        result@ == raised(characters@),
{
    let mut result: Vec<char> = Vec::new();
    let mut i: usize = 0;
    while i < characters.len()
        invariant
            i <= characters@.len(),
            result@ == raised(characters@.take(i as int)),
        decreases characters@.len() - i,
    {
        result.push(to_upper_ascii(characters[i]));
        i += 1;
        assert(result@ =~= raised(characters@.take(i as int)));
    }
    assert(characters@.take(i as int) =~= characters@);
    result
}

} // verus!
