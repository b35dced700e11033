//! Text predicates over sequences of characters.

use vstd::prelude::*;

verus! {

/// `part` stands in `text` with its first character at index `at`.
pub open spec fn occurs_at(text: Seq<char>, part: Seq<char>, at: int) -> bool {
    &&& 0 <= at
    &&& at + part.len() <= text.len()
    &&& text.subrange(at, at + part.len()) == part
}

/// `part` stands somewhere in `text`.
pub open spec fn has_part(text: Seq<char>, part: Seq<char>) -> bool {
    exists|at: int| occurs_at(text, part, at)
}

pub open spec fn has_prefix(text: Seq<char>, part: Seq<char>) -> bool {
    occurs_at(text, part, 0)
}

pub open spec fn has_suffix(text: Seq<char>, part: Seq<char>) -> bool {
    occurs_at(text, part, text.len() - part.len())
}

/// Characters with the Unicode property `White_Space`.
pub open spec fn is_white_space(character: char) -> bool {
    let code = character as u32;
    ||| 0x09 <= code <= 0x0d
    ||| code == 0x20
    ||| code == 0x85
    ||| code == 0xa0
    ||| code == 0x1680
    ||| 0x2000 <= code <= 0x200a
    ||| code == 0x2028
    ||| code == 0x2029
    ||| code == 0x202f
    ||| code == 0x205f
    ||| code == 0x3000
}

/// Lower case of the letters A to Z; every other character is kept.
pub open spec fn ascii_lower(character: char) -> char {
    if 'A' <= character <= 'Z' {
        ((character as u32 + 32) as u32) as char
    } else {
        character
    }
}

/// Equality that does not tell the cases of the letters A to Z apart.
pub open spec fn equal_ignoring_ascii_case(left: Seq<char>, right: Seq<char>) -> bool {
    &&& left.len() == right.len()
    &&& forall|i: int| 0 <= i < left.len() ==> ascii_lower(left[i]) == ascii_lower(right[i])
}

/// Number of white-space characters at the start of `text`.
pub open spec fn leading_space(text: Seq<char>) -> nat
    decreases text.len(),
{
    if text.len() > 0 && is_white_space(text.first()) {
        1 + leading_space(text.drop_first())
    } else {
        0
    }
}

/// Number of white-space characters at the end of `text`.
pub open spec fn trailing_space(text: Seq<char>) -> nat
    decreases text.len(),
{
    if text.len() > 0 && is_white_space(text.last()) {
        1 + trailing_space(text.drop_last())
    } else {
        0
    }
}

/// `text` without the white space at its two ends.
pub open spec fn trimmed(text: Seq<char>) -> Seq<char> {
    let rest = text.skip(leading_space(text) as int);
    rest.take(rest.len() - trailing_space(rest))
}

/// Appends one character, as `String::push` documents.
pub assume_specification[ String::push ](text: &mut String, character: char)
    ensures
        final(text)@ == old(text)@.push(character),
;

/// Lower case of one character as `char::to_lowercase` gives it. The mapping is
/// the Unicode one; it may give several characters.
pub uninterp spec fn lowercase_of(character: char) -> Seq<char>;

/// Lower case of a whole text as `str::to_lowercase` gives it.
pub uninterp spec fn lowercase_text(text: Seq<char>) -> Seq<char>;

/// `char::to_lowercase`: the characters that it yields, in order.
#[verifier::external_body]
fn char_to_lowercase(character: char) -> (result: Vec<char>)
    ensures
        result@ == lowercase_of(character),
{
    character.to_lowercase().collect()
}

/// `str::to_lowercase`: the text that it returns.
#[verifier::external_body]
pub(crate) fn str_to_lowercase(text: &str) -> (result: String)
    ensures
        result@ == lowercase_text(text@),
{
    text.to_lowercase()
}

/// The characters of a string slice.
pub fn chars_of(text: &str) -> (result: Vec<char>)
    ensures
        result@ == text@,
{
    let mut result: Vec<char> = Vec::new();
    for character in iter: text.chars()
        invariant
            result@ == iter.seq().take(iter.index() as int),
            iter.seq() == text@,
    {
        result.push(character);
    }
    result
}

/// The characters of an owned string.
pub fn chars_of_string(text: &String) -> (result: Vec<char>)
    ensures
        result@ == text@,
{
    chars_of(text.as_str())
}

/// Whether `part` stands in `text` at index `at`.
fn matches_at(text: &Vec<char>, part: &Vec<char>, at: usize) -> (result: bool)
    requires
        at <= text.len(),
    ensures
        result == occurs_at(text@, part@, at as int),
{
    if part.len() > text.len() - at {
        return false;
    }
    let mut i: usize = 0;
    while i < part.len()
        invariant
            i <= part.len(),
            at + part.len() <= text.len(),
            forall|k: int| 0 <= k < i ==> text@[at + k] == part@[k],
        decreases part.len() - i,
    {
        if text[at + i] != part[i] {
            assert(text@.subrange(at as int, at + part.len())[i as int] != part@[i as int]);
            return false;
        }
        i += 1;
    }
    assert(text@.subrange(at as int, at + part.len()) =~= part@);
    true
}

/// Substring search over characters, as `str::contains` does it for a text.
pub fn contains_chars(text: &Vec<char>, part: &str) -> (result: bool)
    ensures
        result == has_part(text@, part@),
{
    let wanted = chars_of(part);
    let mut at: usize = 0;
    loop
        invariant
            at <= text.len(),
            wanted@ == part@,
            forall|k: int| 0 <= k < at ==> !occurs_at(text@, part@, k),
        decreases text.len() - at,
    {
        if matches_at(text, &wanted, at) {
            return true;
        }
        if at == text.len() {
            return false;
        }
        at += 1;
    }
}

pub fn contains(text: &str, part: &str) -> (result: bool)
    ensures
        result == has_part(text@, part@),
{
    contains_chars(&chars_of(text), part)
}

pub fn starts_with(text: &str, part: &str) -> (result: bool)
    ensures
        result == has_prefix(text@, part@),
{
    matches_at(&chars_of(text), &chars_of(part), 0)
}

pub fn ends_with(text: &str, part: &str) -> (result: bool)
    ensures
        result == has_suffix(text@, part@),
{
    let text = chars_of(text);
    let part = chars_of(part);
    if part.len() > text.len() {
        return false;
    }
    matches_at(&text, &part, text.len() - part.len())
}

/// Whether two texts are the same text.
pub fn same_text(left: &str, right: &str) -> (result: bool)
    ensures
        result == (left@ == right@),
{
    let left = chars_of(left);
    let right = chars_of(right);
    if left.len() != right.len() {
        return false;
    }
    let found = matches_at(&left, &right, 0);
    assert(left@.subrange(0, left@.len() as int) =~= left@);
    found
}

fn lower_ascii(character: char) -> (result: char)
    ensures
        result == ascii_lower(character),
{
    match character {
        'A' => 'a',
        'B' => 'b',
        'C' => 'c',
        'D' => 'd',
        'E' => 'e',
        'F' => 'f',
        'G' => 'g',
        'H' => 'h',
        'I' => 'i',
        'J' => 'j',
        'K' => 'k',
        'L' => 'l',
        'M' => 'm',
        'N' => 'n',
        'O' => 'o',
        'P' => 'p',
        'Q' => 'q',
        'R' => 'r',
        'S' => 's',
        'T' => 't',
        'U' => 'u',
        'V' => 'v',
        'W' => 'w',
        'X' => 'x',
        'Y' => 'y',
        'Z' => 'z',
        _ => character,
    }
}

/// Equality of two texts up to the case of ASCII letters.
pub fn eq_ignore_ascii_case(left: &str, right: &str) -> (result: bool)
    ensures
        result == equal_ignoring_ascii_case(left@, right@),
{
    let first = chars_of(left);
    let second = chars_of(right);
    if first.len() != second.len() {
        return false;
    }
    let mut i: usize = 0;
    while i < first.len()
        invariant
            i <= first.len(),
            first.len() == second.len(),
            first@ == left@,
            second@ == right@,
            forall|k: int| 0 <= k < i ==> ascii_lower(left@[k]) == ascii_lower(right@[k]),
        decreases first.len() - i,
    {
        if lower_ascii(first[i]) != lower_ascii(second[i]) {
            assert(ascii_lower(left@[i as int]) != ascii_lower(right@[i as int]));
            return false;
        }
        i += 1;
    }
    true
}

/// Whether a character is white space.
pub fn is_whitespace(character: char) -> (result: bool)
    ensures
        result == is_white_space(character),
{
    let code: u32 = character as u32;
    (0x09 <= code && code <= 0x0d) || code == 0x20 || code == 0x85 || code == 0xa0 || code == 0x1680
        || (0x2000 <= code && code <= 0x200a) || code == 0x2028 || code == 0x2029 || code == 0x202f
        || code == 0x205f || code == 0x3000
}

/// Removes the white space at the two ends of a text.
pub fn trim(text: &str) -> (result: String)
    ensures
        result@ == trimmed(text@),
{
    let chars = chars_of(text);
    let mut start: usize = 0;
    assert(chars@.skip(0) =~= chars@);
    while start < chars.len() && is_whitespace(chars[start])
        invariant
            start <= chars.len(),
            leading_space(chars@) == start + leading_space(chars@.skip(start as int)),
        decreases chars.len() - start,
    {
        assert(chars@.skip(start as int).drop_first() =~= chars@.skip(start + 1));
        start += 1;
    }
    assert(leading_space(chars@) == start) by {
        if start < chars.len() {
            assert(chars@.skip(start as int).first() == chars@[start as int]);
        }
    }
    let ghost rest = chars@.skip(start as int);
    let mut end: usize = chars.len();
    assert(rest.take(rest.len() as int) =~= rest);
    while start < end && is_whitespace(chars[end - 1])
        invariant
            start <= end <= chars.len(),
            rest == chars@.skip(start as int),
            trailing_space(rest) == (chars.len() - end) + trailing_space(rest.take(end - start)),
        decreases end,
    {
        assert(rest.take(end - start).drop_last() =~= rest.take(end - start - 1));
        end -= 1;
    }
    assert(trailing_space(rest) == chars.len() - end) by {
        if start < end {
            assert(rest.take(end - start).last() == chars@[end - 1]);
        }
    }
    let mut result = String::new();
    let mut i: usize = start;
    assert(rest.take(0) =~= Seq::<char>::empty());
    while i < end
        invariant
            start <= i <= end <= chars.len(),
            rest == chars@.skip(start as int),
            result@ == rest.take(i - start),
        decreases end - i,
    {
        result.push(chars[i]);
        assert(rest.take(i + 1 - start) =~= rest.take(i - start).push(chars@[i as int]));
        i += 1;
    }
    result
}

/// Appends `right` to `left`.
pub fn joined(left: &str, right: &str) -> (result: String)
    ensures
        result@ == left@ + right@,
{
    let mut result = String::new();
    result.append(left);
    result.append(right);
    assert(result@ =~= left@ + right@);
    result
}

/// Lower case of every character that a filter keeps, in order.
pub open spec fn folded(text: Seq<char>, dropped: spec_fn(char) -> bool) -> Seq<char>
    decreases text.len(),
{
    if text.len() == 0 {
        Seq::empty()
    } else if dropped(text.last()) {
        folded(text.drop_last(), dropped)
    } else {
        folded(text.drop_last(), dropped) + lowercase_of(text.last())
    }
}

/// Appends the lower case of one character to `text`.
pub(crate) fn push_lowercase(text: &mut String, character: char)
    ensures
        final(text)@ == old(text)@ + lowercase_of(character),
{
    let lower = char_to_lowercase(character);
    let ghost before = text@;
    let mut i: usize = 0;
    assert(before + lower@.take(0) =~= before);
    while i < lower.len()
        invariant
            i <= lower.len(),
            text@ == before + lower@.take(i as int),
        decreases lower.len() - i,
    {
        text.push(lower[i]);
        assert(before + lower@.take(i + 1) =~= (before + lower@.take(i as int)).push(lower@[i as int]));
        i += 1;
    }
    assert(lower@.take(i as int) =~= lower@);
}

/// A text has a part where the part's characters stand in it one after the other.
pub proof fn law_parts_are_found_anywhere(before: Seq<char>, part: Seq<char>, after: Seq<char>)
    ensures
        has_part(before + part + after, part),
        has_prefix(part + after, part),
        has_suffix(before + part, part),
        has_prefix(part, part) && has_suffix(part, part),
{
    let text = before + part + after;
    let at = before.len() as int;
    assert(text.subrange(at, at + part.len()) =~= part);
    assert(occurs_at(text, part, at));
    assert((part + after).subrange(0, part.len() as int) =~= part);
    let ended = before + part;
    assert(ended.subrange(at, at + part.len()) =~= part);
    assert(part.subrange(0, part.len() as int) =~= part);
}

/// A text with a part is made of what stands before it, the part, and what stands behind;
/// with a prefix or suffix nothing stands before or behind.
pub proof fn law_texts_are_made_of_their_parts(text: Seq<char>, part: Seq<char>)
    ensures
        has_part(text, part) ==> exists|before: Seq<char>, after: Seq<char>|
            text == #[trigger] (before + part + after),
        has_prefix(text, part) ==> text == part + text.skip(part.len() as int),
        has_suffix(text, part) ==> text == text.take(text.len() - part.len()) + part,
        has_prefix(text, part) || has_suffix(text, part) ==> has_part(text, part),
{
    if has_part(text, part) {
        let at = choose|at: int| occurs_at(text, part, at);
        let before = text.take(at);
        let after = text.skip(at + part.len());
        assert(text =~= before + text.subrange(at, at + part.len()) + after);
        assert(text == before + part + after);
    }
    if has_prefix(text, part) {
        assert(text =~= text.subrange(0, part.len() as int) + text.skip(part.len() as int));
    }
    if has_suffix(text, part) {
        let at = text.len() - part.len();
        assert(text =~= text.take(at) + text.subrange(at, at + part.len()));
    }
}

/// Trimming takes away white space at the two ends and nothing else: what is left begins and
/// ends with something else, and stands in the text with only white space round it.
pub proof fn law_trimming_takes_only_white_space(text: Seq<char>)
    ensures
        ({
            let start = leading_space(text) as int;
            let kept = trimmed(text);
            &&& start <= text.len()
            &&& start + kept.len() <= text.len()
            &&& kept == text.subrange(start, start + kept.len())
            &&& forall|k: int| 0 <= k < start ==> is_white_space(#[trigger] text[k])
            &&& forall|k: int|
                start + kept.len() <= k < text.len() ==> is_white_space(#[trigger] text[k])
            &&& kept.len() > 0 ==> !is_white_space(kept.first()) && !is_white_space(kept.last())
        }),
{
    lemma_leading_space(text);
    let start = leading_space(text) as int;
    let rest = text.skip(start);
    lemma_trailing_space(rest);
    let kept = trimmed(text);
    assert(kept =~= text.subrange(start, start + kept.len()));
    assert forall|k: int| start + kept.len() <= k < text.len() implies is_white_space(
        #[trigger] text[k],
    ) by {
        assert(rest[k - start] == text[k]);
    }
    if kept.len() > 0 {
        assert(kept.first() == text[start]);
        assert(kept.last() == rest[kept.len() - 1]);
    }
}

proof fn lemma_leading_space(text: Seq<char>)
    ensures
        leading_space(text) <= text.len(),
        forall|k: int| 0 <= k < leading_space(text) ==> is_white_space(#[trigger] text[k]),
        leading_space(text) < text.len() ==> !is_white_space(text[leading_space(text) as int]),
    decreases text.len(),
{
    if text.len() > 0 && is_white_space(text.first()) {
        let rest = text.drop_first();
        lemma_leading_space(rest);
        assert forall|k: int| 0 <= k < leading_space(text) implies is_white_space(
            #[trigger] text[k],
        ) by {
            if k > 0 {
                assert(rest[k - 1] == text[k]);
            }
        }
    }
}

proof fn lemma_trailing_space(text: Seq<char>)
    ensures
        trailing_space(text) <= text.len(),
        forall|k: int|
            text.len() - trailing_space(text) <= k < text.len() ==> is_white_space(
                #[trigger] text[k],
            ),
        trailing_space(text) < text.len() ==> !is_white_space(
            text[text.len() - trailing_space(text) - 1],
        ),
    decreases text.len(),
{
    if text.len() > 0 && is_white_space(text.last()) {
        let rest = text.drop_last();
        lemma_trailing_space(rest);
        assert forall|k: int|
            text.len() - trailing_space(text) <= k < text.len() implies is_white_space(
            #[trigger] text[k],
        ) by {
            if k < text.len() - 1 {
                assert(rest[k] == text[k]);
            }
        }
    }
}

/// Texts that are equal but for the case of the letters A to Z are as long as each other, and
/// differ in no other character.
pub proof fn law_only_ascii_case_is_ignored(left: Seq<char>, right: Seq<char>)
    ensures
        equal_ignoring_ascii_case(left, right) == equal_ignoring_ascii_case(right, left),
        equal_ignoring_ascii_case(left, left),
        equal_ignoring_ascii_case(left, right) ==> left.len() == right.len() && forall|k: int|
            0 <= k < left.len() ==> {
                ||| #[trigger] left[k] == #[trigger] right[k]
                ||| 'A' <= left[k] <= 'Z' && right[k] as u32 == left[k] as u32 + 32
                ||| 'A' <= right[k] <= 'Z' && left[k] as u32 == right[k] as u32 + 32
            },
{
    if equal_ignoring_ascii_case(left, right) {
        assert forall|k: int| 0 <= k < left.len() implies {
            ||| #[trigger] left[k] == #[trigger] right[k]
            ||| 'A' <= left[k] <= 'Z' && right[k] as u32 == left[k] as u32 + 32
            ||| 'A' <= right[k] <= 'Z' && left[k] as u32 == right[k] as u32 + 32
        } by {
            assert(ascii_lower(left[k]) == ascii_lower(right[k]));
        }
    }
}

/// Lower case is taken of every character that is kept, in order, and of no other.
pub proof fn law_folding_goes_character_by_character(
    left: Seq<char>,
    right: Seq<char>,
    dropped: spec_fn(char) -> bool,
)
    ensures
        folded(left + right, dropped) == folded(left, dropped) + folded(right, dropped),
    decreases right.len(),
{
    if right.len() == 0 {
        assert(left + right =~= left);
        assert(folded(left, dropped) + folded(right, dropped) =~= folded(left, dropped));
    } else {
        law_folding_goes_character_by_character(left, right.drop_last(), dropped);
        assert((left + right).drop_last() =~= left + right.drop_last());
        assert((left + right).last() == right.last());
        assert(folded(left + right, dropped) =~= folded(left, dropped) + folded(right, dropped));
    }
}

} // verus!
