//! Text as sequences of characters: searching, splitting, trimming and
//! reading decimal numbers.

use vstd::prelude::*;
use vstd::slice::slice_subrange;

verus! {

/// `String::push` of the standard library: the character is appended to the
/// end of the string, and nothing else changes.
pub assume_specification[ String::push ](text: &mut String, c: char)
    ensures
        final(text)@ == old(text)@.push(c),
;

/// The characters of a string, in order.
pub fn to_chars(s: &str) -> (v: Vec<char>)
    ensures
        v@ == s@,
{
    let mut v: Vec<char> = Vec::new();
    for c in it: s.chars()
        invariant
            it.seq() == s@,
            v@ == s@.take(it.index() as int),
    {
        v.push(c);
    }
    v
}

/// The string made of the given characters.
pub fn from_chars(text: &[char]) -> (s: String)
    ensures
        s@ == text@,
{
    let mut s = String::new();
    let mut i: usize = 0;
    while i < text.len()
        invariant
            i <= text.len(),
            s@ == text@.take(i as int),
        decreases text.len() - i,
    {
        s.push(text[i]);
        i += 1;
    }
    s
}

/// Whether `pattern` stands in `text` at position `at`.
pub open spec fn occurs_at(text: Seq<char>, pattern: Seq<char>, at: int) -> bool {
    &&& 0 <= at
    &&& at + pattern.len() <= text.len()
    &&& text.subrange(at, at + pattern.len()) == pattern
}

/// The first position at or after `from` where `pattern` stands in `text`.
pub open spec fn first_occurrence_from(text: Seq<char>, pattern: Seq<char>, from: int) -> Option<int>
    decreases text.len() + 1 - from,
{
    if from < 0 || from + pattern.len() > text.len() {
        None
    } else if occurs_at(text, pattern, from) {
        Some(from)
    } else {
        first_occurrence_from(text, pattern, from + 1)
    }
}

/// The first position where `pattern` stands in `text`.
pub open spec fn first_occurrence(text: Seq<char>, pattern: Seq<char>) -> Option<int> {
    first_occurrence_from(text, pattern, 0)
}

/// `first_occurrence_from` finds an occurrence, and none lies between `from`
/// and it; where it finds none, there is none at or after `from`.
pub proof fn lemma_first_occurrence_from(text: Seq<char>, pattern: Seq<char>, from: int)
    requires
        0 <= from,
    ensures
        match first_occurrence_from(text, pattern, from) {
            Some(at) => {
                &&& from <= at
                &&& occurs_at(text, pattern, at)
                &&& forall|j: int| from <= j < at ==> !occurs_at(text, pattern, j)
            },
            None => forall|j: int| from <= j ==> !occurs_at(text, pattern, j),
        },
    decreases text.len() + 1 - from,
{
    if from + pattern.len() > text.len() {
    } else if occurs_at(text, pattern, from) {
    } else {
        lemma_first_occurrence_from(text, pattern, from + 1);
    }
}

/// The first occurrence is an occurrence, and the leftmost one.
pub proof fn lemma_first_occurrence(text: Seq<char>, pattern: Seq<char>)
    ensures
        match first_occurrence(text, pattern) {
            Some(at) => {
                &&& occurs_at(text, pattern, at)
                &&& forall|j: int| j < at ==> !occurs_at(text, pattern, j)
            },
            None => forall|j: int| !occurs_at(text, pattern, j),
        },
{
    lemma_first_occurrence_from(text, pattern, 0);
}

/// Whether `pattern` stands in `text` at position `at`.
pub fn matches_at(text: &[char], pattern: &[char], at: usize) -> (r: bool)
    ensures
        r == occurs_at(text@, pattern@, at as int),
{
    if pattern.len() > text.len() || at > text.len() - pattern.len() {
        return false;
    }
    let mut k: usize = 0;
    while k < pattern.len()
        invariant
            k <= pattern.len(),
            at + pattern.len() <= text.len(),
            forall|j: int| 0 <= j < k ==> text@[at + j] == pattern@[j],
        decreases pattern.len() - k,
    {
        if text[at + k] != pattern[k] {
            assert(text@.subrange(at as int, at + pattern.len())[k as int] == text@[at + k]);
            return false;
        }
        k += 1;
    }
    assert(text@.subrange(at as int, at + pattern.len()) =~= pattern@);
    true
}

/// The position of the first occurrence of `pattern` in `text`.
pub fn find(text: &[char], pattern: &[char]) -> (r: Option<usize>)
    ensures
        match r {
            Some(at) => first_occurrence(text@, pattern@) == Some(at as int),
            None => first_occurrence(text@, pattern@) is None,
        },
{
    if pattern.len() == 0 {
        assert(text@.subrange(0, 0) =~= pattern@);
        return Some(0);
    }
    if pattern.len() > text.len() {
        return None;
    }
    let last: usize = text.len() - pattern.len();
    let mut at: usize = 0;
    while at <= last
        invariant
            at <= last + 1,
            0 < pattern.len() <= text.len(),
            last == text.len() - pattern.len(),
            first_occurrence(text@, pattern@) == first_occurrence_from(text@, pattern@, at as int),
        decreases last + 1 - at,
    {
        if matches_at(text, pattern, at) {
            return Some(at);
        }
        at += 1;
    }
    None
}

/// Whether `pattern` stands somewhere in `text`.
pub fn contains(text: &[char], pattern: &[char]) -> (r: bool)
    ensures
        r == first_occurrence(text@, pattern@).is_some(),
{
    find(text, pattern).is_some()
}

/// Whether the two texts are the same.
pub fn equal(a: &[char], b: &[char]) -> (r: bool)
    ensures
        r == (a@ == b@),
{
    if a.len() != b.len() {
        return false;
    }
    let r = matches_at(a, b, 0);
    assert(a@.subrange(0, a@.len() as int) =~= a@);
    r
}

/// The texts that a list of pieces holds.
pub open spec fn views(pieces: Seq<&[char]>) -> Seq<Seq<char>> {
    pieces.map_values(|piece: &[char]| piece@)
}

/// The pieces of `text` between the occurrences of `pattern`, taken from
/// left to right without overlap. An empty pattern splits nothing.
pub open spec fn split_by(text: Seq<char>, pattern: Seq<char>) -> Seq<Seq<char>>
    decreases text.len(),
{
    let at = first_occurrence(text, pattern);
    if pattern.len() > 0 && at is Some && 0 <= at->0 && at->0 + pattern.len() <= text.len() {
        seq![text.take(at->0)] + split_by(text.skip(at->0 + pattern.len()), pattern)
    } else {
        seq![text]
    }
}

/// A text splits into at least one piece.
pub proof fn lemma_split_by_nonempty(text: Seq<char>, pattern: Seq<char>)
    ensures
        split_by(text, pattern).len() >= 1,
{
}

/// Splits `text` at every occurrence of `pattern`.
pub fn split<'a>(text: &'a [char], pattern: &[char]) -> (pieces: Vec<&'a [char]>)
    ensures
        views(pieces@) == split_by(text@, pattern@),
{
    let mut pieces: Vec<&'a [char]> = Vec::new();
    if pattern.len() == 0 {
        pieces.push(text);
        assert(views(pieces@) =~= seq![text@]);
        return pieces;
    }
    let mut from: usize = 0;
    let mut done = false;
    assert(text@.skip(0) =~= text@);
    assert(views(pieces@) =~= Seq::<Seq<char>>::empty());
    while !done
        invariant
            from <= text.len(),
            pattern.len() > 0,
            !done ==> split_by(text@, pattern@) == views(pieces@) + split_by(
                text@.skip(from as int),
                pattern@,
            ),
            done ==> split_by(text@, pattern@) == views(pieces@),
        decreases (if done { 0int } else { 1int }), text.len() - from,
    {
        let rest = slice_subrange(text, from, text.len());
        assert(rest@ =~= text@.skip(from as int));
        let ghost before = views(pieces@);
        proof {
            lemma_first_occurrence(rest@, pattern@);
        }
        match find(rest, pattern) {
            None => {
                pieces.push(rest);
                assert(views(pieces@) =~= before + seq![rest@]);
                done = true;
            },
            Some(at) => {
                let piece = slice_subrange(rest, 0, at);
                assert(piece@ =~= rest@.take(at as int));
                pieces.push(piece);
                assert(views(pieces@) =~= before + seq![piece@]);
                assert(rest@.skip(at + pattern.len()) =~= text@.skip(from + at + pattern.len()));
                from = from + at + pattern.len();
            },
        }
    }
    pieces
}

/// The text before the first occurrence of `pattern` and the text after it,
/// where the pattern occurs.
pub open spec fn halves(text: Seq<char>, pattern: Seq<char>) -> Option<(Seq<char>, Seq<char>)> {
    match first_occurrence(text, pattern) {
        Some(at) => Some((text.take(at), text.skip(at + pattern.len()))),
        None => None,
    }
}

/// Splits `text` at the first occurrence of `pattern`.
pub fn split_once<'a>(text: &'a [char], pattern: &[char]) -> (r: Option<(&'a [char], &'a [char])>)
    ensures
        match r {
            Some((before, after)) => halves(text@, pattern@) == Some((before@, after@)),
            None => halves(text@, pattern@) is None,
        },
{
    proof {
        lemma_first_occurrence(text@, pattern@);
    }
    match find(text, pattern) {
        Some(at) => {
            assert(occurs_at(text@, pattern@, at as int));
            let end = text.len();
            let before = slice_subrange(text, 0, at);
            let after = slice_subrange(text, at + pattern.len(), end);
            assert(before@ =~= text@.take(at as int));
            assert(after@ =~= text@.skip(at + pattern.len()));
            Some((before, after))
        },
        None => None,
    }
}

/// Whether `text` ends in `suffix`.
pub open spec fn ends_with(text: Seq<char>, suffix: Seq<char>) -> bool {
    suffix.len() <= text.len() && text.skip(text.len() - suffix.len()) == suffix
}

/// The text without `suffix` at its end, where it ends in it.
pub open spec fn without_suffix(text: Seq<char>, suffix: Seq<char>) -> Seq<char> {
    if ends_with(text, suffix) {
        text.take(text.len() - suffix.len())
    } else {
        text
    }
}

/// Removes `suffix` from the end of `text`, where the text ends in it.
pub fn strip_suffix<'a>(text: &'a [char], suffix: &[char]) -> (r: &'a [char])
    ensures
        r@ == without_suffix(text@, suffix@),
{
    if suffix.len() > text.len() {
        return text;
    }
    let at: usize = text.len() - suffix.len();
    assert(text@.skip(at as int) =~= text@.subrange(at as int, at + suffix.len()));
    if matches_at(text, suffix, at) {
        let r = slice_subrange(text, 0, at);
        assert(r@ =~= text@.take(at as int));
        r
    } else {
        text
    }
}

/// The characters that `char::is_whitespace` accepts: those with the Unicode
/// property `White_Space`.
pub open spec fn is_whitespace(c: char) -> bool {
    ||| '\u{9}' <= c <= '\u{d}'
    ||| c == ' '
    ||| c == '\u{85}'
    ||| c == '\u{a0}'
    ||| c == '\u{1680}'
    ||| '\u{2000}' <= c <= '\u{200a}'
    ||| c == '\u{2028}'
    ||| c == '\u{2029}'
    ||| c == '\u{202f}'
    ||| c == '\u{205f}'
    ||| c == '\u{3000}'
}

/// Whether the character is white space.
pub fn whitespace(c: char) -> (r: bool)
    ensures
        r == is_whitespace(c),
{
    ('\u{9}' <= c && c <= '\u{d}') || c == ' ' || c == '\u{85}' || c == '\u{a0}' || c
        == '\u{1680}' || ('\u{2000}' <= c && c <= '\u{200a}') || c == '\u{2028}' || c
        == '\u{2029}' || c == '\u{202f}' || c == '\u{205f}' || c == '\u{3000}'
}

/// The text without the white space at its start.
pub open spec fn trimmed_start(text: Seq<char>) -> Seq<char>
    decreases text.len(),
{
    if text.len() > 0 && is_whitespace(text.first()) {
        trimmed_start(text.drop_first())
    } else {
        text
    }
}

/// The text without the white space at its end.
pub open spec fn trimmed_end(text: Seq<char>) -> Seq<char>
    decreases text.len(),
{
    if text.len() > 0 && is_whitespace(text.last()) {
        trimmed_end(text.drop_last())
    } else {
        text
    }
}

/// The text without the white space at its start and at its end.
pub open spec fn trimmed(text: Seq<char>) -> Seq<char> {
    trimmed_end(trimmed_start(text))
}

/// Removes the white space at both ends of `text`.
pub fn trim(text: &[char]) -> (r: &[char])
    ensures
        r@ == trimmed(text@),
{
    let mut start: usize = 0;
    assert(text@.skip(0) =~= text@);
    while start < text.len() && whitespace(text[start])
        invariant
            start <= text.len(),
            trimmed_start(text@) == trimmed_start(text@.skip(start as int)),
        decreases text.len() - start,
    {
        assert(text@.skip(start as int).drop_first() =~= text@.skip(start + 1));
        start += 1;
    }
    let mut end: usize = text.len();
    assert(text@.subrange(start as int, end as int) =~= text@.skip(start as int));
    while end > start && whitespace(text[end - 1])
        invariant
            start <= end <= text.len(),
            trimmed(text@) == trimmed_end(text@.subrange(start as int, end as int)),
        decreases end - start,
    {
        assert(text@.subrange(start as int, end as int).drop_last() =~= text@.subrange(
            start as int,
            end - 1,
        ));
        end -= 1;
    }
    slice_subrange(text, start, end)
}

/// Whether the character is a decimal digit.
pub open spec fn is_digit(c: char) -> bool {
    '0' <= c <= '9'
}

/// The number that a decimal digit stands for.
pub open spec fn digit_value(c: char) -> nat {
    (c as nat - '0' as nat) as nat
}

/// Whether the text holds decimal digits only.
pub open spec fn all_digits(text: Seq<char>) -> bool {
    forall|i: int| 0 <= i < text.len() ==> is_digit(#[trigger] text[i])
}

/// The number that a text of decimal digits stands for.
pub open spec fn decimal_value(digits: Seq<char>) -> nat
    decreases digits.len(),
{
    if digits.len() == 0 {
        0
    } else {
        10 * decimal_value(digits.drop_last()) + digit_value(digits.last())
    }
}

/// The text without a plus sign at its start.
pub open spec fn unsigned(text: Seq<char>) -> Seq<char> {
    if text.len() > 0 && text.first() == '+' {
        text.drop_first()
    } else {
        text
    }
}

/// The number that a text of decimal digits stands for, where it fits in 32
/// bits; a text without characters stands for zero.
pub open spec fn digits_u32(digits: Seq<char>) -> Option<u32> {
    if all_digits(digits) && decimal_value(digits) <= u32::MAX {
        Some(decimal_value(digits) as u32)
    } else {
        None
    }
}

/// The number that the text stands for, where it is a decimal number that
/// fits in 32 bits: at least one digit, after an optional plus sign, and
/// nothing else.
pub open spec fn number_u32(text: Seq<char>) -> Option<u32> {
    if unsigned(text).len() > 0 {
        digits_u32(unsigned(text))
    } else {
        None
    }
}

/// The digits read so far never stand for more than the whole text does.
pub proof fn lemma_decimal_value_prefix(digits: Seq<char>, n: int)
    requires
        0 <= n <= digits.len(),
    ensures
        decimal_value(digits.take(n)) <= decimal_value(digits),
    decreases digits.len() - n,
{
    if n == digits.len() {
        assert(digits.take(n) =~= digits);
    } else {
        lemma_decimal_value_prefix(digits, n + 1);
        assert(digits.take(n + 1).drop_last() =~= digits.take(n));
    }
}

/// Whether the character is a decimal digit.
pub fn digit(c: char) -> (r: bool)
    ensures
        r == is_digit(c),
{
    '0' <= c && c <= '9'
}

/// Reads a text of decimal digits that stands for at most 32 bits.
pub fn parse_digits(digits: &[char]) -> (r: Option<u32>)
    ensures
        r == digits_u32(digits@),
{
    let mut value: u64 = 0;
    let mut i: usize = 0;
    assert(digits@.take(0) =~= Seq::<char>::empty());
    while i < digits.len()
        invariant
            i <= digits.len(),
            all_digits(digits@.take(i as int)),
            value == decimal_value(digits@.take(i as int)),
            value <= u32::MAX,
        decreases digits.len() - i,
    {
        let c = digits[i];
        if !digit(c) {
            return None;
        }
        assert(digits@.take(i + 1).drop_last() =~= digits@.take(i as int));
        value = value * 10 + (c as u32 - '0' as u32) as u64;
        i += 1;
        if value > u32::MAX as u64 {
            proof {
                lemma_decimal_value_prefix(digits@, i as int);
            }
            return None;
        }
    }
    assert(digits@.take(i as int) =~= digits@);
    Some(value as u32)
}

/// Reads a decimal number of at most 32 bits.
pub fn parse_u32(text: &[char]) -> (r: Option<u32>)
    ensures
        r == number_u32(text@),
{
    let digits = without_plus(text);
    if digits.len() == 0 {
        return None;
    }
    parse_digits(digits)
}

/// Removes a plus sign at the start of `text`.
pub fn without_plus(text: &[char]) -> (r: &[char])
    ensures
        r@ == unsigned(text@),
{
    let start: usize = if text.len() > 0 && text[0] == '+' {
        1
    } else {
        0
    };
    let digits = slice_subrange(text, start, text.len());
    assert(digits@ =~= unsigned(text@));
    digits
}

/// The decimal digit that stands for the last digit of a number.
pub open spec fn digit_of(n: nat) -> char {
    ('0' as nat + n % 10) as char
}

/// The decimal numeral of a number, without zeros before it.
pub open spec fn numeral(n: nat) -> Seq<char>
    decreases n,
{
    if n < 10 {
        seq![digit_of(n)]
    } else {
        numeral(n / 10).push(digit_of(n))
    }
}

/// A numeral holds digits only, at least one, and stands for its number.
pub proof fn lemma_numeral(n: nat)
    ensures
        numeral(n).len() > 0,
        all_digits(numeral(n)),
        decimal_value(numeral(n)) == n,
    decreases n,
{
    assert(digit_value(digit_of(n)) == n % 10);
    assert(numeral(n).last() == digit_of(n));
    if n < 10 {
        assert(numeral(n).drop_last() =~= Seq::<char>::empty());
        assert(decimal_value(numeral(n).drop_last()) == 0);
    } else {
        lemma_numeral(n / 10);
        assert(numeral(n).drop_last() =~= numeral(n / 10));
    }
}

/// The decimal digit that stands for the last digit of a number.
pub fn digit_char(d: u8) -> (c: char)
    ensures
        c == digit_of(d as nat),
{
    (48u8 + d % 10) as char
}

/// Appends the decimal numeral of a number.
pub fn push_numeral(text: &mut Vec<char>, n: u32)
    ensures
        final(text)@ == old(text)@ + numeral(n as nat),
    decreases n,
{
    if n >= 10 {
        push_numeral(text, n / 10);
    }
    text.push(digit_char((n % 10) as u8));
    assert(text@ =~= old(text)@ + numeral(n as nat));
}

/// Where a character stands in a text and nowhere before, there is its first
/// occurrence.
pub proof fn lemma_first_occurrence_of_char(text: Seq<char>, c: char, at: int)
    requires
        0 <= at < text.len(),
        text[at] == c,
        forall|j: int| 0 <= j < at ==> text[j] != c,
    ensures
        first_occurrence(text, seq![c]) == Some(at),
{
    lemma_first_occurrence(text, seq![c]);
    assert(text.subrange(at, at + 1) =~= seq![c]);
    assert(occurs_at(text, seq![c], at));
    let found = first_occurrence(text, seq![c])->0;
    assert(text.subrange(found, found + 1)[0] == text[found]);
}

/// A character that stands nowhere in a text does not occur in it.
pub proof fn lemma_no_occurrence_of_char(text: Seq<char>, c: char)
    requires
        forall|j: int| 0 <= j < text.len() ==> text[j] != c,
    ensures
        first_occurrence(text, seq![c]) is None,
{
    lemma_first_occurrence(text, seq![c]);
    if first_occurrence(text, seq![c]) is Some {
        let found = first_occurrence(text, seq![c])->0;
        assert(text.subrange(found, found + 1)[0] == text[found]);
    }
}

} // verus!
