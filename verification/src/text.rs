//! Text handling: ordering, trimming, affixes, numbers and paths.

use vstd::prelude::*;

verus! {

/// `String::push`: appends one character to the end of the text.
pub assume_specification[ String::push ](s: &mut String, c: char)
    ensures
        final(s)@ == old(s)@.push(c),
;

/// `str::eq`: two string slices are equal when they hold the same characters.
pub assume_specification[ <str as PartialEq>::eq ](a: &str, b: &str) -> (same: bool)
    ensures
        same == (a@ == b@),
;

/// The order of texts: by the first differing character, a proper prefix first.
pub open spec fn precedes(a: Seq<char>, b: Seq<char>) -> bool
    decreases a.len(),
{
    if b.len() == 0 {
        false
    } else if a.len() == 0 {
        true
    } else if a[0] != b[0] {
        a[0] < b[0]
    } else {
        precedes(a.drop_first(), b.drop_first())
    }
}

/// Whether a text comes before another.
pub fn text_precedes(a: &str, b: &str) -> (before: bool)
    ensures
        before == precedes(a@, b@),
{
    broadcast use vstd::string::next_postcondition, vstd::string::axiom_spec_iter;

    let mut left = a.chars();
    let mut right = b.chars();
    let ghost mut x = a@;
    let ghost mut y = b@;
    loop
        invariant
            vstd::std_specs::iter::IteratorSpec::remaining(&left) == x,
            vstd::std_specs::iter::IteratorSpec::remaining(&right) == y,
            precedes(a@, b@) == precedes(x, y),
        decreases x.len(),
    {
        broadcast use vstd::string::next_postcondition;

        match (left.next(), right.next()) {
            (_, None) => {
                return false;
            },
            (None, Some(_)) => {
                return true;
            },
            (Some(c), Some(d)) => {
                if c != d {
                    return c < d;
                }
                proof {
                    x = x.drop_first();
                    y = y.drop_first();
                }
            },
        }
    }
}

/// No text comes before itself.
pub proof fn lemma_precedes_irreflexive(a: Seq<char>)
    ensures
        !precedes(a, a),
    decreases a.len(),
{
    if a.len() > 0 {
        lemma_precedes_irreflexive(a.drop_first());
    }
}

/// What comes before a text comes before all that follows it.
pub proof fn lemma_precedes_transitive(a: Seq<char>, b: Seq<char>, c: Seq<char>)
    requires
        precedes(a, b),
        precedes(b, c),
    ensures
        precedes(a, c),
    decreases a.len(),
{
    if a.len() > 0 && a[0] == b[0] && b[0] == c[0] {
        lemma_precedes_transitive(a.drop_first(), b.drop_first(), c.drop_first());
    }
}

/// Of two different texts, one comes before the other.
pub proof fn lemma_precedes_total(a: Seq<char>, b: Seq<char>)
    ensures
        precedes(a, b) || precedes(b, a) || a == b,
    decreases a.len(),
{
    if a.len() == 0 && b.len() == 0 {
        assert(a =~= b);
    } else if a.len() > 0 && b.len() > 0 && a[0] == b[0] {
        lemma_precedes_total(a.drop_first(), b.drop_first());
        if a.drop_first() == b.drop_first() {
            assert(a =~= seq![a[0]] + a.drop_first());
            assert(b =~= seq![b[0]] + b.drop_first());
        }
    }
}

/// Of two texts that agree up to a position, the one with the smaller character there comes first.
pub proof fn lemma_precedes_at(a: Seq<char>, b: Seq<char>, at: int)
    requires
        0 <= at < a.len(),
        at < b.len(),
        forall|i: int| 0 <= i < at ==> a[i] == b[i],
        a[at] < b[at],
    ensures
        precedes(a, b),
    decreases at,
{
    if at > 0 {
        assert(a[0] == b[0]);
        let (x, y) = (a.drop_first(), b.drop_first());
        assert forall|i: int| 0 <= i < at - 1 implies x[i] == y[i] by {
            assert(a[i + 1] == b[i + 1]);
        }
        lemma_precedes_at(x, y, at - 1);
    }
}

/// Of two texts, one does not follow the other.
pub proof fn lemma_not_after_total(a: Seq<char>, b: Seq<char>)
    ensures
        !precedes(b, a) || !precedes(a, b),
{
    if precedes(a, b) && precedes(b, a) {
        lemma_precedes_transitive(a, b, a);
        lemma_precedes_irreflexive(a);
    }
}

/// Not to follow a text is transitive.
pub proof fn lemma_not_after_transitive(a: Seq<char>, b: Seq<char>, c: Seq<char>)
    requires
        !precedes(b, a),
        !precedes(c, b),
    ensures
        !precedes(c, a),
{
    lemma_precedes_total(a, b);
    lemma_precedes_total(b, c);
    if precedes(c, a) {
        if precedes(a, b) {
            lemma_precedes_transitive(c, a, b);
        }
    }
}

/// Whether two texts hold the same characters.
pub fn same_text(a: &str, b: &str) -> (same: bool)
    ensures
        same == (a@ == b@),
{
    *a == *b
}

/// The characters of a text.
pub(crate) fn chars_of(text: &str) -> (chars: Vec<char>)
    ensures
        chars@ == text@,
{
    let mut chars: Vec<char> = Vec::new();
    for c in it: text.chars()
        invariant
            chars@ == it.seq().take(it.index() as int),
            it.seq() == text@,
    {
        chars.push(c);
    }
    chars
}

/// The text made of the characters from `from` up to `to`.
pub(crate) fn text_of(chars: &[char], from: usize, to: usize) -> (text: String)
    requires
        from <= to <= chars@.len(),
    ensures
        text@ == chars@.subrange(from as int, to as int),
{
    let mut text = String::new();
    let mut i: usize = from;
    while i < to
        invariant
            from <= i <= to <= chars@.len(),
            text@ == chars@.subrange(from as int, i as int),
        decreases to - i,
    {
        text.push(chars[i]);
        i = i + 1;
    }
    text
}

/// The characters with the Unicode `White_Space` property.
pub open spec fn is_white(c: char) -> bool {
    ||| '\u{9}' <= c <= '\u{d}'
    ||| c == ' '
    ||| c == '\u{85}'
    ||| c == '\u{a0}'
    ||| c == '\u{1680}'
    ||| '\u{2000}' <= c <= '\u{200a}'
    ||| c == '\u{2028}'
    ||| c == '\u{2029}'
    ||| c == '\u{202f}'
    ||| c == '\u{205f}'
    ||| c == '\u{3000}'
}

/// Whether a character is white space.
pub fn is_whitespace(c: char) -> (white: bool)
    ensures
        white == is_white(c),
{
    ('\u{9}' <= c && c <= '\u{d}') || c == ' ' || c == '\u{85}' || c == '\u{a0}' || c
        == '\u{1680}' || ('\u{2000}' <= c && c <= '\u{200a}') || c == '\u{2028}' || c == '\u{2029}'
        || c == '\u{202f}' || c == '\u{205f}' || c == '\u{3000}'
}

/// The text without leading white space.
pub open spec fn trimmed_start(text: Seq<char>) -> Seq<char>
    decreases text.len(),
{
    if text.len() > 0 && is_white(text[0]) {
        trimmed_start(text.drop_first())
    } else {
        text
    }
}

/// The text without trailing white space.
pub open spec fn trimmed_end(text: Seq<char>) -> Seq<char>
    decreases text.len(),
{
    if text.len() > 0 && is_white(text.last()) {
        trimmed_end(text.drop_last())
    } else {
        text
    }
}

/// The text without leading and trailing white space.
pub open spec fn trimmed(text: Seq<char>) -> Seq<char> {
    trimmed_end(trimmed_start(text))
}

/// Whether the text is nothing but white space.
pub open spec fn is_blank(text: Seq<char>) -> bool {
    forall|i: int| 0 <= i < text.len() ==> is_white(#[trigger] text[i])
}

/// Trimming leaves nothing exactly of a blank text, and what is left starts and ends with
/// a visible character.
pub proof fn lemma_trimmed(text: Seq<char>)
    ensures
        trimmed(text).len() == 0 <==> is_blank(text),
        trimmed(text).len() > 0 ==> !is_white(trimmed(text)[0]) && !is_white(trimmed(text).last()),
{
    lemma_trimmed_start(text);
    lemma_trimmed_end(trimmed_start(text));
}

proof fn lemma_trimmed_start(text: Seq<char>)
    ensures
        trimmed_start(text).len() == 0 <==> is_blank(text),
        trimmed_start(text).len() > 0 ==> !is_white(trimmed_start(text)[0]),
    decreases text.len(),
{
    if text.len() > 0 && is_white(text[0]) {
        let rest = text.drop_first();
        lemma_trimmed_start(rest);
        if is_blank(rest) {
            assert forall|i: int| 0 <= i < text.len() implies is_white(#[trigger] text[i]) by {
                if i > 0 {
                    assert(rest[i - 1] == text[i]);
                }
            }
        }
        if is_blank(text) {
            assert forall|i: int| 0 <= i < rest.len() implies is_white(#[trigger] rest[i]) by {
                assert(text[i + 1] == rest[i]);
            }
        }
    } else if text.len() > 0 {
        assert(!is_white(text[0]));
    }
}

proof fn lemma_trimmed_end(text: Seq<char>)
    ensures
        text.len() > 0 && !is_white(text[0]) ==> trimmed_end(text).len() > 0 && trimmed_end(text)[0]
            == text[0],
        trimmed_end(text).len() > 0 ==> !is_white(trimmed_end(text).last()),
        text.len() == 0 ==> trimmed_end(text).len() == 0,
    decreases text.len(),
{
    if text.len() > 0 && is_white(text.last()) {
        lemma_trimmed_end(text.drop_last());
    }
}

/// The text without leading and trailing white space.
pub fn trim(text: &str) -> (kept: String)
    ensures
        kept@ == trimmed(text@),
{
    let chars = chars_of(text);
    let mut start: usize = 0;
    proof {
        assert(chars@.subrange(0, chars@.len() as int) =~= chars@);
    }
    while start < chars.len() && is_whitespace(chars[start])
        invariant
            start <= chars@.len(),
            trimmed_start(chars@) == trimmed_start(chars@.subrange(start as int, chars@.len() as int)),
        decreases chars@.len() - start,
    {
        proof {
            assert(chars@.subrange(start as int, chars@.len() as int).drop_first()
                =~= chars@.subrange(start + 1, chars@.len() as int));
        }
        start = start + 1;
    }
    let mut end: usize = chars.len();
    while end > start && is_whitespace(chars[end - 1])
        invariant
            start <= end <= chars@.len(),
            trimmed(chars@) == trimmed_end(chars@.subrange(start as int, end as int)),
        decreases end,
    {
        proof {
            assert(chars@.subrange(start as int, end as int).drop_last() =~= chars@.subrange(
                start as int,
                end - 1,
            ));
        }
        end = end - 1;
    }
    text_of(&chars, start, end)
}

/// Whether the text is nothing but white space.
pub fn blank(text: &str) -> (all_white: bool)
    ensures
        all_white == is_blank(text@),
        all_white == (trimmed(text@).len() == 0),
{
    proof {
        lemma_trimmed(text@);
    }
    let kept = trim(text);
    kept.as_str().is_empty()
}

/// Whether `text` ends with `suffix`.
pub open spec fn has_suffix(text: Seq<char>, suffix: Seq<char>) -> bool {
    suffix.len() <= text.len() && text.skip(text.len() - suffix.len()) == suffix
}

/// Whether `text` starts with `prefix`.
pub open spec fn has_prefix(text: Seq<char>, prefix: Seq<char>) -> bool {
    prefix.len() <= text.len() && text.take(prefix.len() as int) == prefix
}

/// Whether the characters from `at` on start with `part`.
fn part_at(chars: &[char], at: usize, part: &[char]) -> (found: bool)
    requires
        at <= chars@.len(),
    ensures
        found == has_prefix(chars@.skip(at as int), part@),
{
    if part.len() > chars.len() - at {
        return false;
    }
    let mut i: usize = 0;
    while i < part.len()
        invariant
            i <= part@.len(),
            at + part.len() <= chars.len(),
            forall|j: int| 0 <= j < i ==> chars@[at + j] == part@[j],
        decreases part@.len() - i,
    {
        if chars[at + i] != part[i] {
            proof {
                assert(chars@.skip(at as int).take(part@.len() as int)[i as int] != part@[i as int]);
            }
            return false;
        }
        i = i + 1;
    }
    proof {
        assert(chars@.skip(at as int).take(part@.len() as int) =~= part@);
    }
    true
}

/// Whether `text` ends with `suffix`.
pub fn ends_with(text: &str, suffix: &str) -> (found: bool)
    ensures
        found == has_suffix(text@, suffix@),
{
    let chars = chars_of(text);
    let part = chars_of(suffix);
    proof {
        assert(chars@.take(chars@.len() as int) =~= chars@);
    }
    end_matches(&chars, chars.len(), &part)
}

/// The text after `prefix`, if it starts with it.
pub fn strip_prefix(text: &str, prefix: &str) -> (rest: Option<String>)
    ensures
        rest is Some <==> has_prefix(text@, prefix@),
        rest matches Some(rest) ==> rest@ == text@.skip(prefix@.len() as int),
{
    let chars = chars_of(text);
    let part = chars_of(prefix);
    proof {
        assert(chars@.skip(0) =~= chars@);
    }
    if part_at(&chars, 0, &part) {
        proof {
            assert(chars@.subrange(part@.len() as int, chars@.len() as int) =~= chars@.skip(
                part@.len() as int,
            ));
        }
        Some(text_of(&chars, part.len(), chars.len()))
    } else {
        None
    }
}

/// The text with every trailing occurrence of `suffix` removed.
pub open spec fn without_suffixes(text: Seq<char>, suffix: Seq<char>) -> Seq<char>
    decreases text.len(),
{
    if suffix.len() > 0 && has_suffix(text, suffix) {
        without_suffixes(text.take(text.len() - suffix.len()), suffix)
    } else {
        text
    }
}

/// Whether the characters before `end` end with `part`.
fn end_matches(chars: &[char], end: usize, part: &[char]) -> (found: bool)
    requires
        end <= chars@.len(),
    ensures
        found == has_suffix(chars@.take(end as int), part@),
{
    if part.len() > end {
        return false;
    }
    let at: usize = end - part.len();
    proof {
        let before = chars@.take(end as int);
        assert(before.skip(at as int) =~= chars@.skip(at as int).take(part@.len() as int));
    }
    part_at(chars, at, part)
}

/// The text with every trailing occurrence of `suffix` removed.
pub fn trim_end_matches(text: &str, suffix: &str) -> (rest: String)
    requires
        suffix@.len() > 0,
    ensures
        rest@ == without_suffixes(text@, suffix@),
{
    let chars = chars_of(text);
    let part = chars_of(suffix);
    let mut end: usize = chars.len();
    proof {
        assert(chars@.take(end as int) =~= chars@);
    }
    while end_matches(&chars, end, &part)
        invariant
            part@.len() > 0,
            end <= chars@.len(),
            without_suffixes(chars@, part@) == without_suffixes(chars@.take(end as int), part@),
        decreases end,
    {
        proof {
            assert(chars@.take(end as int).take(end - part@.len()) =~= chars@.take(end - part@.len()));
        }
        end = end - part.len();
    }
    proof {
        assert(chars@.subrange(0, end as int) =~= chars@.take(end as int));
    }
    text_of(&chars, 0, end)
}

/// The text after the last `/`, or all of it where there is none.
pub open spec fn last_segment(text: Seq<char>) -> Seq<char>
    decreases text.len(),
{
    if text.len() == 0 || text.last() == '/' {
        Seq::empty()
    } else {
        last_segment(text.drop_last()).push(text.last())
    }
}

/// The text after the last `/`, or all of it where there is none.
pub fn file_segment(text: &str) -> (segment: String)
    ensures
        segment@ == last_segment(text@),
{
    let chars = chars_of(text);
    let mut start: usize = chars.len();
    proof {
        let n = chars@.len() as int;
        assert(chars@.take(n) =~= chars@);
        assert(chars@.subrange(n, n) =~= Seq::<char>::empty());
        assert(last_segment(chars@) =~= last_segment(chars@) + Seq::<char>::empty());
    }
    while start > 0 && chars[start - 1] != '/'
        invariant
            start <= chars@.len(),
            last_segment(chars@) == last_segment(chars@.take(start as int)) + chars@.subrange(
                start as int,
                chars@.len() as int,
            ),
        decreases start,
    {
        proof {
            let before = chars@.take(start as int);
            assert(before.drop_last() =~= chars@.take(start - 1));
            assert(last_segment(before).drop_last() =~= last_segment(before.drop_last()));
            assert(chars@.subrange(start - 1, chars@.len() as int) =~= seq![chars@[start - 1]]
                + chars@.subrange(start as int, chars@.len() as int));
            assert(last_segment(chars@) =~= last_segment(chars@.take(start - 1)) + chars@.subrange(
                start - 1,
                chars@.len() as int,
            ));
        }
        start = start - 1;
    }
    proof {
        assert(last_segment(chars@.take(start as int)) =~= Seq::<char>::empty());
    }
    text_of(&chars, start, chars.len())
}

/// The text with each backslash turned into a slash.
pub open spec fn slashed(text: Seq<char>) -> Seq<char> {
    text.map_values(
        |c: char|
            if c == '\\' {
                '/'
            } else {
                c
            },
    )
}

/// The text with each backslash turned into a slash.
pub fn slash_separated(text: &str) -> (path: String)
    ensures
        path@ == slashed(text@),
{
    let mut path = String::new();
    for c in it: text.chars()
        invariant
            it.seq() == text@,
            path@ == slashed(text@.take(it.index() as int)),
    {
        path.push(
            if c == '\\' {
                '/'
            } else {
                c
            },
        );
        proof {
            let i = it.index() as int;
            assert(slashed(text@.take(i + 1)) =~= slashed(text@.take(i)).push(
                if c == '\\' {
                    '/'
                } else {
                    c
                },
            ));
        }
    }
    proof {
        assert(text@.take(text@.len() as int) =~= text@);
    }
    path
}

/// The lower-case form of an ASCII letter, any other character as it is.
pub open spec fn ascii_lower(c: char) -> char {
    if 'A' <= c <= 'Z' {
        (c as u8 + 32) as char
    } else {
        c
    }
}

/// Whether two texts differ at most in the case of ASCII letters.
pub open spec fn same_ignoring_case(a: Seq<char>, b: Seq<char>) -> bool {
    a.len() == b.len() && forall|i: int|
        0 <= i < a.len() ==> ascii_lower(#[trigger] a[i]) == ascii_lower(b[i])
}

fn lower(c: char) -> (l: char)
    ensures
        l == ascii_lower(c),
{
    if 'A' <= c && c <= 'Z' {
        (c as u8 + 32) as char
    } else {
        c
    }
}

/// Whether two texts differ at most in the case of ASCII letters.
pub fn eq_ignore_ascii_case(a: &str, b: &str) -> (same: bool)
    ensures
        same == same_ignoring_case(a@, b@),
{
    let left = chars_of(a);
    let right = chars_of(b);
    if left.len() != right.len() {
        return false;
    }
    let mut i: usize = 0;
    while i < left.len()
        invariant
            left@ == a@,
            right@ == b@,
            left@.len() == right@.len(),
            i <= left@.len(),
            forall|j: int| 0 <= j < i ==> ascii_lower(#[trigger] left@[j]) == ascii_lower(right@[j]),
        decreases left@.len() - i,
    {
        if lower(left[i]) != lower(right[i]) {
            proof {
                assert(ascii_lower(a@[i as int]) != ascii_lower(b@[i as int]));
            }
            return false;
        }
        i = i + 1;
    }
    true
}

/// The decimal digit of a number below ten.
pub open spec fn digit(n: nat) -> char {
    (48 + n) as u8 as char
}

/// The decimal digits of a number.
pub open spec fn digits(n: nat) -> Seq<char>
    decreases n,
{
    if n < 10 {
        seq![digit(n)]
    } else {
        digits(n / 10).push(digit(n % 10))
    }
}

/// The decimal digits of a number.
pub fn decimal(n: u64) -> (text: String)
    ensures
        text@ == digits(n as nat),
    decreases n,
{
    let mut text: String = if n < 10 {
        String::new()
    } else {
        decimal(n / 10)
    };
    text.push((48 + (n % 10) as u8) as char);
    proof {
        if n < 10 {
            assert(text@ =~= seq![digit(n as nat)]);
        }
    }
    text
}

/// Digits in groups of three from the right, with a comma between groups.
pub open spec fn grouped(number: Seq<char>) -> Seq<char>
    decreases number.len(),
{
    if number.len() <= 3 {
        number
    } else {
        grouped(number.take(number.len() - 3)).push(',') + number.skip(number.len() - 3)
    }
}

/// A number in decimal, its digits in groups of three with commas between them.
pub fn format_number(value: u64) -> (text: String)
    ensures
        text@ == grouped(digits(value as nat)),
{
    let number = decimal(value);
    let chars = chars_of(number.as_str());
    proof {
        assert(chars@.take(chars@.len() as int) =~= chars@);
    }
    group(&chars, chars.len())
}

/// The commas of a grouped number do not change its digits.
pub proof fn lemma_grouped_digits(number: Seq<char>)
    requires
        all_digits(number),
    ensures
        grouped(number).filter(|c: char| c != ',') == number,
    decreases number.len(),
{
    let keep = |c: char| c != ',';
    if number.len() <= 3 {
        lemma_digits_kept(number);
    } else {
        let at = number.len() - 3;
        let (start, end) = (number.take(at), number.skip(at));
        lemma_grouped_digits(start);
        lemma_digits_kept(end);
        let comma = seq![','];
        assert(grouped(number) =~= grouped(start) + (comma + end));
        Seq::filter_distributes_over_add(grouped(start), comma + end, keep);
        Seq::filter_distributes_over_add(comma, end, keep);
        reveal_with_fuel(Seq::filter, 2);
        assert(comma.drop_last() =~= Seq::<char>::empty());
        assert(comma.filter(keep) =~= Seq::<char>::empty());
        assert(start + (Seq::<char>::empty() + end) =~= number);
    }
}

proof fn lemma_digits_kept(number: Seq<char>)
    requires
        all_digits(number),
    ensures
        number.filter(|c: char| c != ',') == number,
    decreases number.len(),
{
    reveal(Seq::filter);
    if number.len() > 0 {
        assert(number[number.len() - 1] == number.last());
        lemma_digits_kept(number.drop_last());
        assert(number =~= number.drop_last().push(number.last()));
    }
}

fn group(chars: &[char], end: usize) -> (text: String)
    requires
        end <= chars@.len(),
    ensures
        text@ == grouped(chars@.take(end as int)),
    decreases end,
{
    if end <= 3 {
        proof {
            assert(chars@.subrange(0, end as int) =~= chars@.take(end as int));
        }
        text_of(chars, 0, end)
    } else {
        let mut text = group(chars, end - 3);
        text.push(',');
        let rest = text_of(chars, end - 3, end);
        text.append(rest.as_str());
        proof {
            let number = chars@.take(end as int);
            assert(number.take(end - 3) =~= chars@.take(end - 3));
            assert(number.skip(end - 3) =~= chars@.subrange(end - 3, end as int));
        }
        text
    }
}

/// Texts with a separator between neighbours.
pub open spec fn joined(parts: Seq<Seq<char>>, separator: Seq<char>) -> Seq<char>
    decreases parts.len(),
{
    if parts.len() == 0 {
        Seq::empty()
    } else if parts.len() == 1 {
        parts[0]
    } else {
        joined(parts.drop_last(), separator) + separator + parts.last()
    }
}

/// The texts of a list.
pub open spec fn texts(parts: Seq<String>) -> Seq<Seq<char>> {
    parts.map_values(|part: String| part@)
}

/// Texts with a separator between neighbours.
pub fn join(parts: &Vec<String>, separator: &str) -> (text: String)
    ensures
        text@ == joined(texts(parts@), separator@),
{
    let ghost all = texts(parts@);
    let mut text = String::new();
    let mut i: usize = 0;
    while i < parts.len()
        invariant
            i <= parts@.len(),
            all == texts(parts@),
            text@ == joined(all.take(i as int), separator@),
        decreases parts@.len() - i,
    {
        proof {
            assert(all.take(i + 1).drop_last() =~= all.take(i as int));
            if i == 0 {
                assert(Seq::<char>::empty() + all[0] =~= all[0]);
            }
        }
        if i > 0 {
            text.append(separator);
        }
        text.append(parts[i].as_str());
        i = i + 1;
    }
    proof {
        assert(all.take(i as int) =~= all);
    }
    text
}

/// Whether every character is a decimal digit.
pub open spec fn all_digits(text: Seq<char>) -> bool {
    forall|i: int| 0 <= i < text.len() ==> '0' <= #[trigger] text[i] <= '9'
}

/// The number that a text of decimal digits stands for.
pub open spec fn digits_value(text: Seq<char>) -> nat
    decreases text.len(),
{
    if text.len() == 0 {
        0
    } else {
        digits_value(text.drop_last()) * 10 + (text.last() as nat - 48) as nat
    }
}

/// The magnitude of a number without its sign: one digit or more.
pub open spec fn magnitude(text: Seq<char>) -> Option<nat> {
    if text.len() > 0 && all_digits(text) {
        Some(digits_value(text))
    } else {
        None
    }
}

/// The number in a text, with an optional plus sign.
pub open spec fn unsigned_number(text: Seq<char>) -> Option<int> {
    let body = if text.len() > 0 && text[0] == '+' {
        text.drop_first()
    } else {
        text
    };
    match magnitude(body) {
        Some(n) => Some(n as int),
        None => None,
    }
}

/// The number in a text, with an optional plus or minus sign.
pub open spec fn signed_number(text: Seq<char>) -> Option<int> {
    if text.len() > 0 && text[0] == '-' {
        match magnitude(text.drop_first()) {
            Some(n) => Some(-(n as int)),
            None => None,
        }
    } else {
        unsigned_number(text)
    }
}

proof fn lemma_digits_value_grows(text: Seq<char>, n: int)
    requires
        0 <= n <= text.len(),
    ensures
        digits_value(text.take(n)) <= digits_value(text),
    decreases text.len() - n,
{
    if n < text.len() {
        let longer = text.take(n + 1);
        assert(longer.drop_last() =~= text.take(n));
        lemma_digits_value_grows(text, n + 1);
    } else {
        assert(text.take(n) =~= text);
    }
}

/// The magnitude of the characters from `from` on, where it is at most 2^32.
fn parse_magnitude(chars: &[char], from: usize) -> (n: Option<u64>)
    requires
        from <= chars@.len(),
    ensures
        n is Some <==> (magnitude(chars@.skip(from as int)) is Some && magnitude(
            chars@.skip(from as int),
        )->0 <= 0x1_0000_0000),
        n matches Some(n) ==> magnitude(chars@.skip(from as int)) == Some(n as nat),
{
    if from == chars.len() {
        return None;
    }
    let ghost body = chars@.skip(from as int);
    let mut value: u64 = 0;
    let mut i: usize = from;
    while i < chars.len()
        invariant
            body == chars@.skip(from as int),
            from <= i <= chars@.len(),
            value == digits_value(body.take(i - from)),
            value <= 0x1_0000_0000,
            forall|j: int| 0 <= j < i - from ==> '0' <= #[trigger] body[j] <= '9',
        decreases chars@.len() - i,
    {
        let c = chars[i];
        proof {
            assert(body[i - from] == c);
        }
        if c < '0' || c > '9' {
            return None;
        }
        let ghost upto = body.take(i - from + 1);
        proof {
            assert(upto.drop_last() =~= body.take(i - from));
            assert(upto.last() == c);
            lemma_digits_value_grows(body, i - from + 1);
        }
        value = value * 10 + (c as u64 - 48);
        if value > 0x1_0000_0000 {
            return None;
        }
        i = i + 1;
    }
    proof {
        assert(body.take(i - from) =~= body);
    }
    Some(value)
}

/// The text as an unsigned number of 32 bits.
pub fn parse_u32(text: &str) -> (n: Option<u32>)
    ensures
        n is Some <==> (unsigned_number(text@) matches Some(v) && v <= u32::MAX),
        n matches Some(n) ==> unsigned_number(text@) == Some(n as int),
{
    let chars = chars_of(text);
    let from: usize = if chars.len() > 0 && chars[0] == '+' {
        1
    } else {
        0
    };
    proof {
        assert(chars@.skip(0) =~= chars@);
        assert(chars@.len() > 0 ==> chars@.skip(1) =~= chars@.drop_first());
    }
    match parse_magnitude(&chars, from) {
        Some(v) => if v <= 0xffff_ffff {
            Some(v as u32)
        } else {
            None
        },
        None => None,
    }
}

/// The text as a signed number of 32 bits.
pub fn parse_i32(text: &str) -> (n: Option<i32>)
    ensures
        n is Some <==> (signed_number(text@) matches Some(v) && i32::MIN <= v <= i32::MAX),
        n matches Some(n) ==> signed_number(text@) == Some(n as int),
{
    let chars = chars_of(text);
    let negative = chars.len() > 0 && chars[0] == '-';
    let from: usize = if negative || (chars.len() > 0 && chars[0] == '+') {
        1
    } else {
        0
    };
    proof {
        assert(chars@.skip(0) =~= chars@);
        assert(chars@.len() > 0 ==> chars@.skip(1) =~= chars@.drop_first());
    }
    match parse_magnitude(&chars, from) {
        Some(v) => if negative {
            if v <= 0x8000_0000 {
                Some((0 - v as i64) as i32)
            } else {
                None
            }
        } else if v <= 0x7fff_ffff {
            Some(v as i32)
        } else {
            None
        },
        None => None,
    }
}

/// The text before the first `/`, or all of it where there is none.
pub open spec fn head_segment(text: Seq<char>) -> Seq<char>
    decreases text.len(),
{
    if text.len() == 0 || text[0] == '/' {
        Seq::empty()
    } else {
        seq![text[0]] + head_segment(text.drop_first())
    }
}

/// The text after the first `/`, where there is one.
pub open spec fn after_head(text: Seq<char>) -> Option<Seq<char>>
    decreases text.len(),
{
    if text.len() == 0 {
        None
    } else if text[0] == '/' {
        Some(text.drop_first())
    } else {
        after_head(text.drop_first())
    }
}

/// Splits a text at its first `/`: what stands before it, and what follows, if it occurs.
pub fn split_head(text: &str) -> (parts: (String, Option<String>))
    ensures
        parts.0@ == head_segment(text@),
        parts.1 is Some <==> after_head(text@) is Some,
        parts.1 matches Some(rest) ==> after_head(text@) == Some(rest@),
{
    let chars = chars_of(text);
    let mut at: usize = 0;
    proof {
        assert(chars@.skip(0) =~= chars@);
        assert(head_segment(chars@) =~= chars@.take(0) + head_segment(chars@));
    }
    while at < chars.len() && chars[at] != '/'
        invariant
            at <= chars@.len(),
            head_segment(chars@) == chars@.take(at as int) + head_segment(chars@.skip(at as int)),
            after_head(chars@) == after_head(chars@.skip(at as int)),
        decreases chars@.len() - at,
    {
        proof {
            let rest = chars@.skip(at as int);
            assert(rest.drop_first() =~= chars@.skip(at + 1));
            assert(chars@.take(at as int) + (seq![rest[0]] + head_segment(rest.drop_first()))
                =~= chars@.take(at + 1) + head_segment(rest.drop_first()));
        }
        at = at + 1;
    }
    proof {
        assert(head_segment(chars@) =~= chars@.subrange(0, at as int));
    }
    let head = text_of(&chars, 0, at);
    if at < chars.len() {
        proof {
            assert(chars@.skip(at as int).drop_first() =~= chars@.subrange(
                at + 1,
                chars@.len() as int,
            ));
        }
        (head, Some(text_of(&chars, at + 1, chars.len())))
    } else {
        (head, None)
    }
}

} // verus!
