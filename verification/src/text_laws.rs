//! What holds of texts, whatever they hold.

use crate::text;
use vstd::prelude::*;

verus! {

/// Two texts are ordered by what follows their common start: one that ends there comes before one
/// that goes on, and else the one that goes on with the smaller character comes before the other.
pub proof fn lemma_order_of_texts(
    x: &str,
    y: &str,
    before: bool,
    start: Seq<char>,
    a: Seq<char>,
    b: Seq<char>,
)
    requires
        call_ensures(text::text_precedes, (x, y), before),
        x@ == start + a,
        y@ == start + b,
        a.len() == 0 || b.len() == 0 || a[0] != b[0],
    ensures
        before <==> b.len() > 0 && (a.len() == 0 || a[0] < b[0]),
{
    lemma_same_start(start, a, b);
}

/// What two texts start with alike does not tell their order.
pub proof fn lemma_same_start(start: Seq<char>, a: Seq<char>, b: Seq<char>)
    ensures
        text::precedes(start + a, start + b) == text::precedes(a, b),
        a.len() == 0 || b.len() == 0 || a[0] != b[0] ==> (text::precedes(a, b) <==> b.len() > 0 && (
        a.len() == 0 || a[0] < b[0])),
    decreases start.len(),
{
    if start.len() == 0 {
        assert(start + a =~= a);
        assert(start + b =~= b);
    } else {
        lemma_same_start(start.drop_first(), a, b);
        assert((start + a).drop_first() =~= start.drop_first() + a);
        assert((start + b).drop_first() =~= start.drop_first() + b);
    }
}

/// White space is made of the characters that Unicode lists as such.
pub proof fn lemma_white_space(c: char, white: bool)
    requires
        call_ensures(text::is_whitespace, (c,), white),
    ensures
        white <==> (9 <= c as int <= 13 || c as int == 0x20 || c as int == 0x85 || c as int == 0xa0
            || c as int == 0x1680 || 0x2000 <= c as int <= 0x200a || c as int == 0x2028 || c as int
            == 0x2029 || c as int == 0x202f || c as int == 0x205f || c as int == 0x3000),
        white == text::is_white(c),
        '!' <= c <= '~' ==> !white,
{
}

proof fn lemma_start(text: Seq<char>) -> (from: int)
    ensures
        0 <= from <= text.len(),
        text::trimmed_start(text) == text.skip(from),
        forall|i: int| 0 <= i < from ==> text::is_white(#[trigger] text[i]),
        from < text.len() ==> !text::is_white(text[from]),
    decreases text.len(),
{
    if text.len() > 0 && text::is_white(text[0]) {
        let rest = text.drop_first();
        let from = lemma_start(rest);
        assert(rest.skip(from) =~= text.skip(from + 1));
        assert forall|i: int| 0 <= i < from + 1 implies text::is_white(#[trigger] text[i]) by {
            if i > 0 {
                assert(rest[i - 1] == text[i]);
            }
        }
        if from + 1 < text.len() {
            assert(rest[from] == text[from + 1]);
        }
        from + 1
    } else {
        assert(text.skip(0) =~= text);
        0
    }
}

proof fn lemma_end(text: Seq<char>) -> (to: int)
    ensures
        0 <= to <= text.len(),
        text::trimmed_end(text) == text.take(to),
        forall|i: int| to <= i < text.len() ==> text::is_white(#[trigger] text[i]),
        to > 0 ==> !text::is_white(text[to - 1]),
    decreases text.len(),
{
    if text.len() > 0 && text::is_white(text.last()) {
        let rest = text.drop_last();
        let to = lemma_end(rest);
        assert(rest.take(to) =~= text.take(to));
        assert forall|i: int| to <= i < text.len() implies text::is_white(#[trigger] text[i]) by {
            if i < rest.len() {
                assert(rest[i] == text[i]);
            }
        }
        to
    } else {
        assert(text.take(text.len() as int) =~= text);
        text.len() as int
    }
}

/// Trimming leaves the part of a text between the white space at its ends.
pub proof fn lemma_trimmed_part(text: Seq<char>) -> (part: (int, int))
    ensures
        0 <= part.0 <= part.1 <= text.len(),
        text::trimmed(text) == text.subrange(part.0, part.1),
        forall|i: int| 0 <= i < part.0 ==> text::is_white(#[trigger] text[i]),
        forall|i: int| part.1 <= i < text.len() ==> text::is_white(#[trigger] text[i]),
        part.0 < part.1 ==> !text::is_white(text[part.0]) && !text::is_white(text[part.1 - 1]),
{
    let from = lemma_start(text);
    let start = text.skip(from);
    let to = lemma_end(start);
    assert(start.take(to) =~= text.subrange(from, from + to));
    assert forall|i: int| from + to <= i < text.len() implies text::is_white(
        #[trigger] text[i],
    ) by {
        assert(start[i - from] == text[i]);
    }
    if to > 0 {
        assert(start[to - 1] == text[from + to - 1]);
        assert(start[0] == text[from]);
    }
    (from, from + to)
}

/// Trimming leaves the part of a text between the white space at its ends.
pub proof fn lemma_trim(value: &str, kept: String) -> (part: (int, int))
    requires
        call_ensures(text::trim, (value,), kept),
    ensures
        0 <= part.0 <= part.1 <= value@.len(),
        kept@ == value@.subrange(part.0, part.1),
        forall|i: int| 0 <= i < part.0 ==> text::is_white(#[trigger] value@[i]),
        forall|i: int| part.1 <= i < value@.len() ==> text::is_white(#[trigger] value@[i]),
        part.0 < part.1 ==> !text::is_white(value@[part.0]) && !text::is_white(value@[part.1 - 1]),
{
    lemma_trimmed_part(value@)
}

/// A text is blank exactly when it has no character that can be seen.
pub proof fn lemma_blank(value: &str, all_white: bool)
    requires
        call_ensures(text::blank, (value,), all_white),
    ensures
        !all_white <==> exists|i: int|
            0 <= i < value@.len() && !text::is_white(#[trigger] value@[i]),
{
}

/// A text ends with another exactly when it is made of some text and that one.
pub proof fn lemma_ends_with(value: &str, suffix: &str, found: bool, rest: Seq<char>)
    requires
        call_ensures(text::ends_with, (value, suffix), found),
    ensures
        value@ == rest + suffix@ ==> found,
        found ==> suffix@.len() <= value@.len() && value@ == value@.take(
            value@.len() - suffix@.len(),
        ) + suffix@,
{
    if value@ == rest + suffix@ {
        assert(value@.skip(value@.len() - suffix@.len()) =~= suffix@);
    }
    if found {
        let at = value@.len() - suffix@.len();
        assert(value@ =~= value@.take(at) + value@.skip(at));
    }
}

/// A text with a prefix is made of it and the rest.
pub proof fn lemma_strip_prefix(value: &str, prefix: &str, rest: Option<String>, end: Seq<char>)
    requires
        call_ensures(text::strip_prefix, (value, prefix), rest),
    ensures
        rest matches Some(rest) ==> value@ == prefix@ + rest@,
        value@ == prefix@ + end ==> (rest matches Some(rest) && rest@ == end),
{
    let n = prefix@.len() as int;
    if rest is Some {
        assert(value@ =~= value@.take(n) + value@.skip(n));
    }
    if value@ == prefix@ + end {
        assert(value@.take(n) =~= prefix@);
        assert(value@.skip(n) =~= end);
    }
}

/// Taking a suffix off as often as it is there: what is left does not end with it, a text that does
/// not end with it stays as it is, and a suffix more makes no difference.
pub proof fn lemma_without_suffixes(value: Seq<char>, suffix: Seq<char>)
    requires
        suffix.len() > 0,
    ensures
        text::without_suffixes(value + suffix, suffix) == text::without_suffixes(value, suffix),
        (forall|start: Seq<char>| value != #[trigger] (start + suffix)) ==> text::without_suffixes(
            value,
            suffix,
        ) == value,
        forall|start: Seq<char>|
            text::without_suffixes(value, suffix) != #[trigger] (start + suffix),
        text::without_suffixes(value, suffix).is_prefix_of(value),
    decreases value.len(),
{
    assert((value + suffix).skip(value.len() as int) =~= suffix);
    assert((value + suffix).take(value.len() as int) =~= value);
    let at = value.len() - suffix.len();
    if text::has_suffix(value, suffix) {
        lemma_without_suffixes(value.take(at), suffix);
        assert(value =~= value.take(at) + suffix);
    } else {
        assert forall|start: Seq<char>| value != #[trigger] (start + suffix) by {
            if value == start + suffix {
                assert(value.skip(at) =~= suffix);
            }
        }
    }
}

/// Taking a suffix off a text as often as it is there.
pub proof fn lemma_trim_end_matches(
    value: &str,
    suffix: &str,
    rest: String,
    more: &str,
    rest_of_more: String,
)
    requires
        suffix@.len() > 0,
        call_ensures(text::trim_end_matches, (value, suffix), rest),
        call_ensures(text::trim_end_matches, (more, suffix), rest_of_more),
        more@ == value@ + suffix@,
    ensures
        rest_of_more@ == rest@,
        forall|start: Seq<char>| rest@ != #[trigger] (start + suffix@),
        (forall|start: Seq<char>| value@ != #[trigger] (start + suffix@)) ==> rest@ == value@,
{
    lemma_without_suffixes(value@, suffix@);
}

/// The last segment of a path is all of it where it has no slash, and else what follows the last
/// one.
pub proof fn lemma_last_segment(start: Seq<char>, end: Seq<char>)
    requires
        !end.contains('/'),
    ensures
        text::last_segment(end) == end,
        text::last_segment(start.push('/') + end) == end,
    decreases end.len(),
{
    let whole = start.push('/') + end;
    if end.len() == 0 {
        assert(whole.last() == '/');
        assert(text::last_segment(whole) =~= end);
        assert(text::last_segment(end) =~= end);
    } else {
        let fewer = end.drop_last();
        assert forall|i: int| 0 <= i < fewer.len() implies fewer[i] != '/' by {
            assert(end.contains(end[i]));
        }
        assert(end.contains(end[end.len() - 1]));
        lemma_last_segment(start, fewer);
        assert(whole.drop_last() =~= start.push('/') + fewer);
        assert(fewer.push(end.last()) =~= end);
    }
}

/// The last segment of a path is all of it where it has no slash, and else what follows the last
/// one.
pub proof fn lemma_file_segment(
    path: &str,
    segment: String,
    start: Seq<char>,
    end: Seq<char>,
)
    requires
        call_ensures(text::file_segment, (path,), segment),
        !end.contains('/'),
        path@ == end || path@ == start.push('/') + end,
    ensures
        segment@ == end,
{
    lemma_last_segment(start, end);
}

/// Every backslash becomes a slash, and nothing else changes.
pub proof fn lemma_slash_separated(path: &str, slashed: String)
    requires
        call_ensures(text::slash_separated, (path,), slashed),
    ensures
        slashed@.len() == path@.len(),
        forall|i: int|
            0 <= i < path@.len() ==> (#[trigger] slashed@[i]) == if path@[i] == '\\' {
                '/'
            } else {
                path@[i]
            },
        slashed@ == text::slashed(path@),
{
}

/// Whether two characters are the same letter, one of them small and the other not.
pub open spec fn differ_in_case(a: char, b: char) -> bool {
    ||| 65 <= a as int <= 90 && b as int == a as int + 32
    ||| 65 <= b as int <= 90 && a as int == b as int + 32
}

/// Texts are the same ignoring case exactly when they are as long as each other, and are the same
/// but for the case of the letters from A to Z.
pub proof fn lemma_ignoring_case(a: Seq<char>, b: Seq<char>)
    ensures
        text::same_ignoring_case(a, b) <==> a.len() == b.len() && forall|i: int|
            0 <= i < a.len() ==> (#[trigger] a[i]) == b[i] || differ_in_case(a[i], b[i]),
{
    if a.len() == b.len() {
        assert forall|i: int| 0 <= i < a.len() implies (text::ascii_lower(#[trigger] a[i])
            == text::ascii_lower(b[i]) <==> a[i] == b[i] || differ_in_case(a[i], b[i])) by {
            lemma_lower(a[i], b[i]);
        }
    }
}

proof fn lemma_lower(a: char, b: char)
    ensures
        text::ascii_lower(a) == text::ascii_lower(b) <==> a == b || differ_in_case(a, b),
{
}

/// Texts are the same ignoring case exactly when they are as long as each other, and are the same
/// but for the case of the letters from A to Z.
pub proof fn lemma_eq_ignore_ascii_case(a: &str, b: &str, same: bool)
    requires
        call_ensures(text::eq_ignore_ascii_case, (a, b), same),
    ensures
        same <==> a@.len() == b@.len() && forall|i: int|
            0 <= i < a@.len() ==> (#[trigger] a@[i]) == b@[i] || differ_in_case(a@[i], b@[i]),
{
    lemma_ignoring_case(a@, b@);
}

/// The number that decimal digits stand for: nothing for none, and with each further digit ten
/// times as much and the digit.
pub proof fn lemma_value_of_digits(start: Seq<char>, digit: char)
    requires
        '0' <= digit <= '9',
    ensures
        text::digits_value(Seq::empty()) == 0,
        text::digits_value(start.push(digit)) == 10 * text::digits_value(start) + (digit as int
            - 48),
{
    assert(start.push(digit).drop_last() =~= start);
}

/// A number is written in decimal digits that stand for it, without a zero in front.
pub proof fn lemma_decimal(n: u64, written: String)
    requires
        call_ensures(text::decimal, (n,), written),
    ensures
        written@.len() > 0,
        text::all_digits(written@),
        text::digits_value(written@) == n,
        written@.len() > 1 ==> written@[0] != '0',
{
    lemma_digits_of(n as nat);
}

/// A number is written in decimal digits that stand for it, without a zero in front.
pub proof fn lemma_digits_of(n: nat)
    ensures
        text::digits(n).len() > 0,
        forall|i: int| 0 <= i < text::digits(n).len() ==> '0' <= #[trigger] text::digits(n)[i]
            <= '9',
        text::all_digits(text::digits(n)),
        text::digits_value(text::digits(n)) == n,
        text::digits(n).len() > 1 ==> text::digits(n)[0] != '0',
        n > 0 ==> text::digits(n)[0] != '0',
    decreases n,
{
    if n >= 10 {
        lemma_digits_of(n / 10);
        let start = text::digits(n / 10);
        assert(text::digits(n).drop_last() =~= start);
        assert(text::digits(n)[0] == start[0]);
    } else {
        assert(text::digits(n).drop_last() =~= Seq::<char>::empty());
        reveal_with_fuel(text::digits_value, 2);
    }
}

/// Where the digits of a number are told apart in threes, counted from its end, every fourth
/// character is a comma, and the others are the digits.
pub proof fn lemma_commas(number: Seq<char>, k: int)
    requires
        0 <= k < text::grouped(number).len(),
    ensures
        k % 4 == 3 ==> text::grouped(number)[text::grouped(number).len() - 1 - k] == ',',
        k % 4 != 3 ==> k - k / 4 < number.len() && text::grouped(number)[text::grouped(number).len()
            - 1 - k] == number[number.len() - 1 - (k - k / 4)],
    decreases number.len(),
{
    if number.len() > 3 {
        let at = number.len() - 3;
        let start = number.take(at);
        let all = text::grouped(number);
        let before = text::grouped(start);
        assert(all.len() == before.len() + 4);
        if k >= 4 {
            lemma_commas(start, k - 4);
            assert(all[all.len() - 1 - k] == before[before.len() - 1 - (k - 4)]);
            assert((k - 4) / 4 == k / 4 - 1);
        }
    }
}

/// A comma stands after every three digits from the end, and nowhere else: of `n` digits,
/// `(n - 1) / 3` times.
pub proof fn lemma_grouped_length(number: Seq<char>)
    requires
        number.len() > 0,
    ensures
        text::grouped(number).len() == number.len() + (number.len() - 1) / 3,
    decreases number.len(),
{
    if number.len() > 3 {
        lemma_grouped_length(number.take(number.len() - 3));
    }
}

/// A number is shown in its digits, told apart in threes.
pub proof fn lemma_format_number(value: u64, shown: String, digits: String, k: int)
    requires
        call_ensures(text::format_number, (value,), shown),
        call_ensures(text::decimal, (value,), digits),
        0 <= k < shown@.len(),
    ensures
        shown@.len() == digits@.len() + (digits@.len() - 1) / 3,
        k % 4 == 3 ==> shown@[shown@.len() - 1 - k] == ',',
        k % 4 != 3 ==> k - k / 4 < digits@.len() && shown@[shown@.len() - 1 - k]
            == digits@[digits@.len() - 1 - (k - k / 4)],
{
    lemma_digits_of(value as nat);
    lemma_grouped_length(digits@);
    lemma_commas(digits@, k);
}

/// Parts are put together with the separator between each two of them.
pub proof fn lemma_joined(parts: Seq<Seq<char>>, last: Seq<char>, separator: Seq<char>)
    ensures
        text::joined(Seq::empty(), separator) == Seq::<char>::empty(),
        parts.len() == 0 ==> text::joined(parts.push(last), separator) == last,
        parts.len() > 0 ==> text::joined(parts.push(last), separator) == text::joined(
            parts,
            separator,
        ) + separator + last,
{
    assert(parts.push(last).drop_last() =~= parts);
}

/// Parts are put together with the separator between each two of them.
pub proof fn lemma_join(
    parts: &Vec<String>,
    separator: &str,
    whole: String,
    more: &Vec<String>,
    longer: String,
)
    requires
        call_ensures(text::join, (parts, separator), whole),
        call_ensures(text::join, (more, separator), longer),
        more@.len() == parts@.len() + 1,
        more@.drop_last() == parts@,
    ensures
        parts@.len() == 0 ==> whole@.len() == 0 && longer@ == more@.last()@,
        parts@.len() > 0 ==> longer@ == whole@ + separator@ + more@.last()@,
{
    lemma_joined(text::texts(parts@), more@.last()@, separator@);
    assert(text::texts(more@) =~= text::texts(parts@).push(more@.last()@));
}

/// A number without a sign, or with a plus, is read from its digits; one without digits, with
/// anything else in it, or beyond 32 bits is not read.
pub proof fn lemma_parse_u32(value: &str, n: Option<u32>, digits: Seq<char>)
    requires
        call_ensures(text::parse_u32, (value,), n),
        value@ == digits && (digits.len() == 0 || digits[0] != '+') || value@ == seq!['+'] + digits,
    ensures
        n is Some <==> digits.len() > 0 && (forall|i: int|
            0 <= i < digits.len() ==> '0' <= #[trigger] digits[i] <= '9') && text::digits_value(
            digits,
        ) <= u32::MAX,
        n matches Some(n) ==> n == text::digits_value(digits),
{
    if value@ == seq!['+'] + digits {
        assert(value@.drop_first() =~= digits);
    }
}

/// A number with a minus is that below zero, one without is read as one without a sign.
pub proof fn lemma_parse_i32(value: &str, n: Option<i32>, digits: Seq<char>)
    requires
        call_ensures(text::parse_i32, (value,), n),
    ensures
        value@ == seq!['-'] + digits ==> {
            &&& n is Some <==> digits.len() > 0 && (forall|i: int|
                0 <= i < digits.len() ==> '0' <= #[trigger] digits[i] <= '9')
                && text::digits_value(digits) <= i32::MAX + 1
            &&& n matches Some(n) ==> n == -text::digits_value(digits)
        },
        value@ == seq!['+'] + digits || value@ == digits && (digits.len() == 0 || digits[0] != '+'
            && digits[0] != '-') ==> {
            &&& n is Some <==> digits.len() > 0 && (forall|i: int|
                0 <= i < digits.len() ==> '0' <= #[trigger] digits[i] <= '9')
                && text::digits_value(digits) <= i32::MAX
            &&& n matches Some(n) ==> n == text::digits_value(digits)
        },
{
    if value@ == seq!['+'] + digits || value@ == seq!['-'] + digits {
        assert(value@.drop_first() =~= digits);
    }
}

/// A path is parted at its first slash; one without a slash is all head.
pub proof fn lemma_head(head: Seq<char>, rest: Seq<char>)
    requires
        !head.contains('/'),
    ensures
        text::head_segment(head) == head,
        text::after_head(head) is None,
        text::head_segment(head.push('/') + rest) == head,
        text::after_head(head.push('/') + rest) == Some(rest),
    decreases head.len(),
{
    let whole = head.push('/') + rest;
    if head.len() == 0 {
        assert(whole[0] == '/');
        assert(whole.drop_first() =~= rest);
        assert(text::head_segment(head) =~= head);
        assert(text::head_segment(whole) =~= head);
    } else {
        let fewer = head.drop_first();
        assert forall|i: int| 0 <= i < fewer.len() implies fewer[i] != '/' by {
            assert(head.contains(head[i + 1]));
        }
        assert(head.contains(head[0]));
        lemma_head(fewer, rest);
        assert(whole.drop_first() =~= fewer.push('/') + rest);
        assert(seq![head[0]] + fewer =~= head);
        assert(whole[0] == head[0]);
    }
}

/// A path is parted at its first slash; one without a slash is all head.
pub proof fn lemma_split_head(
    path: &str,
    parts: (String, Option<String>),
    head: Seq<char>,
    rest: Seq<char>,
)
    requires
        call_ensures(text::split_head, (path,), parts),
        !head.contains('/'),
    ensures
        path@ == head ==> parts.0@ == head && parts.1 is None,
        path@ == head.push('/') + rest ==> parts.0@ == head && (parts.1 matches Some(after)
            && after@ == rest),
{
    lemma_head(head, rest);
}

} // verus!
