//! Strings as sequences of characters: blank text, decimal numbers, joined
//! lists and replaced markers.

use vstd::prelude::*;
use vstd::string::*;

verus! {

/// `String::push`: the given character is appended to the end of the string.
pub assume_specification[ String::push ](s: &mut String, c: char)
    ensures
        final(s)@ == old(s)@.push(c),
;

/// The characters with the Unicode `White_Space` property.
pub open spec fn whitespace(c: char) -> bool {
    ||| '\u{9}' <= c <= '\u{D}'
    ||| c == '\u{20}'
    ||| c == '\u{85}'
    ||| c == '\u{A0}'
    ||| c == '\u{1680}'
    ||| '\u{2000}' <= c <= '\u{200A}'
    ||| c == '\u{2028}'
    ||| c == '\u{2029}'
    ||| c == '\u{202F}'
    ||| c == '\u{205F}'
    ||| c == '\u{3000}'
}

/// Text that is empty once surrounding whitespace is trimmed.
pub open spec fn blank(text: Seq<char>) -> bool {
    forall|i: int| 0 <= i < text.len() ==> whitespace(#[trigger] text[i])
}

fn is_whitespace(c: char) -> (r: bool)
    ensures
        r == whitespace(c),
{
    ('\u{9}' <= c && c <= '\u{D}') || c == '\u{20}' || c == '\u{85}' || c == '\u{A0}' || c
        == '\u{1680}' || ('\u{2000}' <= c && c <= '\u{200A}') || c == '\u{2028}' || c == '\u{2029}'
        || c == '\u{202F}' || c == '\u{205F}' || c == '\u{3000}'
}

/// Whether `text` holds nothing but whitespace.
pub fn is_blank(text: &str) -> (r: bool)
    ensures
        r == blank(text@),
{
    let mut all: bool = true;
    for c in it: text.chars()
        invariant
            it.seq() == text@,
            all == forall|i: int| 0 <= i < it.index() ==> whitespace(#[trigger] text@[i]),
    {
        if !is_whitespace(c) {
            all = false;
        }
    }
    all
}

/// The character of a decimal digit.
pub open spec fn digit(d: int) -> char
    recommends
        0 <= d < 10,
{
    (48 + d) as char
}

/// A natural number in decimal, without leading zeros.
pub open spec fn decimal(n: nat) -> Seq<char>
    decreases n,
{
    if n < 10 {
        seq![digit(n as int)]
    } else {
        decimal(n / 10).push(digit((n % 10) as int))
    }
}

/// A natural number in decimal, filled up with leading zeros to `width`
/// digits where it has fewer.
pub open spec fn zero_padded(n: nat, width: nat) -> Seq<char>
    decreases width,
{
    if width <= 1 {
        decimal(n)
    } else {
        zero_padded(n / 10, (width - 1) as nat).push(digit((n % 10) as int))
    }
}

/// The number that a row of decimal digits denotes.
pub open spec fn digits_value(digits: Seq<char>) -> int
    decreases digits.len(),
{
    if digits.len() == 0 {
        0
    } else {
        10 * digits_value(digits.drop_last()) + (digits.last() as int - 48)
    }
}

/// The digits of a number denote that number, each of them is a digit, and the
/// first of several is not zero.
pub proof fn law_decimal_denotes(n: nat)
    ensures
        digits_value(decimal(n)) == n,
        decimal(n).len() >= 1,
        forall|i: int| 0 <= i < decimal(n).len() ==> '0' <= #[trigger] decimal(n)[i] <= '9',
        decimal(n).len() > 1 ==> decimal(n)[0] != '0',
    decreases n,
{
    if n < 10 {
        assert(decimal(n).drop_last() =~= seq![]);
        assert(digits_value(seq![]) == 0);
    } else {
        law_decimal_denotes(n / 10);
        if n / 10 < 10 {
            assert(decimal(n / 10)[0] == digit((n / 10) as int));
        } else {
            assert(decimal(n / 10).len() > 1) by {
                assert(decimal(n / 10 / 10).len() >= 1) by {
                    law_decimal_denotes(n / 10 / 10);
                }
            }
        }
        assert(decimal(n)[0] == decimal(n / 10)[0]);
        assert(decimal(n).drop_last() =~= decimal(n / 10));
    }
}

/// Digits with leading zeros denote the same number, and are as many as the
/// width, or more where the number has more, and then do not start with a zero.
pub proof fn law_zero_padded_denotes(n: nat, width: nat)
    ensures
        digits_value(zero_padded(n, width)) == n,
        zero_padded(n, width).len() >= width,
        zero_padded(n, width).len() >= 1,
        zero_padded(n, width).len() > width && zero_padded(n, width).len() > 1 ==> zero_padded(
            n,
            width,
        )[0] != '0',
        forall|i: int|
            0 <= i < zero_padded(n, width).len() ==> '0' <= #[trigger] zero_padded(n, width)[i]
                <= '9',
    decreases width,
{
    if width <= 1 {
        law_decimal_denotes(n);
    } else {
        law_zero_padded_denotes(n / 10, (width - 1) as nat);
        assert(zero_padded(n, width).drop_last() =~= zero_padded(n / 10, (width - 1) as nat));
    }
}

fn digit_char(d: u128) -> (c: char)
    requires
        d < 10,
    ensures
        c == digit(d as int),
{
    (48 + d as u8) as char
}

/// Appends `n` in decimal to `out`.
pub fn push_decimal(out: &mut String, n: u128)
    ensures
        final(out)@ == old(out)@ + decimal(n as nat),
    decreases n,
{
    if n >= 10 {
        push_decimal(out, n / 10);
    }
    out.push(digit_char(n % 10));
}

/// The parts in order, with `separator` between each two neighbours.
pub open spec fn joined(parts: Seq<Seq<char>>, separator: Seq<char>) -> Seq<char>
    decreases parts.len(),
{
    if parts.len() == 0 {
        seq![]
    } else {
        let front = parts.drop_last();
        if front.len() == 0 {
            parts.last()
        } else {
            joined(front, separator) + separator + parts.last()
        }
    }
}

/// A joined text is not blank where the last part is not.
pub proof fn lemma_joined_not_blank(parts: Seq<Seq<char>>, separator: Seq<char>)
    requires
        parts.len() > 0,
        !blank(parts.last()),
    ensures
        !blank(joined(parts, separator)),
{
    let text = joined(parts, separator);
    let last = parts.last();
    let i = choose|i: int| 0 <= i < last.len() && !whitespace(#[trigger] last[i]);
    assert(text[text.len() - last.len() + i] == last[i]);
}

/// The contents of a list of strings.
pub open spec fn contents(parts: Seq<String>) -> Seq<Seq<char>> {
    parts.map_values(|part: String| part@)
}

/// Joins `parts` with `separator` between neighbours.
pub fn join(parts: &Vec<String>, separator: &str) -> (r: String)
    ensures
        r@ == joined(contents(parts@), separator@),
{
    let mut out = String::new();
    let ghost texts = contents(parts@);
    for i in 0..parts.len()
        invariant
            texts == contents(parts@),
            out@ == joined(texts.take(i as int), separator@),
    {
        assert(texts.take(i + 1).drop_last() =~= texts.take(i as int));
        if i > 0 {
            out.append(separator);
        }
        out.append(parts[i].as_str());
    }
    assert(texts.take(texts.len() as int) =~= texts);
    out
}

/// `text` with every occurrence of `marker` replaced by `value`, taken from
/// the left and without overlap.
pub open spec fn replaced(text: Seq<char>, marker: Seq<char>, value: Seq<char>) -> Seq<char>
    recommends
        marker.len() > 0,
    decreases text.len(),
{
    if marker.len() == 0 || text.len() < marker.len() {
        text
    } else if marker.is_prefix_of(text) {
        value + replaced(text.skip(marker.len() as int), marker, value)
    } else {
        seq![text[0]] + replaced(text.skip(1), marker, value)
    }
}

/// The characters of `text` as a vector.
fn chars_of(text: &str) -> (r: Vec<char>)
    ensures
        r@ == text@,
{
    let mut chars: Vec<char> = Vec::new();
    for c in it: text.chars()
        invariant
            it.seq() == text@,
            chars@ == text@.take(it.index()),
    {
        chars.push(c);
        assert(text@.take(it.index() + 1) =~= text@.take(it.index()).push(c));
    }
    chars
}

/// Whether `marker` stands in `text` at `from`.
fn matches_at(text: &Vec<char>, from: usize, marker: &Vec<char>) -> (r: bool)
    requires
        from <= text.len(),
    ensures
        r == marker@.is_prefix_of(text@.skip(from as int)),
{
    if text.len() - from < marker.len() {
        return false;
    }
    for i in 0..marker.len()
        invariant
            from + marker.len() <= text.len(),
            forall|j: int| 0 <= j < i ==> #[trigger] marker@[j] == text@[from + j],
    {
        if marker[i] != text[from + i] {
            assert(marker@[i as int] != text@.skip(from as int)[i as int]);
            return false;
        }
    }
    assert(marker@ =~= text@.skip(from as int).subrange(0, marker@.len() as int));
    true
}

/// Replaces every occurrence of `marker` in `text` by `value`.
pub fn replace(text: &str, marker: &str, value: &str) -> (r: String)
    requires
        marker@.len() > 0,
    ensures
        r@ == replaced(text@, marker@, value@),
{
    let chars = chars_of(text);
    let pattern = chars_of(marker);
    let mut out = String::new();
    let mut i: usize = 0;
    assert(text@.skip(0) =~= text@);
    while i < chars.len()
        invariant
            i <= chars.len(),
            chars@ == text@,
            pattern@ == marker@,
            marker@.len() > 0,
            replaced(text@, marker@, value@) == out@ + replaced(
                text@.skip(i as int),
                marker@,
                value@,
            ),
        decreases chars.len() - i,
    {
        let ghost rest = text@.skip(i as int);
        if matches_at(&chars, i, &pattern) {
            assert(rest.skip(marker@.len() as int) =~= text@.skip(i + marker@.len()));
            let ghost before = out@;
            out.append(value);
            i = i + pattern.len();
            assert(before + (value@ + replaced(text@.skip(i as int), marker@, value@)) =~= out@
                + replaced(text@.skip(i as int), marker@, value@));
        } else {
            assert(rest.skip(1) =~= text@.skip(i + 1));
            let ghost before = out@;
            out.push(chars[i]);
            i = i + 1;
            assert(rest =~= seq![rest[0]] + rest.skip(1));
            assert(before + (seq![rest[0]] + replaced(text@.skip(i as int), marker@, value@))
                =~= out@ + replaced(text@.skip(i as int), marker@, value@));
        }
    }
    assert(text@.skip(i as int) =~= seq![]);
    assert(replaced(seq![], marker@, value@) =~= seq![]);
    out
}

/// Whether `part` stands in `text` at `from`.
pub open spec fn stands_at(part: Seq<char>, text: Seq<char>, from: int) -> bool {
    0 <= from <= text.len() - part.len() && text.subrange(from, from + part.len()) == part
}

/// Whether `part` stands somewhere in `text`.
pub open spec fn occurs(part: Seq<char>, text: Seq<char>) -> bool {
    exists|from: int| stands_at(part, text, from)
}

/// Each part stands in the joined text.
pub proof fn law_joined_shows_each_part(parts: Seq<Seq<char>>, separator: Seq<char>, k: int)
    requires
        0 <= k < parts.len(),
    ensures
        occurs(parts[k], joined(parts, separator)),
    decreases parts.len(),
{
    let part = parts[k];
    let whole = joined(parts, separator);
    let front = parts.drop_last();
    if k == parts.len() - 1 {
        let from = whole.len() - part.len();
        assert(whole.subrange(from, whole.len() as int) =~= part);
        assert(stands_at(part, whole, from));
    } else {
        law_joined_shows_each_part(front, separator, k);
        let before = joined(front, separator);
        let from = choose|from: int| stands_at(part, before, from);
        assert(whole.subrange(from, from + part.len()) =~= before.subrange(
            from,
            from + part.len(),
        ));
        assert(stands_at(part, whole, from));
    }
}

/// Whether one text comes before the other in the order of a dictionary.
pub open spec fn sorts_before(text: Seq<char>, other: Seq<char>) -> bool
    decreases text.len(),
{
    if other.len() == 0 {
        false
    } else if text.len() == 0 {
        true
    } else if text[0] != other[0] {
        text[0] < other[0]
    } else {
        sorts_before(text.skip(1), other.skip(1))
    }
}

/// Texts with beginnings of the same length are ordered by these, and where
/// they are the same by what follows.
pub proof fn lemma_order_of_beginnings(
    text: Seq<char>,
    other: Seq<char>,
    rest: Seq<char>,
    other_rest: Seq<char>,
)
    requires
        text.len() == other.len(),
    ensures
        sorts_before(text + rest, other + other_rest) <==> sorts_before(text, other) || (text
            == other && sorts_before(rest, other_rest)),
    decreases text.len(),
{
    if text.len() == 0 {
        assert(text + rest =~= rest);
        assert(other + other_rest =~= other_rest);
        assert(text =~= other);
    } else {
        assert((text + rest).skip(1) =~= text.skip(1) + rest);
        assert((other + other_rest).skip(1) =~= other.skip(1) + other_rest);
        lemma_order_of_beginnings(text.skip(1), other.skip(1), rest, other_rest);
        if text[0] == other[0] && text.skip(1) == other.skip(1) {
            assert(text =~= seq![text[0]] + text.skip(1));
            assert(other =~= seq![other[0]] + other.skip(1));
        }
    }
}

/// Equally many digits are ordered as the numbers that they denote.
pub proof fn law_digits_sort_as_numbers(digits: Seq<char>, other: Seq<char>)
    requires
        digits.len() == other.len(),
        forall|i: int| 0 <= i < digits.len() ==> '0' <= #[trigger] digits[i] <= '9',
        forall|i: int| 0 <= i < other.len() ==> '0' <= #[trigger] other[i] <= '9',
    ensures
        sorts_before(digits, other) <==> digits_value(digits) < digits_value(other),
        digits == other <==> digits_value(digits) == digits_value(other),
    decreases digits.len(),
{
    if digits.len() == 0 {
        assert(digits =~= other);
    } else {
        let front = digits.drop_last();
        let other_front = other.drop_last();
        let last = seq![digits.last()];
        let other_last = seq![other.last()];
        assert(digits =~= front + last);
        assert(other =~= other_front + other_last);
        law_digits_sort_as_numbers(front, other_front);
        lemma_order_of_beginnings(front, other_front, last, other_last);
        reveal_with_fuel(sorts_before, 2);
        assert('0' <= digits[digits.len() - 1] <= '9');
        assert('0' <= other[other.len() - 1] <= '9');
    }
}

/// Whether no character of one text stands in the other.
pub open spec fn disjoint(text: Seq<char>, other: Seq<char>) -> bool {
    forall|i: int, j: int|
        0 <= i < text.len() && 0 <= j < other.len() ==> #[trigger] text[i] != #[trigger] other[j]
}

/// What a text starts with once a marker was replaced, it started with before,
/// where this shares no character with the value.
proof fn lemma_start_of_replaced(
    text: Seq<char>,
    marker: Seq<char>,
    value: Seq<char>,
    part: Seq<char>,
)
    requires
        value.len() > 0,
        disjoint(part, value),
        part.is_prefix_of(replaced(text, marker, value)),
    ensures
        part.is_prefix_of(text),
    decreases text.len(),
{
    if part.len() > 0 && marker.len() > 0 && text.len() >= marker.len() {
        let whole = replaced(text, marker, value);
        assert(part[0] == whole[0]);
        if marker.is_prefix_of(text) {
            assert(whole[0] == value[0]);
        } else {
            let tail = part.skip(1);
            let rest = replaced(text.skip(1), marker, value);
            assert forall|i: int, j: int|
                0 <= i < tail.len() && 0 <= j < value.len() implies #[trigger] tail[i]
                != #[trigger] value[j] by {
                assert(tail[i] == part[i + 1]);
            }
            assert forall|i: int| 0 <= i < tail.len() implies tail[i] == rest[i] by {
                assert(part[i + 1] == whole[i + 1]);
            }
            assert(rest.subrange(0, tail.len() as int) =~= tail);
            lemma_start_of_replaced(text.skip(1), marker, value, tail);
            assert forall|i: int| 0 <= i < part.len() implies part[i] == text[i] by {
                if i > 0 {
                    assert(tail[i - 1] == text.skip(1)[i - 1]);
                }
            }
            assert(text.subrange(0, part.len() as int) =~= part);
        }
    }
}

proof fn lemma_later_stand(part: Seq<char>, start: Seq<char>, rest: Seq<char>, from: int)
    requires
        stands_at(part, start + rest, from),
        from >= start.len(),
    ensures
        stands_at(part, rest, from - start.len()),
{
    let at = from - start.len();
    assert(rest.subrange(at, at + part.len()) =~= (start + rest).subrange(
        from,
        from + part.len(),
    ));
}

/// Replacing a marker by a value that shares no character with it leaves no
/// marker.
pub proof fn law_replaced_leaves_no_marker(text: Seq<char>, marker: Seq<char>, value: Seq<char>)
    requires
        marker.len() > 0,
        value.len() > 0,
        disjoint(marker, value),
    ensures
        !occurs(marker, replaced(text, marker, value)),
    decreases text.len(),
{
    let whole = replaced(text, marker, value);
    if text.len() >= marker.len() {
        assert forall|from: int| !stands_at(marker, whole, from) by {
            if stands_at(marker, whole, from) {
                assert(marker[0] == whole[from]);
                if marker.is_prefix_of(text) {
                    let rest = text.skip(marker.len() as int);
                    law_replaced_leaves_no_marker(rest, marker, value);
                    if from < value.len() {
                        assert(whole[from] == value[from]);
                    } else {
                        lemma_later_stand(marker, value, replaced(rest, marker, value), from);
                    }
                } else {
                    let rest = text.skip(1);
                    law_replaced_leaves_no_marker(rest, marker, value);
                    if from == 0 {
                        lemma_start_of_replaced(text, marker, value, marker);
                    } else {
                        lemma_later_stand(
                            marker,
                            seq![text[0]],
                            replaced(rest, marker, value),
                            from,
                        );
                    }
                }
            }
        }
    }
}

/// Replacing a marker by a value brings no other text in that shares no
/// character with the value.
pub proof fn law_replaced_brings_nothing_else(
    text: Seq<char>,
    marker: Seq<char>,
    value: Seq<char>,
    part: Seq<char>,
)
    requires
        part.len() > 0,
        value.len() > 0,
        disjoint(part, value),
        occurs(part, replaced(text, marker, value)),
    ensures
        occurs(part, text),
    decreases text.len(),
{
    let whole = replaced(text, marker, value);
    let from = choose|from: int| stands_at(part, whole, from);
    if marker.len() > 0 && text.len() >= marker.len() {
        assert(part[0] == whole[from]);
        let skipped: int = if marker.is_prefix_of(text) {
            marker.len() as int
        } else {
            1
        };
        let rest = text.skip(skipped);
        let kept = replaced(rest, marker, value);
        if marker.is_prefix_of(text) {
            if from < value.len() {
                assert(whole[from] == value[from]);
            }
            lemma_later_stand(part, value, kept, from);
        } else if from == 0 {
            lemma_start_of_replaced(text, marker, value, part);
            assert(stands_at(part, text, 0));
        } else {
            lemma_later_stand(part, seq![text[0]], kept, from);
        }
        if marker.is_prefix_of(text) || from > 0 {
            assert(occurs(part, kept));
            law_replaced_brings_nothing_else(rest, marker, value, part);
            let at = choose|at: int| stands_at(part, rest, at);
            assert(text.subrange(skipped + at, skipped + at + part.len()) =~= rest.subrange(
                at,
                at + part.len(),
            ));
            assert(stands_at(part, text, skipped + at));
        }
    }
}

/// A text is blank exactly if each of its characters is one of Unicode's
/// whitespace: of a blank text every character is, and of another `other` is a
/// place where one is not.
pub proof fn law_blank_is_whitespace_alone(text: Seq<char>, i: int) -> (other: int)
    requires
        0 <= i < text.len(),
    ensures
        ({
            let code = text[i] as int;
            blank(text) ==> (9 <= code <= 13 || code == 32 || code == 133 || code == 160 || code
                == 5760 || 8192 <= code <= 8202 || code == 8232 || code == 8233 || code == 8239
                || code == 8287 || code == 12288)
        }),
        !blank(text) ==> ({
            let code = text[other] as int;
            &&& 0 <= other < text.len()
            &&& !(9 <= code <= 13 || code == 32 || code == 133 || code == 160 || code == 5760
                || 8192 <= code <= 8202 || code == 8232 || code == 8233 || code == 8239 || code
                == 8287 || code == 12288)
        }),
{
    if blank(text) {
        assert(whitespace(text[i]));
        0
    } else {
        choose|other: int| 0 <= other < text.len() && !whitespace(#[trigger] text[other])
    }
}

/// Two texts are blank together exactly if each of them is, and the empty text
/// is blank.
pub proof fn law_blank_of_both(text: Seq<char>, other: Seq<char>)
    ensures
        blank(text + other) <==> blank(text) && blank(other),
        blank(Seq::<char>::empty()),
{
    if blank(text + other) {
        assert forall|i: int| 0 <= i < text.len() implies whitespace(#[trigger] text[i]) by {
            assert(whitespace((text + other)[i]));
        }
        assert forall|i: int| 0 <= i < other.len() implies whitespace(#[trigger] other[i]) by {
            assert(whitespace((text + other)[text.len() + i]));
        }
    }
}

/// Nothing joined is nothing, a single part is itself, and each further part
/// comes after one separator.
pub proof fn law_joined_part_by_part(
    parts: Seq<Seq<char>>,
    separator: Seq<char>,
    further: Seq<char>,
)
    ensures
        joined(Seq::empty(), separator) == Seq::<char>::empty(),
        joined(seq![further], separator) == further,
        parts.len() > 0 ==> joined(parts.push(further), separator) == joined(parts, separator)
            + separator + further,
{
    assert(seq![further].drop_last() =~= seq![]);
    assert(parts.push(further).drop_last() =~= parts);
}

/// A text without the marker stays as it is.
pub proof fn law_replaced_without_marker(text: Seq<char>, marker: Seq<char>, value: Seq<char>)
    requires
        marker.len() > 0,
        !occurs(marker, text),
    ensures
        replaced(text, marker, value) == text,
    decreases text.len(),
{
    if text.len() >= marker.len() {
        if marker.is_prefix_of(text) {
            assert(stands_at(marker, text, 0));
        } else {
            let rest = text.skip(1);
            assert forall|from: int| !stands_at(marker, rest, from) by {
                if stands_at(marker, rest, from) {
                    assert(text.subrange(from + 1, from + 1 + marker.len()) =~= rest.subrange(
                        from,
                        from + marker.len(),
                    ));
                    assert(stands_at(marker, text, from + 1));
                }
            }
            law_replaced_without_marker(rest, marker, value);
            assert(seq![text[0]] + rest =~= text);
        }
    }
}

/// Where the marker stands for the first time after `before`, the value comes in
/// its place, and what follows has its own markers replaced.
pub proof fn law_replaced_marker_by_marker(
    before: Seq<char>,
    marker: Seq<char>,
    value: Seq<char>,
    after: Seq<char>,
)
    requires
        marker.len() > 0,
        forall|from: int|
            0 <= from < before.len() ==> !stands_at(marker, before + marker + after, from),
    ensures
        replaced(before + marker + after, marker, value) == before + value + replaced(
            after,
            marker,
            value,
        ),
    decreases before.len(),
{
    let text = before + marker + after;
    let rest = replaced(after, marker, value);
    if before.len() == 0 {
        assert(text.subrange(0, marker.len() as int) =~= marker);
        assert(text.skip(marker.len() as int) =~= after);
        assert(before + value + rest =~= value + rest);
    } else {
        let tail = before.skip(1);
        assert(text.skip(1) =~= tail + marker + after);
        assert(!marker.is_prefix_of(text)) by {
            if marker.is_prefix_of(text) {
                assert(stands_at(marker, text, 0));
            }
        }
        assert forall|from: int| 0 <= from < tail.len() implies !stands_at(
            marker,
            tail + marker + after,
            from,
        ) by {
            if stands_at(marker, tail + marker + after, from) {
                assert(text.subrange(from + 1, from + 1 + marker.len()) =~= (tail + marker
                    + after).subrange(from, from + marker.len()));
                assert(stands_at(marker, text, from + 1));
            }
        }
        law_replaced_marker_by_marker(tail, marker, value, after);
        assert(seq![text[0]] + (tail + value + rest) =~= before + value + rest);
    }
}

/// The contents of a list of strings are those of each, in order.
pub proof fn law_contents_of_each(parts: Seq<String>)
    ensures
        contents(parts).len() == parts.len(),
        forall|i: int| 0 <= i < parts.len() ==> #[trigger] contents(parts)[i] == parts[i]@,
{
}

} // verus!
