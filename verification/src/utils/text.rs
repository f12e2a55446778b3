//! Text helpers: comparing, splitting and building strings.

use vstd::prelude::*;
use vstd::string::StringExecFns;
use vstd::utf8::{decode_utf8, valid_utf8};

verus! {

/// The pieces of `text` between occurrences of `separator`: one more piece
/// than there are separators, each possibly empty, none holding the
/// separator.
pub open spec fn split_on(text: Seq<char>, separator: char) -> Seq<Seq<char>>
    decreases text.len(),
{
    if text.len() == 0 {
        seq![Seq::<char>::empty()]
    } else {
        let before = split_on(text.drop_last(), separator);
        if text.last() == separator {
            before.push(Seq::<char>::empty())
        } else {
            before.drop_last().push(before.last().push(text.last()))
        }
    }
}

/// Splitting never yields an empty list of pieces.
pub proof fn lemma_split_nonempty(text: Seq<char>, separator: char)
    ensures
        split_on(text, separator).len() >= 1,
    decreases text.len(),
{
    if text.len() > 0 {
        lemma_split_nonempty(text.drop_last(), separator);
    }
}

/// Whether two strings hold the same characters.
pub fn same_text(left: &str, right: &str) -> (same: bool)
    ensures
        same == (left@ == right@),
{
    let left_owned = left.to_owned();
    let right_owned = right.to_owned();
    left_owned == right_owned
}

/// Splits `text` at every occurrence of `separator`.
pub fn split(text: &str, separator: char) -> (pieces: Vec<String>)
    ensures
        pieces.deep_view() == split_on(text@, separator),
{
    let length: usize = text.unicode_len();
    let mut pieces: Vec<String> = Vec::new();
    let mut start: usize = 0;
    let mut at: usize = 0;
    proof {
        assert(text@.take(0) =~= Seq::<char>::empty());
        assert(pieces.deep_view().push(text@.subrange(0, 0)) =~= seq![Seq::<char>::empty()]);
    }
    while at < length
        invariant
            length == text@.len(),
            start <= at <= length,
            pieces.deep_view().push(text@.subrange(start as int, at as int)) == split_on(
                text@.take(at as int),
                separator,
            ),
        decreases length - at,
    {
        let ghost before = split_on(text@.take(at as int), separator);
        let symbol = text.get_char(at);
        proof {
            assert(text@.take(at as int + 1).drop_last() =~= text@.take(at as int));
            assert(text@.take(at as int + 1).last() == symbol);
            assert(before.drop_last() =~= pieces.deep_view());
        }
        if symbol == separator {
            let piece = text.substring_char(start, at).to_owned();
            pieces.push(piece);
            start = at + 1;
            proof {
                assert(pieces.deep_view() =~= before);
                assert(text@.subrange(start as int, at as int + 1) =~= Seq::<char>::empty());
            }
        } else {
            proof {
                assert(text@.subrange(start as int, at as int + 1) =~= text@.subrange(
                    start as int,
                    at as int,
                ).push(symbol));
            }
        }
        at = at + 1;
    }
    let last = text.substring_char(start, length).to_owned();
    proof {
        assert(text@.take(length as int) =~= text@);
    }
    let ghost old_pieces = pieces.deep_view();
    pieces.push(last);
    proof {
        assert(pieces.deep_view() =~= old_pieces.push(text@.subrange(start as int, length as int)));
    }
    pieces
}

/// The character of a decimal digit.
pub open spec fn digit(value: int) -> char {
    if value == 0 {
        '0'
    } else if value == 1 {
        '1'
    } else if value == 2 {
        '2'
    } else if value == 3 {
        '3'
    } else if value == 4 {
        '4'
    } else if value == 5 {
        '5'
    } else if value == 6 {
        '6'
    } else if value == 7 {
        '7'
    } else if value == 8 {
        '8'
    } else {
        '9'
    }
}

/// A number in decimal notation, without leading zeros.
pub open spec fn decimal(value: nat) -> Seq<char>
    decreases value,
{
    if value < 10 {
        seq![digit(value as int)]
    } else {
        decimal(value / 10).push(digit(value as int % 10))
    }
}

/// The text of one decimal digit.
fn digit_text(value: u64) -> (text: &'static str)
    requires
        value < 10,
    ensures
        text@ == seq![digit(value as int)],
{
    proof {
        reveal_strlit("0");
        reveal_strlit("1");
        reveal_strlit("2");
        reveal_strlit("3");
        reveal_strlit("4");
        reveal_strlit("5");
        reveal_strlit("6");
        reveal_strlit("7");
        reveal_strlit("8");
        reveal_strlit("9");
    }
    let text = if value == 0 {
        "0"
    } else if value == 1 {
        "1"
    } else if value == 2 {
        "2"
    } else if value == 3 {
        "3"
    } else if value == 4 {
        "4"
    } else if value == 5 {
        "5"
    } else if value == 6 {
        "6"
    } else if value == 7 {
        "7"
    } else if value == 8 {
        "8"
    } else {
        "9"
    };
    assert(text@ =~= seq![digit(value as int)]);
    text
}

/// Writes a number in decimal notation.
pub fn decimal_string(value: u64) -> (text: String)
    ensures
        text@ == decimal(value as nat),
    decreases value,
{
    if value < 10 {
        digit_text(value).to_owned()
    } else {
        let mut text = decimal_string(value / 10);
        let last = digit_text(value % 10);
        text.append(last);
        assert(text@ =~= decimal(value as nat));
        text
    }
}

/// A number with a sign in decimal notation: a minus before the digits of
/// a negative number.
pub open spec fn signed_decimal(value: int) -> Seq<char> {
    if value < 0 {
        seq!['-'] + decimal((-value) as nat)
    } else {
        decimal(value as nat)
    }
}

/// Writes a number with a sign in decimal notation.
pub fn signed_decimal_string(value: i32) -> (text: String)
    ensures
        text@ == signed_decimal(value as int),
{
    if value < 0 {
        let magnitude: u64 = (0 - value as i64) as u64;
        let digits = decimal_string(magnitude);
        let mut text = "-".to_owned();
        proof {
            reveal_strlit("-");
        }
        text.append(digits.as_str());
        assert(text@ =~= signed_decimal(value as int));
        text
    } else {
        decimal_string(value as u64)
    }
}

/// Whether a character is one of the digits `0` to `9`.
pub open spec fn is_digit(symbol: char) -> bool {
    48 <= symbol as u32 <= 57
}

/// Whether a text holds digits only.
pub open spec fn all_digits(digits: Seq<char>) -> bool {
    forall|at: int| 0 <= at < digits.len() ==> is_digit(#[trigger] digits[at])
}

/// The number that a text of digits writes in decimal notation; zero for
/// the empty text.
pub open spec fn number(digits: Seq<char>) -> int
    decreases digits.len(),
{
    if digits.len() == 0 {
        0
    } else {
        10 * number(digits.drop_last()) + (digits.last() as u32 - 48)
    }
}

/// The number that a text writes: digits in decimal notation, after a
/// plus or a minus or nothing. `None` for a text without a digit, with
/// anything but digits behind the sign, or with a number beyond the range
/// of `i32`.
pub open spec fn parsed_i32(text: Seq<char>) -> Option<i32> {
    let signed = text.len() > 0 && (text[0] == '-' || text[0] == '+');
    let digits = if signed {
        text.drop_first()
    } else {
        text
    };
    let value = if signed && text[0] == '-' {
        -number(digits)
    } else {
        number(digits)
    };
    if digits.len() > 0 && all_digits(digits) && i32::MIN <= value <= i32::MAX {
        Some(value as i32)
    } else {
        None
    }
}

/// A text of digits writes a number that is at least the number that any
/// of its beginnings writes.
pub proof fn lemma_number_grows(digits: Seq<char>, length: int)
    requires
        all_digits(digits),
        0 <= length <= digits.len(),
    ensures
        0 <= number(digits.take(length)) <= number(digits),
    decreases digits.len() - length,
{
    if length == digits.len() {
        assert(digits.take(length) =~= digits);
        lemma_number_not_negative(digits);
    } else {
        lemma_number_grows(digits, length + 1);
        let longer = digits.take(length + 1);
        assert(longer.drop_last() =~= digits.take(length));
        assert(is_digit(digits[length]));
        assert(longer.last() == digits[length]);
        lemma_number_not_negative(digits.take(length));
    }
}

/// A text of digits writes no negative number.
pub proof fn lemma_number_not_negative(digits: Seq<char>)
    requires
        all_digits(digits),
    ensures
        0 <= number(digits),
    decreases digits.len(),
{
    if digits.len() > 0 {
        assert(is_digit(digits[digits.len() - 1]));
        lemma_number_not_negative(digits.drop_last());
    }
}

/// Reads a number in decimal notation, with or without a sign.
pub fn parse_i32(text: &str) -> (value: Option<i32>)
    ensures
        value == parsed_i32(text@),
{
    let length: usize = text.unicode_len();
    if length == 0 {
        return None;
    }
    let first = text.get_char(0);
    let signed = first == '-' || first == '+';
    let negative = first == '-';
    let start: usize = if signed {
        1
    } else {
        0
    };
    let ghost digits = if signed {
        text@.drop_first()
    } else {
        text@
    };
    if start == length {
        return None;
    }
    let mut total: i64 = 0;
    let mut at: usize = start;
    proof {
        assert(digits.take(0) =~= Seq::<char>::empty());
    }
    while at < length
        invariant
            start <= at <= length,
            0 < length == text@.len(),
            signed == (text@[0] == '-' || text@[0] == '+'),
            digits == if signed {
                text@.drop_first()
            } else {
                text@
            },
            digits.len() == length - start,
            forall|index: int| 0 <= index < digits.len() ==> digits[index] == text@[index + start],
            all_digits(digits.take(at - start)),
            total == number(digits.take(at - start)),
            0 <= total <= 2147483648,
        decreases length - at,
    {
        let symbol = text.get_char(at);
        let code: u32 = symbol as u32;
        assert(symbol == digits[at - start]);
        if code < 48 || code > 57 {
            assert(!is_digit(digits[at - start]));
            return None;
        }
        proof {
            let longer = digits.take(at - start + 1);
            assert(longer.drop_last() =~= digits.take(at - start));
            assert(longer.last() == symbol);
            assert forall|index: int| 0 <= index < longer.len() implies is_digit(
                #[trigger] longer[index],
            ) by {
                if index < at - start {
                    assert(longer[index] == digits.take(at - start)[index]);
                }
            }
        }
        total = total * 10 + (code as i64 - 48);
        if total > 2147483648 {
            proof {
                if all_digits(digits) {
                    lemma_number_grows(digits, at - start + 1);
                }
            }
            return None;
        }
        at = at + 1;
    }
    proof {
        assert(digits.take(at - start) =~= digits);
    }
    if negative {
        Some((0 - total) as i32)
    } else if total <= 2147483647 {
        Some(total as i32)
    } else {
        None
    }
}

/// The lines of a text: what stands between line feeds, each without the
/// carriage return that may end it. A text that ends in a line feed has no
/// empty line after it.
pub open spec fn lines_of(text: Seq<char>) -> Seq<Seq<char>> {
    let pieces = split_on(text, '\n');
    let ended = if pieces.last().len() == 0 {
        pieces.drop_last()
    } else {
        pieces
    };
    Seq::new(
        ended.len(),
        |at: int|
            if at < pieces.len() - 1 && ended[at].len() > 0 && ended[at].last() == '\r' {
                ended[at].drop_last()
            } else {
                ended[at]
            },
    )
}

/// Splits a text into its lines.
pub fn lines(text: &str) -> (found: Vec<String>)
    ensures
        found.deep_view() == lines_of(text@),
{
    let mut pieces = split(text, '\n');
    proof {
        lemma_split_nonempty(text@, '\n');
    }
    let ghost all = pieces.deep_view();
    let count: usize = pieces.len();
    if pieces[count - 1].as_str().unicode_len() == 0 {
        pieces.pop();
        assert(pieces.deep_view() =~= all.drop_last());
    }
    let ghost ended = pieces.deep_view();
    let mut found: Vec<String> = Vec::new();
    let mut at: usize = 0;
    while at < pieces.len()
        invariant
            at <= pieces.len(),
            ended == pieces.deep_view(),
            count == all.len(),
            found.len() == at,
            forall|index: int| 0 <= index < at ==> found.deep_view()[index] == lines_of(text@)[index],
            lines_of(text@).len() == ended.len(),
            all == split_on(text@, '\n'),
            ended == if all.last().len() == 0 {
                all.drop_last()
            } else {
                all
            },
        decreases pieces.len() - at,
    {
        let piece = pieces[at].as_str();
        assert(piece@ == ended[at as int]);
        let size: usize = piece.unicode_len();
        let ghost before = found.deep_view();
        if at + 1 < count && size > 0 && piece.get_char(size - 1) == '\r' {
            let line = piece.substring_char(0, size - 1).to_owned();
            assert(line@ =~= ended[at as int].drop_last());
            found.push(line);
        } else {
            found.push(piece.to_owned());
        }
        assert(found.deep_view()[at as int] == lines_of(text@)[at as int]);
        assert forall|index: int| 0 <= index < at + 1 implies found.deep_view()[index] == lines_of(
            text@,
        )[index] by {
            if index < at {
                assert(found.deep_view()[index] == before[index]);
            }
        }
        at = at + 1;
    }
    assert(found.deep_view() =~= lines_of(text@));
    found
}

/// The number of characters at the start of a text that are `symbol`.
pub open spec fn leading(text: Seq<char>, symbol: char) -> nat
    decreases text.len(),
{
    if text.len() > 0 && text[0] == symbol {
        1 + leading(text.drop_first(), symbol)
    } else {
        0
    }
}

/// The number of characters at the end of a text that are `symbol`.
pub open spec fn trailing(text: Seq<char>, symbol: char) -> nat
    decreases text.len(),
{
    if text.len() > 0 && text.last() == symbol {
        1 + trailing(text.drop_last(), symbol)
    } else {
        0
    }
}

/// The leading run of a symbol is where the first other character stands.
pub proof fn lemma_leading(text: Seq<char>, symbol: char, count: int)
    requires
        0 <= count <= text.len(),
        forall|at: int| 0 <= at < count ==> text[at] == symbol,
        count < text.len() ==> text[count] != symbol,
    ensures
        leading(text, symbol) == count,
    decreases text.len(),
{
    if count > 0 {
        let rest = text.drop_first();
        assert forall|at: int| 0 <= at < count - 1 implies rest[at] == symbol by {
            assert(rest[at] == text[at + 1]);
        }
        if count - 1 < rest.len() {
            assert(rest[count - 1] == text[count]);
        }
        lemma_leading(rest, symbol, count - 1);
    }
}

/// The trailing run of a symbol is where the last other character stands.
pub proof fn lemma_trailing(text: Seq<char>, symbol: char, count: int)
    requires
        0 <= count <= text.len(),
        forall|at: int| text.len() - count <= at < text.len() ==> text[at] == symbol,
        count < text.len() ==> text[text.len() - count - 1] != symbol,
    ensures
        trailing(text, symbol) == count,
    decreases text.len(),
{
    if count > 0 {
        let rest = text.drop_last();
        assert forall|at: int| rest.len() - (count - 1) <= at < rest.len() implies rest[at]
            == symbol by {
            assert(rest[at] == text[at]);
        }
        if count - 1 < rest.len() {
            assert(rest[rest.len() - (count - 1) - 1] == text[text.len() - count - 1]);
        }
        lemma_trailing(rest, symbol, count - 1);
    }
}

/// Takes every `symbol` off the start of a text.
pub fn trim_start(text: &str, symbol: char) -> (rest: String)
    ensures
        rest@ == text@.skip(leading(text@, symbol) as int),
{
    let length: usize = text.unicode_len();
    let mut count: usize = 0;
    while count < length && text.get_char(count) == symbol
        invariant
            count <= length,
            length == text@.len(),
            forall|at: int| 0 <= at < count ==> text@[at] == symbol,
        decreases length - count,
    {
        count = count + 1;
    }
    proof {
        lemma_leading(text@, symbol, count as int);
    }
    text.substring_char(count, length).to_owned()
}

/// Takes every `symbol` off the end of a text.
pub fn trim_end(text: &str, symbol: char) -> (rest: String)
    ensures
        rest@ == text@.take(text@.len() - trailing(text@, symbol)),
{
    let length: usize = text.unicode_len();
    let mut end: usize = length;
    while end > 0 && text.get_char(end - 1) == symbol
        invariant
            end <= length,
            length == text@.len(),
            forall|at: int| end <= at < length ==> text@[at] == symbol,
        decreases end,
    {
        end = end - 1;
    }
    proof {
        lemma_trailing(text@, symbol, length - end);
    }
    text.substring_char(0, end).to_owned()
}

/// Whether a text begins with another.
pub open spec fn begins_with(text: Seq<char>, start: Seq<char>) -> bool {
    start.len() <= text.len() && text.take(start.len() as int) == start
}

/// A text without the repetitions of `start` that it begins with. An empty
/// `start` takes nothing off.
pub open spec fn without_start(text: Seq<char>, start: Seq<char>) -> Seq<char>
    decreases text.len(),
{
    if start.len() > 0 && begins_with(text, start) {
        without_start(text.skip(start.len() as int), start)
    } else {
        text
    }
}

/// Whether `text`, from the position `from` on, goes on with `start`.
fn goes_on_with(text: &str, from: usize, start: &str) -> (found: bool)
    requires
        from <= text@.len(),
    ensures
        found == begins_with(text@.skip(from as int), start@),
{
    let length: usize = text.unicode_len();
    let size: usize = start.unicode_len();
    if size > length - from {
        return false;
    }
    let ghost rest = text@.skip(from as int);
    let mut at: usize = 0;
    while at < size
        invariant
            at <= size,
            size == start@.len(),
            length == text@.len(),
            from <= length,
            size <= length - from,
            rest == text@.skip(from as int),
            forall|index: int| 0 <= index < at ==> rest[index] == start@[index],
        decreases size - at,
    {
        if text.get_char(from + at) != start.get_char(at) {
            assert(rest.take(size as int)[at as int] != start@[at as int]);
            return false;
        }
        at = at + 1;
    }
    assert(rest.take(size as int) =~= start@);
    true
}

/// Takes every repetition of `start` off the start of a text.
pub fn trim_start_matches(text: &str, start: &str) -> (rest: String)
    ensures
        rest@ == without_start(text@, start@),
{
    let length: usize = text.unicode_len();
    let size: usize = start.unicode_len();
    let mut from: usize = 0;
    if size > 0 {
        proof {
            assert(text@.skip(0) =~= text@);
        }
        while goes_on_with(text, from, start)
            invariant
                from <= length,
                length == text@.len(),
                0 < size == start@.len(),
                without_start(text@, start@) == without_start(text@.skip(from as int), start@),
            decreases length - from,
        {
            proof {
                assert(text@.skip(from as int).skip(size as int) =~= text@.skip(from + size));
            }
            from = from + size;
        }
    }
    text.substring_char(from, length).to_owned()
}

/// A text without the occurrences of `part`, found from the left and not
/// overlapping. An empty `part` takes nothing out.
pub open spec fn without_all(text: Seq<char>, part: Seq<char>) -> Seq<char>
    decreases text.len(),
{
    if part.len() == 0 || text.len() == 0 {
        text
    } else if begins_with(text, part) {
        without_all(text.skip(part.len() as int), part)
    } else {
        seq![text[0]] + without_all(text.drop_first(), part)
    }
}

/// Takes every occurrence of `part` out of a text.
pub fn remove_all(text: &str, part: &str) -> (rest: String)
    ensures
        rest@ == without_all(text@, part@),
{
    let length: usize = text.unicode_len();
    let size: usize = part.unicode_len();
    if size == 0 {
        return text.to_owned();
    }
    let mut rest = String::new();
    let mut at: usize = 0;
    proof {
        assert(text@.skip(0) =~= text@);
    }
    while at < length
        invariant
            at <= length,
            length == text@.len(),
            0 < size == part@.len(),
            rest@ + without_all(text@.skip(at as int), part@) == without_all(text@, part@),
        decreases length - at,
    {
        let ghost left = text@.skip(at as int);
        if goes_on_with(text, at, part) {
            proof {
                assert(left.skip(size as int) =~= text@.skip(at + size));
            }
            at = at + size;
        } else {
            let ghost kept = rest@;
            rest.append(text.substring_char(at, at + 1));
            proof {
                assert(left.drop_first() =~= text@.skip(at + 1));
                assert(text@.subrange(at as int, at + 1) =~= seq![left[0]]);
                assert(rest@ + without_all(text@.skip(at + 1), part@) =~= kept + (seq![left[0]]
                    + without_all(left.drop_first(), part@)));
            }
            at = at + 1;
        }
    }
    proof {
        assert(text@.skip(length as int) =~= Seq::<char>::empty());
        assert(rest@ + Seq::<char>::empty() =~= rest@);
    }
    rest
}

/// A letter of the Latin alphabet in lower case; any other character as it
/// is.
pub open spec fn lowered(symbol: char) -> char {
    if 65 <= symbol as u32 <= 90 {
        ((symbol as u32 + 32) as u8) as char
    } else {
        symbol
    }
}

/// Whether two texts are the same but for the case of the letters of the
/// Latin alphabet.
pub open spec fn same_but_for_case(left: Seq<char>, right: Seq<char>) -> bool {
    &&& left.len() == right.len()
    &&& forall|at: int| 0 <= at < left.len() ==> lowered(#[trigger] left[at]) == lowered(right[at])
}

/// A character with a letter of the Latin alphabet in lower case.
fn lower(symbol: char) -> (low: char)
    ensures
        low == lowered(symbol),
{
    let code: u32 = symbol as u32;
    if 65 <= code && code <= 90 {
        ((code + 32) as u8) as char
    } else {
        symbol
    }
}

/// Whether two texts are the same but for the case of the letters of the
/// Latin alphabet.
pub fn eq_ignore_ascii_case(left: &str, right: &str) -> (same: bool)
    ensures
        same == same_but_for_case(left@, right@),
{
    let length: usize = left.unicode_len();
    if length != right.unicode_len() {
        return false;
    }
    let mut at: usize = 0;
    while at < length
        invariant
            at <= length,
            length == left@.len(),
            length == right@.len(),
            forall|index: int| 0 <= index < at ==> lowered(#[trigger] left@[index]) == lowered(right@[index]),
        decreases length - at,
    {
        if lower(left.get_char(at)) != lower(right.get_char(at)) {
            return false;
        }
        at = at + 1;
    }
    true
}

/// Splits a text at the first occurrence of `separator`: what stands
/// before it and what stands after it. None for a text without one.
pub open spec fn split_once_on(text: Seq<char>, separator: char) -> Option<(Seq<char>, Seq<char>)> {
    match text.index_of_first(separator) {
        Some(at) => Some((text.take(at), text.skip(at + 1))),
        None => None,
    }
}

/// Splits a text at the first occurrence of `separator`.
pub fn split_once(text: &str, separator: char) -> (halves: Option<(String, String)>)
    ensures
        halves.deep_view() == split_once_on(text@, separator),
{
    let length: usize = text.unicode_len();
    let mut at: usize = 0;
    proof {
        text@.index_of_first_ensures(separator);
    }
    while at < length
        invariant
            at <= length,
            length == text@.len(),
            forall|before: int| 0 <= before < at ==> text@[before] != separator,
        decreases length - at,
    {
        if text.get_char(at) == separator {
            proof {
                text@.index_of_first_ensures(separator);
                assert(text@.contains(separator));
            }
            let before = text.substring_char(0, at).to_owned();
            let after = text.substring_char(at + 1, length).to_owned();
            return Some((before, after));
        }
        at = at + 1;
    }
    proof {
        text@.index_of_first_ensures(separator);
    }
    None
}

/// `String::from_utf8`: the text that the bytes encode, and `None` for bytes
/// that are no UTF-8.
#[verifier::external_body]
pub(crate) fn text_of(bytes: Vec<u8>) -> (text: Option<String>)
    ensures
        text is Some == valid_utf8(bytes@),
        text matches Some(text) ==> text@ == decode_utf8(bytes@),
{
    String::from_utf8(bytes).ok()
}

} // verus!
