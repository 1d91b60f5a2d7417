//! The ledger of high scores: the best scores and the best line counts,
//! how a finished game enters them, and the text they are kept as.

use vstd::prelude::*;
use vstd::string::*;
use vstd::utf8::is_ascii_chars;

verus! {

/// How many entries each list of the ledger holds at most.
pub const NB_HIGHSCORES: usize = 5;

/// Whether the entries go from the lowest to the highest.
pub open spec fn ascending(list: Seq<u32>) -> bool {
    forall|i: int, j: int| 0 <= i <= j < list.len() ==> list[i] <= list[j]
}

/// A list of the ledger: at most `NB_HIGHSCORES` entries, ascending.
pub open spec fn valid_list(list: Seq<u32>) -> bool {
    list.len() <= NB_HIGHSCORES && ascending(list)
}

/// How many entries of the list are at most `value`.
pub open spec fn count_at_most(list: Seq<u32>, value: u32) -> nat
    decreases list.len(),
{
    if list.len() == 0 {
        0
    } else {
        count_at_most(list.drop_last(), value) + if list.last() <= value {
            1nat
        } else {
            0nat
        }
    }
}

/// The list with `value` added behind the entries that are at most `value`:
/// for an ascending list, the ascending list with one more entry.
pub open spec fn inserted(list: Seq<u32>, value: u32) -> Seq<u32> {
    list.insert(count_at_most(list, value) as int, value)
}

/// Whether `value` enters the list: always while the list is not full, and
/// into a full list only if it is strictly above the lowest entry.
pub open spec fn is_new_high(list: Seq<u32>, value: u32) -> bool {
    list.len() < NB_HIGHSCORES || value > list[0]
}

/// The list after `value` was offered to it. A list that is not full takes
/// the value in. A full list gives up its lowest entry for a value strictly
/// above it, and is unchanged otherwise.
pub open spec fn updated(list: Seq<u32>, value: u32) -> Seq<u32> {
    if list.len() < NB_HIGHSCORES {
        inserted(list, value)
    } else if value > list[0] {
        inserted(list.drop_first(), value)
    } else {
        list
    }
}

/// In an ascending list whose first `at` entries are at most `value` and
/// whose other entries are above it, `at` entries are at most `value`.
proof fn lemma_count_at_most(list: Seq<u32>, value: u32, at: int)
    requires
        0 <= at <= list.len(),
        forall|i: int| 0 <= i < at ==> list[i] <= value,
        forall|i: int| at <= i < list.len() ==> list[i] > value,
    ensures
        count_at_most(list, value) == at,
    decreases list.len(),
{
    if list.len() > 0 {
        let rest = list.drop_last();
        if at == list.len() {
            lemma_count_at_most(rest, value, at - 1);
        } else {
            lemma_count_at_most(rest, value, at);
        }
    }
}

/// The number of entries at most `value` is no more than the length, and in
/// an ascending list those entries are the first ones.
proof fn lemma_count_splits(list: Seq<u32>, value: u32)
    requires
        ascending(list),
    ensures
        count_at_most(list, value) <= list.len(),
        forall|i: int| 0 <= i < count_at_most(list, value) ==> list[i] <= value,
        forall|i: int| count_at_most(list, value) <= i < list.len() ==> list[i] > value,
    decreases list.len(),
{
    if list.len() > 0 {
        let rest = list.drop_last();
        assert(ascending(rest));
        lemma_count_splits(rest, value);
        if list.last() <= value {
            assert forall|i: int| 0 <= i < rest.len() implies rest[i] <= value by {
                assert(list[i] <= list[list.len() - 1]);
            }
            lemma_count_at_most(rest, value, rest.len() as int);
            assert forall|i: int| 0 <= i < list.len() implies list[i] <= value by {
                assert(list[i] <= list[list.len() - 1]);
            }
        } else {
            let k = count_at_most(rest, value);
            assert forall|i: int| 0 <= i < k implies list[i] <= value by {
                assert(rest[i] <= value);
            }
            assert forall|i: int| k <= i < list.len() implies list[i] > value by {
                if i < rest.len() {
                    assert(rest[i] > value);
                }
            }
        }
    }
}

/// Inserting into an ascending list gives an ascending list that holds the
/// same entries and the new value, and nothing else.
pub proof fn lemma_inserted_ascending(list: Seq<u32>, value: u32)
    requires
        ascending(list),
    ensures
        ascending(inserted(list, value)),
        inserted(list, value).len() == list.len() + 1,
        inserted(list, value).to_multiset() == list.to_multiset().insert(value),
{
    lemma_count_splits(list, value);
    let at = count_at_most(list, value) as int;
    let result = inserted(list, value);
    assert forall|i: int, j: int| 0 <= i <= j < result.len() implies result[i] <= result[j] by {
        if i < at && j > at {
            assert(list[i] <= value && value < list[j - 1]);
        }
    }
    vstd::seq_lib::to_multiset_insert(list, at, value);
}

/// Offering a value to a list of the ledger leaves a list of the ledger.
/// When the value enters a full list, the entry that leaves is the lowest:
/// the new list holds the old entries but one copy of the lowest, and the
/// value.
pub proof fn lemma_updated_valid(list: Seq<u32>, value: u32)
    requires
        valid_list(list),
    ensures
        valid_list(updated(list, value)),
        !is_new_high(list, value) ==> updated(list, value) == list,
        list.len() < NB_HIGHSCORES ==> updated(list, value).to_multiset()
            == list.to_multiset().insert(value),
        list.len() == NB_HIGHSCORES && value > list[0] ==> {
            &&& forall|i: int| 0 <= i < list.len() ==> list[0] <= #[trigger] list[i]
            &&& updated(list, value).to_multiset() == list.to_multiset().remove(list[0]).insert(
                value,
            )
        },
{
    if list.len() < NB_HIGHSCORES {
        lemma_inserted_ascending(list, value);
    } else if value > list[0] {
        let rest = list.drop_first();
        assert(ascending(rest)) by {
            assert forall|i: int, j: int| 0 <= i <= j < rest.len() implies rest[i] <= rest[j] by {
                assert(list[i + 1] <= list[j + 1]);
            }
        }
        lemma_inserted_ascending(rest, value);
        assert(list =~= seq![list[0]] + rest);
        vstd::seq_lib::to_multiset_insert(rest, 0, list[0]);
        assert(rest.insert(0, list[0]) =~= list);
        assert(rest.to_multiset() =~= list.to_multiset().remove(list[0]));
    }
}

/// Adds `value` to an ascending list, keeping it ascending.
fn insert_ascending(v: &mut Vec<u32>, value: u32)
    requires
        ascending(old(v)@),
    ensures
        final(v)@ == inserted(old(v)@, value),
{
    let mut at: usize = 0;
    while at < v.len() && v[at] <= value
        invariant
            at <= v.len(),
            *v == *old(v),
            forall|i: int| 0 <= i < at ==> v@[i] <= value,
        decreases v.len() - at,
    {
        at += 1;
    }
    proof {
        assert forall|i: int| at <= i < v@.len() implies v@[i] > value by {
            assert(v@[at as int] <= v@[i]);
        }
        lemma_count_at_most(v@, value, at as int);
    }
    v.insert(at, value);
}

/// Offers `value` to a list of the ledger and says whether it entered: a new
/// high. A list that is not full always takes the value. A full list takes
/// it only if it is strictly above the lowest entry, which then leaves; a
/// value equal to the lowest entry is no new high.
pub fn update_vec(v: &mut Vec<u32>, value: u32) -> (new_high: bool)
    requires
        valid_list(old(v)@),
    ensures
        new_high == is_new_high(old(v)@, value),
        final(v)@ == updated(old(v)@, value),
        valid_list(final(v)@),
{
    proof {
        lemma_updated_valid(v@, value);
    }
    if v.len() < NB_HIGHSCORES {
        insert_ascending(v, value);
        true
    } else if value > v[0] {
        v.remove(0);
        assert(v@ =~= old(v)@.drop_first());
        assert(ascending(v@)) by {
            assert forall|i: int, j: int| 0 <= i <= j < v@.len() implies v@[i] <= v@[j] by {
                assert(old(v)@[i + 1] <= old(v)@[j + 1]);
            }
        }
        insert_ascending(v, value);
        true
    } else {
        false
    }
}

/// The character of a decimal digit.
pub open spec fn digit_char(digit: int) -> char {
    ((48 + digit) as u8) as char
}

/// A number written in decimal digits, without sign and with no zero in
/// front.
pub open spec fn decimal(number: nat) -> Seq<char>
    decreases number,
{
    if number < 10 {
        seq![digit_char(number as int)]
    } else {
        decimal(number / 10).push(digit_char((number % 10) as int))
    }
}

/// The entries of a list written in decimal, one space between two of them.
pub open spec fn joined(list: Seq<u32>) -> Seq<char>
    decreases list.len(),
{
    if list.len() == 0 {
        Seq::empty()
    } else if list.len() == 1 {
        decimal(list[0] as nat)
    } else {
        joined(list.drop_last()) + seq![' '] + decimal(list.last() as nat)
    }
}

/// The text that holds a ledger: the scores on one line, the line counts on
/// the next, each line ended by a newline.
pub open spec fn ledger_text(highscores: Seq<u32>, number_of_lines: Seq<u32>) -> Seq<char> {
    joined(highscores) + seq!['\n'] + joined(number_of_lines) + seq!['\n']
}

/// The one-character string of a decimal digit.
fn digit_str(digit: u8) -> (text: &'static str)
    requires
        digit < 10,
    ensures
        text@ == seq![digit_char(digit as int)],
{
    proof {
        reveal_strlit("0");
        reveal_strlit("1");
        reveal_strlit("2");
        reveal_strlit("3");
        reveal_strlit("4");
        reveal_strlit("5");
        reveal_strlit("6");
        reveal_strlit("7");
        reveal_strlit("8");
        reveal_strlit("9");
    }
    let text = match digit {
        0 => "0",
        1 => "1",
        2 => "2",
        3 => "3",
        4 => "4",
        5 => "5",
        6 => "6",
        7 => "7",
        8 => "8",
        _ => "9",
    };
    assert(text@ =~= seq![digit_char(digit as int)]);
    text
}

/// Writes a number in decimal at the end of `out`.
fn push_decimal(out: &mut String, number: u32)
    ensures
        final(out)@ == old(out)@ + decimal(number as nat),
    decreases number,
{
    if number >= 10 {
        push_decimal(out, number / 10);
    }
    out.append(digit_str((number % 10) as u8));
    assert(out@ =~= old(out)@ + decimal(number as nat));
}

/// Writes the entries of a list in decimal, one space between two of them.
pub fn slice_to_string(slice: &[u32]) -> (text: String)
    ensures
        text@ == joined(slice@),
{
    let mut text = String::new();
    let mut i: usize = 0;
    while i < slice.len()
        invariant
            i <= slice.len(),
            text@ == joined(slice@.take(i as int)),
        decreases slice.len() - i,
    {
        proof {
            reveal_strlit(" ");
            assert(slice@.take(i + 1).drop_last() =~= slice@.take(i as int));
        }
        if i > 0 {
            text.append(" ");
        }
        push_decimal(&mut text, slice[i]);
        assert(text@ =~= joined(slice@.take(i + 1)));
        i += 1;
    }
    assert(slice@.take(slice.len() as int) =~= slice@);
    text
}

/// The text under which the two lists of a ledger are saved.
pub fn save_highscores_and_lines(highscores: &[u32], number_of_lines: &[u32]) -> (text: String)
    ensures
        text@ == ledger_text(highscores@, number_of_lines@),
{
    proof {
        reveal_strlit("\n");
    }
    let mut text = slice_to_string(highscores);
    text.append("\n");
    let lines = slice_to_string(number_of_lines);
    text.append(lines.as_str());
    text.append("\n");
    assert(text@ =~= ledger_text(highscores@, number_of_lines@));
    text
}

/// The pieces of a text between the occurrences of a separator, in order:
/// one piece more than there are separators, empty pieces included.
pub open spec fn split(text: Seq<char>, separator: char) -> Seq<Seq<char>>
    decreases text.len(),
{
    if text.len() == 0 {
        seq![Seq::empty()]
    } else {
        let before = split(text.drop_last(), separator);
        if text.last() == separator {
            before.push(Seq::empty())
        } else {
            before.drop_last().push(before.last().push(text.last()))
        }
    }
}

/// Whether the character is a decimal digit.
pub open spec fn is_digit(c: char) -> bool {
    '0' <= c <= '9'
}

/// Whether the text is made of decimal digits only.
pub open spec fn all_digits(text: Seq<char>) -> bool {
    forall|i: int| 0 <= i < text.len() ==> is_digit(#[trigger] text[i])
}

/// The number that a run of decimal digits spells.
pub open spec fn digits_value(digits: Seq<char>) -> nat
    decreases digits.len(),
{
    if digits.len() == 0 {
        0
    } else {
        digits_value(digits.drop_last()) * 10 + (digits.last() as u8 - 48) as nat
    }
}

/// The number that a token spells: one or more decimal digits, with or
/// without a `+` in front, whose value fits 32 bits. Anything else spells no
/// number.
pub open spec fn number_of(token: Seq<char>) -> Option<u32> {
    let digits = if token.len() > 0 && token[0] == '+' {
        token.drop_first()
    } else {
        token
    };
    if digits.len() > 0 && all_digits(digits) && digits_value(digits) <= u32::MAX {
        Some(digits_value(digits) as u32)
    } else {
        None
    }
}

/// The numbers that the tokens spell, if each of them spells one.
pub open spec fn numbers_of(tokens: Seq<Seq<char>>) -> Option<Seq<u32>> {
    if forall|k: int| 0 <= k < tokens.len() ==> (#[trigger] number_of(tokens[k])) is Some {
        Some(Seq::new(tokens.len(), |k: int| number_of(tokens[k])->0))
    } else {
        None
    }
}

/// The list that a line of the ledger holds: the empty list for an empty
/// line, else the numbers between the single spaces of the line, which must
/// form a list of the ledger. A line of any other make holds no list.
pub open spec fn list_of_line(line: Seq<char>) -> Option<Seq<u32>> {
    if line.len() == 0 {
        Some(Seq::empty())
    } else {
        match numbers_of(split(line, ' ')) {
            Some(list) => if valid_list(list) {
                Some(list)
            } else {
                None
            },
            None => None,
        }
    }
}

/// The ledger that a text holds: the scores of its first line and the line
/// counts of its second. The text must have exactly these two lines, the
/// second ended by a newline or by the end of the text, and each must hold a
/// list. Any other text holds no ledger.
pub open spec fn ledger_of_text(text: Seq<char>) -> Option<(Seq<u32>, Seq<u32>)> {
    let lines = split(text, '\n');
    if lines.len() == 2 || (lines.len() == 3 && lines[2].len() == 0) {
        match (list_of_line(lines[0]), list_of_line(lines[1])) {
            (Some(highscores), Some(number_of_lines)) => Some((highscores, number_of_lines)),
            _ => None,
        }
    } else {
        None
    }
}

/// A text always splits into at least one piece.
proof fn lemma_split_len(text: Seq<char>, separator: char)
    ensures
        split(text, separator).len() >= 1,
    decreases text.len(),
{
    if text.len() > 0 {
        lemma_split_len(text.drop_last(), separator);
    }
}

/// The digits read so far never spell more than all of them.
proof fn lemma_digits_value_grows(digits: Seq<char>, k: int)
    requires
        0 <= k <= digits.len(),
    ensures
        digits_value(digits.take(k)) <= digits_value(digits),
    decreases digits.len() - k,
{
    if k < digits.len() {
        lemma_digits_value_grows(digits, k + 1);
        assert(digits.take(k + 1).drop_last() =~= digits.take(k));
    } else {
        assert(digits.take(k) =~= digits);
    }
}

/// Splitting a text made of two parts with a separator between them gives
/// the pieces of the first part and then the pieces of the second.
proof fn lemma_split_concat(left: Seq<char>, right: Seq<char>, separator: char)
    ensures
        split(left + seq![separator] + right, separator) == split(left, separator) + split(
            right,
            separator,
        ),
    decreases right.len(),
{
    let whole = left + seq![separator] + right;
    if right.len() == 0 {
        assert(whole.drop_last() =~= left);
        assert(split(whole, separator) =~= split(left, separator) + split(right, separator));
    } else {
        let shorter = right.drop_last();
        assert(whole.drop_last() =~= left + seq![separator] + shorter);
        lemma_split_concat(left, shorter, separator);
        lemma_split_len(shorter, separator);
        assert(split(whole, separator) =~= split(left, separator) + split(right, separator));
    }
}

/// A text without the separator is one piece.
proof fn lemma_split_single(text: Seq<char>, separator: char)
    requires
        forall|i: int| 0 <= i < text.len() ==> text[i] != separator,
    ensures
        split(text, separator) == seq![text],
    decreases text.len(),
{
    if text.len() > 0 {
        lemma_split_single(text.drop_last(), separator);
        assert(text.drop_last().push(text.last()) =~= text);
        assert(split(text, separator) =~= seq![text]);
    } else {
        assert(text =~= Seq::<char>::empty());
    }
}

/// A number written in decimal is a run of digits that spells the number.
pub proof fn lemma_decimal_spells(number: nat)
    ensures
        decimal(number).len() > 0,
        all_digits(decimal(number)),
        digits_value(decimal(number)) == number,
        number <= u32::MAX ==> number_of(decimal(number)) == Some(number as u32),
    decreases number,
{
    let text = decimal(number);
    if number < 10 {
        assert(text.drop_last() =~= Seq::<char>::empty());
        assert(digits_value(text.drop_last()) == 0);
    } else {
        lemma_decimal_spells(number / 10);
        assert(text.drop_last() =~= decimal(number / 10));
        assert forall|i: int| 0 <= i < text.len() implies is_digit(#[trigger] text[i]) by {
            if i < text.len() - 1 {
                assert(text[i] == decimal(number / 10)[i]);
            }
        }
    }
    assert(is_digit(text[0]));
}

/// The texts of the entries of a list.
spec fn decimals(list: Seq<u32>) -> Seq<Seq<char>> {
    Seq::new(list.len(), |i: int| decimal(list[i] as nat))
}

/// A list written out holds digits and spaces only, and between its spaces
/// stand the texts of its entries.
proof fn lemma_joined_splits(list: Seq<u32>)
    ensures
        forall|i: int|
            0 <= i < joined(list).len() ==> is_digit(#[trigger] joined(list)[i]) || joined(list)[i]
                == ' ',
        list.len() > 0 ==> joined(list).len() > 0 && split(joined(list), ' ') == decimals(list),
    decreases list.len(),
{
    if list.len() == 1 {
        lemma_decimal_spells(list[0] as nat);
        lemma_split_single(joined(list), ' ');
        assert(split(joined(list), ' ') =~= decimals(list));
    } else if list.len() > 1 {
        let front = list.drop_last();
        let text = decimal(list.last() as nat);
        lemma_joined_splits(front);
        lemma_decimal_spells(list.last() as nat);
        lemma_split_single(text, ' ');
        lemma_split_concat(joined(front), text, ' ');
        assert(split(joined(list), ' ') =~= decimals(list));
        assert forall|i: int| 0 <= i < joined(list).len() implies is_digit(
            #[trigger] joined(list)[i],
        ) || joined(list)[i] == ' ' by {
            if i < joined(front).len() {
                assert(joined(list)[i] == joined(front)[i]);
            } else if i > joined(front).len() {
                assert(joined(list)[i] == text[i - joined(front).len() - 1]);
            }
        }
    }
}

/// A line written from a list of the ledger holds that list.
pub proof fn lemma_line_round_trip(list: Seq<u32>)
    requires
        valid_list(list),
    ensures
        list_of_line(joined(list)) == Some(list),
{
    lemma_joined_splits(list);
    if list.len() > 0 {
        let tokens = decimals(list);
        assert forall|k: int| 0 <= k < tokens.len() implies number_of(#[trigger] tokens[k])
            == Some(list[k]) by {
            lemma_decimal_spells(list[k] as nat);
        }
        assert(numbers_of(tokens) is Some);
        assert(numbers_of(tokens)->0 =~= list);
    } else {
        assert(list =~= Seq::<u32>::empty());
    }
}

/// Saving and loading agree: the text written from two lists of the ledger
/// holds exactly these two lists.
pub proof fn lemma_ledger_round_trip(highscores: Seq<u32>, number_of_lines: Seq<u32>)
    requires
        valid_list(highscores),
        valid_list(number_of_lines),
    ensures
        ledger_of_text(ledger_text(highscores, number_of_lines)) == Some(
            (highscores, number_of_lines),
        ),
{
    let first = joined(highscores);
    let second = joined(number_of_lines);
    let text = ledger_text(highscores, number_of_lines);
    let empty = Seq::<char>::empty();
    lemma_joined_splits(highscores);
    lemma_joined_splits(number_of_lines);
    lemma_split_single(first, '\n');
    lemma_split_single(second, '\n');
    assert(text =~= first + seq!['\n'] + (second + seq!['\n'] + empty));
    lemma_split_concat(first, second + seq!['\n'] + empty, '\n');
    lemma_split_concat(second, empty, '\n');
    assert(split(empty, '\n') =~= seq![empty]);
    assert(split(text, '\n') =~= seq![first, second, empty]);
    lemma_line_round_trip(highscores);
    lemma_line_round_trip(number_of_lines);
}

/// The positions of the pieces of `text[from..to)` between the occurrences
/// of a separator.
fn split_ranges(text: &str, from: usize, to: usize, separator: u8) -> (ranges: Vec<(usize, usize)>)
    requires
        text.is_ascii(),
        from <= to <= text@.len(),
        separator < 128,
    ensures
        ranges@.len() == split(text@.subrange(from as int, to as int), separator as char).len(),
        forall|k: int|
            0 <= k < ranges@.len() ==> {
                &&& from <= (#[trigger] ranges@[k]).0 <= ranges@[k].1 <= to
                &&& text@.subrange(ranges@[k].0 as int, ranges@[k].1 as int) == split(
                    text@.subrange(from as int, to as int),
                    separator as char,
                )[k]
            },
{
    let mut ranges: Vec<(usize, usize)> = Vec::new();
    let mut start: usize = from;
    let mut i: usize = from;
    assert(text@.subrange(from as int, from as int) =~= Seq::<char>::empty());
    while i < to
        invariant
            text.is_ascii(),
            from <= start <= i <= to <= text@.len(),
            separator < 128,
            ranges@.len() + 1 == split(
                text@.subrange(from as int, i as int),
                separator as char,
            ).len(),
            forall|k: int|
                0 <= k < ranges@.len() ==> {
                    &&& from <= (#[trigger] ranges@[k]).0 <= ranges@[k].1 <= to
                    &&& text@.subrange(ranges@[k].0 as int, ranges@[k].1 as int) == split(
                        text@.subrange(from as int, i as int),
                        separator as char,
                    )[k]
                },
            text@.subrange(start as int, i as int) == split(
                text@.subrange(from as int, i as int),
                separator as char,
            ).last(),
        decreases to - i,
    {
        let ghost read = text@.subrange(from as int, i as int);
        let ghost next = text@.subrange(from as int, i + 1);
        proof {
            assert(next.drop_last() =~= read);
            assert(next.last() == text@[i as int]);
        }
        let byte = text.get_ascii(i);
        if byte == separator {
            ranges.push((start, i));
            start = i + 1;
            assert(text@.subrange(start as int, start as int) =~= Seq::<char>::empty());
        } else {
            assert(text@.subrange(start as int, i + 1) =~= text@.subrange(
                start as int,
                i as int,
            ).push(text@[i as int]));
        }
        i += 1;
    }
    ranges.push((start, to));
    ranges
}

/// Reads the number that `text[from..to)` spells.
#[verifier::loop_isolation(false)]
fn parse_number(text: &str, from: usize, to: usize) -> (number: Option<u32>)
    requires
        text.is_ascii(),
        from <= to <= text@.len(),
    ensures
        number == number_of(text@.subrange(from as int, to as int)),
{
    let ghost token = text@.subrange(from as int, to as int);
    let mut start: usize = from;
    if from < to && text.get_ascii(from) == 43 {
        start = from + 1;
    }
    let ghost digits = text@.subrange(start as int, to as int);
    assert(digits =~= if token.len() > 0 && token[0] == '+' {
        token.drop_first()
    } else {
        token
    });
    if start == to {
        return None;
    }
    let mut value: u64 = 0;
    let mut i: usize = start;
    assert(digits.take(0) =~= Seq::<char>::empty());
    while i < to
        invariant
            text.is_ascii(),
            start <= i <= to <= text@.len(),
            digits == text@.subrange(start as int, to as int),
            all_digits(digits.take(i - start)),
            value == digits_value(digits.take(i - start)),
            value <= u32::MAX,
        decreases to - i,
    {
        let byte = text.get_ascii(i);
        assert(digits[i - start] == text@[i as int]);
        if byte < 48 || byte > 57 {
            assert(!is_digit(digits[i - start]));
            return None;
        }
        proof {
            assert(digits.take(i - start + 1).drop_last() =~= digits.take(i - start));
            assert(digits.take(i - start + 1).last() == digits[i - start]);
        }
        value = value * 10 + (byte - 48) as u64;
        if value > u32::MAX as u64 {
            proof {
                lemma_digits_value_grows(digits, i - start + 1);
            }
            return None;
        }
        i += 1;
    }
    assert(digits.take(to - start) =~= digits);
    Some(value as u32)
}

/// Reads the list that the line `text[from..to)` holds.
#[verifier::loop_isolation(false)]
fn parse_line(text: &str, from: usize, to: usize) -> (list: Option<Vec<u32>>)
    requires
        text.is_ascii(),
        from <= to <= text@.len(),
    ensures
        match list {
            Some(v) => list_of_line(text@.subrange(from as int, to as int)) == Some(v@),
            None => list_of_line(text@.subrange(from as int, to as int)) is None,
        },
{
    let ghost line = text@.subrange(from as int, to as int);
    let mut list: Vec<u32> = Vec::new();
    if from == to {
        assert(list@ =~= Seq::<u32>::empty());
        return Some(list);
    }
    let ranges = split_ranges(text, from, to, 32);
    let ghost tokens = split(line, ' ');
    if ranges.len() > NB_HIGHSCORES {
        return None;
    }
    let mut k: usize = 0;
    while k < ranges.len()
        invariant
            text.is_ascii(),
            k <= ranges@.len() == tokens.len(),
            tokens == split(line, ' '),
            forall|j: int|
                0 <= j < ranges@.len() ==> {
                    &&& (#[trigger] ranges@[j]).0 <= ranges@[j].1 <= text@.len()
                    &&& text@.subrange(ranges@[j].0 as int, ranges@[j].1 as int) == tokens[j]
                },
            list@.len() == k,
            forall|j: int| 0 <= j < k ==> number_of(tokens[j]) == Some(#[trigger] list@[j]),
            ascending(list@),
        decreases ranges@.len() - k,
    {
        let (a, b) = ranges[k];
        match parse_number(text, a, b) {
            None => {
                assert(number_of(tokens[k as int]) is None);
                return None;
            },
            Some(number) => {
                if k > 0 && list[k - 1] > number {
                    proof {
                        if numbers_of(tokens) is Some {
                            let all = numbers_of(tokens)->0;
                            assert(number_of(tokens[k - 1]) == Some(list@[k - 1]));
                            assert(all[k - 1] == list@[k - 1]);
                            assert(number_of(tokens[k as int]) == Some(number));
                            assert(all[k as int] == number);
                            assert(!ascending(all));
                        }
                    }
                    return None;
                }
                let ghost before = list@;
                list.push(number);
                assert(ascending(list@)) by {
                    assert forall|i: int, j: int| 0 <= i <= j < list@.len() implies list@[i]
                        <= list@[j] by {
                        if j == k && i < k {
                            assert(before[i] <= before[k - 1]);
                        }
                    }
                }
            },
        }
        k += 1;
    }
    assert(numbers_of(tokens) == Some(list@)) by {
        assert forall|j: int| 0 <= j < tokens.len() implies (#[trigger] number_of(
            tokens[j],
        )) is Some by {
            assert(number_of(tokens[j]) == Some(list@[j]));
        }
        assert(numbers_of(tokens)->0 =~= list@) by {
            assert forall|j: int| 0 <= j < tokens.len() implies numbers_of(tokens)->0[j]
                == list@[j] by {
                assert(number_of(tokens[j]) == Some(list@[j]));
            }
        }
    }
    Some(list)
}

/// A text is plain ASCII if its separator and all of its pieces are.
proof fn lemma_split_ascii(text: Seq<char>, separator: char)
    requires
        separator <= '\u{7f}',
        forall|k: int|
            0 <= k < split(text, separator).len() ==> is_ascii_chars(
                #[trigger] split(text, separator)[k],
            ),
    ensures
        is_ascii_chars(text),
    decreases text.len(),
{
    if text.len() > 0 {
        let rest = text.drop_last();
        let before = split(rest, separator);
        let pieces = split(text, separator);
        lemma_split_len(rest, separator);
        assert forall|k: int| 0 <= k < before.len() implies is_ascii_chars(
            #[trigger] before[k],
        ) by {
            if text.last() == separator {
                assert(before[k] == pieces[k]);
            } else if k < before.len() - 1 {
                assert(before[k] == pieces[k]);
            } else {
                assert(is_ascii_chars(pieces[k]));
                assert forall|i: int| 0 <= i < before[k].len() implies '\0'
                    <= #[trigger] before[k][i] <= '\u{7f}' by {
                    assert(pieces[k][i] == before[k][i]);
                }
            }
        }
        lemma_split_ascii(rest, separator);
        if text.last() != separator {
            let last = pieces[before.len() - 1];
            assert(is_ascii_chars(last));
            assert(last[last.len() - 1] == text.last());
        }
        assert forall|i: int| 0 <= i < text.len() implies '\0' <= #[trigger] text[i]
            <= '\u{7f}' by {
            if i < rest.len() {
                assert(rest[i] == text[i]);
            }
        }
    }
}

/// A line that holds a list is plain ASCII.
proof fn lemma_line_ascii(line: Seq<char>)
    requires
        list_of_line(line) is Some,
    ensures
        is_ascii_chars(line),
{
    if line.len() > 0 {
        let tokens = split(line, ' ');
        assert forall|k: int| 0 <= k < tokens.len() implies is_ascii_chars(
            #[trigger] tokens[k],
        ) by {
            let token = tokens[k];
            assert(number_of(token) is Some);
            assert forall|i: int| 0 <= i < token.len() implies '\0' <= #[trigger] token[i]
                <= '\u{7f}' by {
                if token[0] == '+' {
                    if i > 0 {
                        assert(is_digit(token.drop_first()[i - 1]));
                    }
                } else {
                    assert(is_digit(token[i]));
                }
            }
        }
        lemma_split_ascii(line, ' ');
    }
}

/// A text that holds a ledger is plain ASCII.
proof fn lemma_ledger_ascii(text: Seq<char>)
    requires
        ledger_of_text(text) is Some,
    ensures
        is_ascii_chars(text),
{
    let lines = split(text, '\n');
    lemma_line_ascii(lines[0]);
    lemma_line_ascii(lines[1]);
    lemma_split_ascii(text, '\n');
}

/// Reads the list that a line of the ledger holds; `None` where the line
/// holds none.
pub fn line_to_slice(line: &str) -> (list: Option<Vec<u32>>)
    ensures
        match list {
            Some(v) => list_of_line(line@) == Some(v@),
            None => list_of_line(line@) is None,
        },
{
    if !line.is_ascii() {
        proof {
            if list_of_line(line@) is Some {
                lemma_line_ascii(line@);
            }
        }
        return None;
    }
    proof {
        is_ascii_spec_bytes(line);
        assert(line.spec_bytes().len() == line@.len());
    }
    let length = line.as_bytes().len();
    assert(line@.subrange(0, length as int) =~= line@);
    parse_line(line, 0, length)
}

/// Reads the ledger that a text holds: the list of scores and the list of
/// line counts. `None`, for no history, where the text holds no ledger.
pub fn load_highscores_and_lines(content: &str) -> (ledger: Option<(Vec<u32>, Vec<u32>)>)
    ensures
        match ledger {
            Some((highscores, number_of_lines)) => ledger_of_text(content@) == Some(
                (highscores@, number_of_lines@),
            ),
            None => ledger_of_text(content@) is None,
        },
{
    if !content.is_ascii() {
        proof {
            if ledger_of_text(content@) is Some {
                lemma_ledger_ascii(content@);
            }
        }
        return None;
    }
    proof {
        is_ascii_spec_bytes(content);
        assert(content.spec_bytes().len() == content@.len());
    }
    let length = content.as_bytes().len();
    assert(content@.subrange(0, length as int) =~= content@);
    let lines = split_ranges(content, 0, length, 10);
    if lines.len() != 2 && !(lines.len() == 3 && lines[2].0 == lines[2].1) {
        return None;
    }
    let highscores = parse_line(content, lines[0].0, lines[0].1);
    let number_of_lines = parse_line(content, lines[1].0, lines[1].1);
    match (highscores, number_of_lines) {
        (Some(highscores), Some(number_of_lines)) => Some((highscores, number_of_lines)),
        _ => None,
    }
}

/// What the end of a game does to the ledger.
pub struct LedgerUpdate {
    /// The score entered the list of scores.
    pub new_highscore: bool,
    /// The line count entered the list of line counts.
    pub new_lines: bool,
    /// The text to save, where the ledger changed.
    pub to_save: Option<String>,
}

/// The ledger after a game with the given score and line count, where
/// `history` is what had been saved before: both lists updated, or, without
/// history, lists that hold the game's results alone.
pub open spec fn ledger_after(history: Option<(Seq<u32>, Seq<u32>)>, score: u32, lines: u32) -> (
    Seq<u32>,
    Seq<u32>,
) {
    match history {
        Some((highscores, number_of_lines)) => (
            updated(highscores, score),
            updated(number_of_lines, lines),
        ),
        None => (seq![score], seq![lines]),
    }
}

/// Whether the score is a new high against the saved history. Without
/// history it is.
pub open spec fn score_is_new_high(history: Option<(Seq<u32>, Seq<u32>)>, score: u32) -> bool {
    match history {
        Some((highscores, _)) => is_new_high(highscores, score),
        None => true,
    }
}

/// Whether the line count is a new high against the saved history. Without
/// history it is.
pub open spec fn lines_is_new_high(history: Option<(Seq<u32>, Seq<u32>)>, lines: u32) -> bool {
    match history {
        Some((_, number_of_lines)) => is_new_high(number_of_lines, lines),
        None => true,
    }
}

/// The history that the saved text holds, if there is a text and it holds
/// a ledger.
pub open spec fn history_of(content: Option<&str>) -> Option<(Seq<u32>, Seq<u32>)> {
    match content {
        Some(text) => ledger_of_text(text@),
        None => None,
    }
}

/// Enters the results of a finished game into the ledger. `content` is the
/// saved text, if any. The score and the line count are offered to their
/// lists, each on its own. Only where one of them is a new high is there a
/// text to save: that of the ledger after the game.
pub fn update_and_maybe_save(
    content: Option<&str>,
    score: u32,
    lines: u32,
) -> (update: LedgerUpdate)
    ensures
        update.new_highscore == score_is_new_high(history_of(content), score),
        update.new_lines == lines_is_new_high(history_of(content), lines),
        match update.to_save {
            Some(text) => {
                &&& update.new_highscore || update.new_lines
                &&& text@ == ledger_text(
                    ledger_after(history_of(content), score, lines).0,
                    ledger_after(history_of(content), score, lines).1,
                )
            },
            None => !update.new_highscore && !update.new_lines,
        },
{
    let history = match content {
        Some(text) => load_highscores_and_lines(text),
        None => None,
    };
    match history {
        Some((mut highscores, mut number_of_lines)) => {
            let new_highscore = update_vec(&mut highscores, score);
            let new_lines = update_vec(&mut number_of_lines, lines);
            let to_save = if new_highscore || new_lines {
                Some(save_highscores_and_lines(highscores.as_slice(), number_of_lines.as_slice()))
            } else {
                None
            };
            LedgerUpdate { new_highscore, new_lines, to_save }
        },
        None => {
            let mut highscores: Vec<u32> = Vec::new();
            highscores.push(score);
            let mut number_of_lines: Vec<u32> = Vec::new();
            number_of_lines.push(lines);
            assert(highscores@ =~= seq![score]);
            assert(number_of_lines@ =~= seq![lines]);
            let text = save_highscores_and_lines(
                highscores.as_slice(),
                number_of_lines.as_slice(),
            );
            LedgerUpdate { new_highscore: true, new_lines: true, to_save: Some(text) }
        },
    }
}

} // verus!
