//! Cutting text into pieces, and numbers written in decimal.
use std::num::ParseIntError;
use vstd::prelude::*;
use vstd::slice::slice_subrange;

verus! {

/// The pieces of `text` between occurrences of `separator`: a separator opens a new piece, any
/// other character extends the last one. There is always at least one piece.
pub open spec fn split(text: Seq<char>, separator: char) -> Seq<Seq<char>>
    decreases text.len(),
{
    if text.len() == 0 {
        seq![Seq::<char>::empty()]
    } else {
        let before = split(text.drop_last(), separator);
        if text.last() == separator {
            before.push(Seq::empty())
        } else {
            before.drop_last().push(before.last().push(text.last()))
        }
    }
}

/// The maximal runs of items of `items` that are not blank, in order.
pub open spec fn words<T>(items: Seq<T>, blank: spec_fn(T) -> bool) -> Seq<Seq<T>>
    decreases items.len(),
{
    if items.len() == 0 {
        Seq::empty()
    } else {
        let before = words(items.drop_last(), blank);
        if blank(items.last()) {
            before
        } else if items.len() >= 2 && !blank(items[items.len() - 2]) {
            before.drop_last().push(before.last().push(items.last()))
        } else {
            before.push(seq![items.last()])
        }
    }
}

/// Whether `c` has the Unicode property `White_Space`.
pub open spec fn white_space(c: char) -> bool {
    ||| '\u{9}' <= c <= '\u{d}'
    ||| c == ' '
    ||| c == '\u{85}'
    ||| c == '\u{a0}'
    ||| c == '\u{1680}'
    ||| '\u{2000}' <= c <= '\u{200a}'
    ||| c == '\u{2028}'
    ||| c == '\u{2029}'
    ||| c == '\u{202f}'
    ||| c == '\u{205f}'
    ||| c == '\u{3000}'
}

/// Whether `b` is ASCII white space: space, tab, line feed, form feed or carriage return.
pub open spec fn ascii_white_space(b: u8) -> bool {
    b == 0x20 || b == 0x09 || b == 0x0a || b == 0x0c || b == 0x0d
}

/// The words of `text`, cut at white space.
pub open spec fn text_words(text: Seq<char>) -> Seq<Seq<char>> {
    words(text, |c: char| white_space(c))
}

/// The words of a line of bytes, cut at ASCII white space.
pub open spec fn byte_words(line: Seq<u8>) -> Seq<Seq<u8>> {
    words(line, |b: u8| ascii_white_space(b))
}

/// Whether `c` is one of the digits `0` to `9`.
pub open spec fn ascii_digit(c: char) -> bool {
    '0' <= c <= '9'
}

/// Whether every character of `text` is one of the digits `0` to `9`.
pub open spec fn all_digits(text: Seq<char>) -> bool {
    forall|i: int| 0 <= i < text.len() ==> ascii_digit(#[trigger] text[i])
}

/// The number that a run of decimal digits stands for; the empty run stands for zero.
pub open spec fn digits_value(digits: Seq<char>) -> nat
    decreases digits.len(),
{
    if digits.len() == 0 {
        0
    } else {
        digits_value(digits.drop_last()) * 10 + (digits.last() as nat - '0' as nat) as nat
    }
}

/// The decimal notation of `n`, without leading zeros.
pub open spec fn decimal(n: nat) -> Seq<char>
    decreases n,
{
    let digit = ('0' as nat + n % 10) as char;
    if n < 10 {
        seq![digit]
    } else {
        decimal(n / 10).push(digit)
    }
}

/// A run of digits that follows an optional plus sign.
pub open spec fn unsigned_digits(text: Seq<char>) -> Seq<char> {
    if text.len() > 0 && text[0] == '+' {
        text.skip(1)
    } else {
        text
    }
}

/// The value of `text` read as a `usize`: an optional plus sign and at least one digit, the
/// number not above `usize::MAX`. Any other text has none.
pub open spec fn usize_value(text: Seq<char>) -> Option<usize> {
    let digits = unsigned_digits(text);
    if digits.len() > 0 && all_digits(digits) && digits_value(digits) <= usize::MAX {
        Some(digits_value(digits) as usize)
    } else {
        None
    }
}

/// The error type of the standard library's integer parsers.
#[verifier::external_type_specification]
#[verifier::external_body]
pub struct ExParseIntError(ParseIntError);

/// The error that `str::parse::<usize>` gives for a text that has no [`usize_value`].
pub uninterp spec fn usize_parse_error(text: Seq<char>) -> ParseIntError;

/// `str::parse::<usize>` of the standard library: it reads an optional plus sign and digits, and
/// nothing else, as the number they stand for, provided that it fits. For every other text it
/// gives an error, which depends on the text alone.
#[verifier::external_body]
pub(crate) fn parse_usize(text: &str) -> (number: Result<usize, ParseIntError>)
    ensures
        match usize_value(text@) {
            Some(n) => number == Ok::<usize, ParseIntError>(n),
            None => number == Err::<usize, ParseIntError>(usize_parse_error(text@)),
        },
{
    text.parse::<usize>()
}

/// The characters of `text`.
pub fn chars_of(text: &str) -> (chars: Vec<char>)
    ensures
        chars@ == text@,
{
    let mut chars: Vec<char> = Vec::new();
    for c in it: text.chars()
        invariant
            chars@ == it.seq().take(it.index() as int),
            it.seq() == text@,
    {
        chars.push(c);
    }
    chars
}

/// The place of the first `wanted` in `text`, counted in characters.
pub fn find_char(text: &str, wanted: char) -> (place: Option<usize>)
    ensures
        match place {
            Some(i) => text@.index_of_first(wanted) == Some(i as int) && i < text@.len(),
            None => text@.index_of_first(wanted) == None::<int>,
        },
{
    proof {
        text@.index_of_first_ensures(wanted);
    }
    let chars = chars_of(text);
    let mut i: usize = 0;
    while i < chars.len()
        invariant
            chars@ == text@,
            i <= chars@.len(),
            forall|j: int| 0 <= j < i ==> chars@[j] != wanted,
        decreases chars@.len() - i,
    {
        if chars[i] == wanted {
            proof {
                text@.index_of_first_ensures(wanted);
                assert(text@[i as int] == wanted);
            }
            return Some(i);
        }
        i += 1;
    }
    None
}

/// Cuts `text` at every `separator`.
pub fn split_on<'a>(text: &'a str, separator: char) -> (pieces: Vec<&'a str>)
    ensures
        pieces@.map_values(|piece: &'a str| piece@) == split(text@, separator),
{
    let chars = chars_of(text);
    let mut pieces: Vec<&'a str> = Vec::new();
    let mut start: usize = 0;
    let mut i: usize = 0;
    proof {
        assert(text@.subrange(0, 0) =~= Seq::<char>::empty());
        assert(pieces@.map_values(|piece: &'a str| piece@).push(text@.subrange(0, 0))
            =~= split(text@.take(0), separator));
    }
    while i < chars.len()
        invariant
            chars@ == text@,
            start <= i <= chars@.len(),
            pieces@.map_values(|piece: &'a str| piece@).push(text@.subrange(start as int, i as int))
                == split(text@.take(i as int), separator),
        decreases chars@.len() - i,
    {
        let ghost known = pieces@.map_values(|piece: &'a str| piece@);
        let ghost open_piece = text@.subrange(start as int, i as int);
        proof {
            assert(text@.take(i + 1).drop_last() =~= text@.take(i as int));
            assert(known.push(open_piece).drop_last() =~= known);
        }
        if chars[i] == separator {
            pieces.push(text.substring_char(start, i));
            start = i + 1;
            proof {
                assert(pieces@.map_values(|piece: &'a str| piece@) =~= known.push(open_piece));
                assert(text@.subrange(start as int, i + 1) =~= Seq::<char>::empty());
            }
        } else {
            proof {
                assert(text@.subrange(start as int, i + 1) =~= open_piece.push(text@[i as int]));
            }
        }
        i += 1;
    }
    let ghost known = pieces@.map_values(|piece: &'a str| piece@);
    pieces.push(text.substring_char(start, i));
    proof {
        assert(text@.take(i as int) =~= text@);
        assert(pieces@.map_values(|piece: &'a str| piece@) =~= known.push(
            text@.subrange(start as int, i as int),
        ));
    }
    pieces
}

/// `char::is_whitespace` of the standard library: it tells whether the character has the Unicode
/// property `White_Space`, whose members are those that [`white_space`] lists.
pub assume_specification[ char::is_whitespace ](c: char) -> (blank: bool)
    ensures
        blank == white_space(c),
;

/// Cuts `text` into words at white space.
pub fn split_words<'a>(text: &'a str) -> (found: Vec<&'a str>)
    ensures
        found@.map_values(|word: &'a str| word@) == text_words(text@),
{
    let chars = chars_of(text);
    let mut found: Vec<&'a str> = Vec::new();
    let mut i: usize = 0;
    while i < chars.len()
        invariant
            chars@ == text@,
            i <= chars@.len(),
            0 < i < chars@.len() ==> white_space(text@[i - 1]),
            found@.map_values(|word: &'a str| word@) == text_words(text@.take(i as int)),
        decreases chars@.len() - i,
    {
        let ghost known = found@.map_values(|word: &'a str| word@);
        let start = i;
        while i < chars.len() && !chars[i].is_whitespace()
            invariant
                chars@ == text@,
                start <= i <= chars@.len(),
                start > 0 ==> white_space(text@[start - 1]),
                i > start ==> !white_space(text@[i - 1]),
                known == text_words(text@.take(start as int)),
                text_words(text@.take(i as int)) == (if i == start {
                    known
                } else {
                    known.push(text@.subrange(start as int, i as int))
                }),
            decreases chars@.len() - i,
        {
            proof {
                let longer = text@.take(i + 1);
                let word = text@.subrange(start as int, i as int);
                assert(longer.drop_last() =~= text@.take(i as int));
                assert(text@.subrange(start as int, i + 1) =~= word.push(text@[i as int]));
                if i == start {
                    assert(word.push(text@[i as int]) =~= seq![text@[i as int]]);
                } else {
                    assert(known.push(word).drop_last() =~= known);
                }
            }
            i += 1;
        }
        if start < i {
            found.push(text.substring_char(start, i));
            proof {
                assert(found@.map_values(|word: &'a str| word@) =~= known.push(
                    text@.subrange(start as int, i as int),
                ));
            }
        }
        if i < chars.len() {
            proof {
                assert(text@.take(i + 1).drop_last() =~= text@.take(i as int));
            }
            i += 1;
        }
    }
    proof {
        assert(text@.take(i as int) =~= text@);
    }
    found
}

/// Cuts a line of bytes into words at ASCII white space.
pub fn split_byte_words<'a>(line: &'a [u8]) -> (found: Vec<&'a [u8]>)
    ensures
        found@.map_values(|word: &'a [u8]| word@) == byte_words(line@),
{
    let mut found: Vec<&'a [u8]> = Vec::new();
    let mut i: usize = 0;
    while i < line.len()
        invariant
            i <= line@.len(),
            0 < i < line@.len() ==> ascii_white_space(line@[i - 1]),
            found@.map_values(|word: &'a [u8]| word@) == byte_words(line@.take(i as int)),
        decreases line@.len() - i,
    {
        let ghost known = found@.map_values(|word: &'a [u8]| word@);
        let start = i;
        while i < line.len() && !is_ascii_white_space(line[i])
            invariant
                start <= i <= line@.len(),
                start > 0 ==> ascii_white_space(line@[start - 1]),
                i > start ==> !ascii_white_space(line@[i - 1]),
                known == byte_words(line@.take(start as int)),
                byte_words(line@.take(i as int)) == (if i == start {
                    known
                } else {
                    known.push(line@.subrange(start as int, i as int))
                }),
            decreases line@.len() - i,
        {
            proof {
                let longer = line@.take(i + 1);
                let word = line@.subrange(start as int, i as int);
                assert(longer.drop_last() =~= line@.take(i as int));
                assert(line@.subrange(start as int, i + 1) =~= word.push(line@[i as int]));
                if i == start {
                    assert(word.push(line@[i as int]) =~= seq![line@[i as int]]);
                } else {
                    assert(known.push(word).drop_last() =~= known);
                }
            }
            i += 1;
        }
        if start < i {
            found.push(slice_subrange(line, start, i));
            proof {
                assert(found@.map_values(|word: &'a [u8]| word@) =~= known.push(
                    line@.subrange(start as int, i as int),
                ));
            }
        }
        if i < line.len() {
            proof {
                assert(line@.take(i + 1).drop_last() =~= line@.take(i as int));
            }
            i += 1;
        }
    }
    proof {
        assert(line@.take(i as int) =~= line@);
    }
    found
}

/// Tells whether a byte is ASCII white space.
fn is_ascii_white_space(b: u8) -> (blank: bool)
    ensures
        blank == ascii_white_space(b),
{
    b == 0x20 || b == 0x09 || b == 0x0a || b == 0x0c || b == 0x0d
}

/// One decimal digit as text.
fn digit_text(digit: u16) -> (text: &'static str)
    requires
        digit < 10,
    ensures
        text@ == seq![('0' as nat + digit as nat) as char],
{
    proof {
        reveal_strlit("0");
        reveal_strlit("1");
        reveal_strlit("2");
        reveal_strlit("3");
        reveal_strlit("4");
        reveal_strlit("5");
        reveal_strlit("6");
        reveal_strlit("7");
        reveal_strlit("8");
        reveal_strlit("9");
    }
    match digit {
        0 => "0",
        1 => "1",
        2 => "2",
        3 => "3",
        4 => "4",
        5 => "5",
        6 => "6",
        7 => "7",
        8 => "8",
        _ => "9",
    }
}

/// Writes `n` in decimal.
pub fn decimal_text(n: u16) -> (text: String)
    ensures
        text@ == decimal(n as nat),
    decreases n,
{
    let mut text = if n < 10 {
        String::new()
    } else {
        decimal_text(n / 10)
    };
    text.append(digit_text(n % 10));
    proof {
        assert(text@ =~= decimal(n as nat));
    }
    text
}

/// What is written in decimal reads back as the same number, and has no leading zeros.
pub proof fn law_decimal_reads_back(n: nat)
    ensures
        decimal(n).len() > 0,
        all_digits(decimal(n)),
        digits_value(decimal(n)) == n,
        n > 0 ==> '1' <= decimal(n)[0] <= '9',
        n == 0 ==> decimal(n) == seq!['0'],
    decreases n,
{
    let digit = ('0' as nat + n % 10) as char;
    assert(digit as nat == '0' as nat + n % 10);
    if n < 10 {
        assert(decimal(n) =~= seq![digit]);
        assert(decimal(n).drop_last() =~= Seq::<char>::empty());
        assert(digits_value(decimal(n).drop_last()) == 0);
    } else {
        law_decimal_reads_back(n / 10);
        assert(decimal(n).drop_last() =~= decimal(n / 10));
    }
}

/// A number that fits into a `usize` reads back as a `usize` from its decimal notation.
pub proof fn law_usize_reads_back(n: usize)
    ensures
        usize_value(decimal(n as nat)) == Some(n),
{
    law_decimal_reads_back(n as nat);
    assert(ascii_digit(decimal(n as nat)[0]));
}

/// There is always a piece.
pub proof fn law_split_has_a_piece(text: Seq<char>, separator: char)
    ensures
        split(text, separator).len() > 0,
    decreases text.len(),
{
    if text.len() > 0 {
        law_split_has_a_piece(text.drop_last(), separator);
    }
}

/// A text without separators is its only piece.
pub proof fn law_split_of_one_piece(text: Seq<char>, separator: char)
    requires
        !text.contains(separator),
    ensures
        split(text, separator) == seq![text],
    decreases text.len(),
{
    if text.len() > 0 {
        let shorter = text.drop_last();
        assert(text[text.len() - 1] == text.last());
        assert forall|i: int| 0 <= i < shorter.len() implies shorter[i] != separator by {
            assert(text[i] == shorter[i]);
        }
        law_split_of_one_piece(shorter, separator);
        assert(seq![shorter].drop_last().push(shorter.push(text.last())) =~= seq![text]) by {
            assert(shorter.push(text.last()) =~= text);
        }
    } else {
        assert(text =~= Seq::<char>::empty());
    }
}

/// The pieces of two texts with a separator between them are the pieces of both.
pub proof fn law_split_of_joined(before: Seq<char>, after: Seq<char>, separator: char)
    ensures
        split(before + seq![separator] + after, separator) == split(before, separator) + split(
            after,
            separator,
        ),
    decreases after.len(),
{
    let joined = before + seq![separator] + after;
    if after.len() == 0 {
        assert(joined.drop_last() =~= before);
        assert(split(joined, separator) =~= split(before, separator) + split(after, separator));
    } else {
        let shorter = after.drop_last();
        law_split_of_joined(before, shorter, separator);
        law_split_has_a_piece(shorter, separator);
        assert(joined.drop_last() =~= before + seq![separator] + shorter);
        assert(joined.last() == after.last());
        assert(split(joined, separator) =~= split(before, separator) + split(after, separator));
    }
}

/// A piece holds no character that the text does not hold.
pub proof fn law_pieces_are_parts(text: Seq<char>, separator: char, k: int, c: char)
    requires
        0 <= k < split(text, separator).len(),
        split(text, separator)[k].contains(c),
    ensures
        text.contains(c),
    decreases text.len(),
{
    if text.len() > 0 {
        let shorter = text.drop_last();
        let before = split(shorter, separator);
        law_split_has_a_piece(shorter, separator);
        assert(text[text.len() - 1] == text.last());
        if k < before.len() && before[k].contains(c) {
            law_pieces_are_parts(shorter, separator, k, c);
            let i = choose|i: int| 0 <= i < shorter.len() && shorter[i] == c;
            assert(text[i] == c);
        } else {
            let piece = split(text, separator)[k];
            let i = choose|i: int| 0 <= i < piece.len() && piece[i] == c;
            if text.last() != separator && k == before.len() - 1 && i < before[k].len() {
                assert(before[k][i] == c);
            }
        }
    }
}

/// A word holds no item that the whole does not hold.
pub proof fn law_words_are_parts<T>(items: Seq<T>, blank: spec_fn(T) -> bool, k: int, item: T)
    requires
        0 <= k < words(items, blank).len(),
        words(items, blank)[k].contains(item),
    ensures
        items.contains(item),
    decreases items.len(),
{
    if items.len() > 0 {
        let shorter = items.drop_last();
        let before = words(shorter, blank);
        assert(items[items.len() - 1] == items.last());
        if k < before.len() && before[k].contains(item) {
            law_words_are_parts(shorter, blank, k, item);
            let i = choose|i: int| 0 <= i < shorter.len() && shorter[i] == item;
            assert(items[i] == item);
        } else {
            let word = words(items, blank)[k];
            let i = choose|i: int| 0 <= i < word.len() && word[i] == item;
            if k < before.len() && i < before[k].len() {
                assert(before[k][i] == item);
            }
        }
    }
}

/// The words of two lists of items with a blank item between them are the words of both.
pub proof fn law_words_of_joined<T>(before: Seq<T>, gap: T, after: Seq<T>, blank: spec_fn(T) -> bool)
    requires
        blank(gap),
    ensures
        words(before + seq![gap] + after, blank) == words(before, blank) + words(after, blank),
    decreases after.len(),
{
    let joined = before + seq![gap] + after;
    if after.len() == 0 {
        assert(joined.drop_last() =~= before);
        assert(words(joined, blank) =~= words(before, blank) + words(after, blank));
    } else {
        let shorter = after.drop_last();
        law_words_of_joined(before, gap, shorter, blank);
        assert(joined.drop_last() =~= before + seq![gap] + shorter);
        assert(joined.last() == after.last());
        if after.len() >= 2 {
            assert(joined[joined.len() - 2] == after[after.len() - 2]);
            assert(shorter.last() == after[after.len() - 2]);
        } else {
            assert(joined[joined.len() - 2] == gap);
        }
        assert(words(joined, blank) =~= words(before, blank) + words(after, blank));
    }
}

/// Items none of which is blank are one word.
pub proof fn law_words_of_one_word<T>(items: Seq<T>, blank: spec_fn(T) -> bool)
    requires
        items.len() > 0,
        forall|i: int| 0 <= i < items.len() ==> !blank(#[trigger] items[i]),
    ensures
        words(items, blank) == seq![items],
    decreases items.len(),
{
    let shorter = items.drop_last();
    assert(!blank(items[items.len() - 1]));
    if items.len() >= 2 {
        assert(!blank(items[items.len() - 2]));
        assert forall|i: int| 0 <= i < shorter.len() implies !blank(#[trigger] shorter[i]) by {
            assert(shorter[i] == items[i]);
        }
        law_words_of_one_word(shorter, blank);
        assert(shorter.push(items.last()) =~= items);
        assert(words(items, blank) =~= seq![items]);
    } else {
        assert(seq![items.last()] =~= items);
        assert(words(shorter, blank) =~= Seq::<Seq<T>>::empty());
        assert(words(items, blank) =~= seq![items]);
    }
}

/// Where the first `wanted` stands if the text before it has none.
pub proof fn lemma_first_of_joined(before: Seq<char>, wanted: char, after: Seq<char>)
    requires
        !before.contains(wanted),
    ensures
        (before + seq![wanted] + after).index_of_first(wanted) == Some(before.len() as int),
        (before + seq![wanted] + after).take(before.len() as int) == before,
        (before + seq![wanted] + after).skip(before.len() as int + 1) == after,
{
    let joined = before + seq![wanted] + after;
    joined.index_of_first_ensures(wanted);
    assert(joined[before.len() as int] == wanted);
    let place = joined.index_of_first(wanted).unwrap();
    if place < before.len() {
        assert(before[place] == wanted);
    }
    assert(joined.take(before.len() as int) =~= before);
    assert(joined.skip(before.len() as int + 1) =~= after);
}

/// Blank items, however many, hold no word; in particular nothing does not.
pub proof fn law_blanks_hold_no_word<T>(items: Seq<T>, blank: spec_fn(T) -> bool)
    requires
        forall|i: int| 0 <= i < items.len() ==> blank(#[trigger] items[i]),
    ensures
        words(items, blank).len() == 0,
    decreases items.len(),
{
    if items.len() > 0 {
        let fewer = items.drop_last();
        assert(blank(items[items.len() - 1]));
        assert forall|i: int| 0 <= i < fewer.len() implies blank(#[trigger] fewer[i]) by {
            assert(fewer[i] == items[i]);
        }
        law_blanks_hold_no_word(fewer, blank);
    }
}

/// Any white space character ends a word and begins the search for the next; a text without white
/// space is one word; and white space alone holds none.
pub proof fn law_text_words(before: Seq<char>, c: char, after: Seq<char>)
    ensures
        white_space(c) ==> text_words(before + seq![c] + after) == text_words(before) + text_words(after),
        before.len() > 0 && (forall|i: int| 0 <= i < before.len() ==> !white_space(#[trigger] before[i]))
            ==> text_words(before) == seq![before],
        (forall|i: int| 0 <= i < before.len() ==> white_space(#[trigger] before[i])) ==> text_words(
            before,
        ).len() == 0,
{
    let blank = |c: char| white_space(c);
    if white_space(c) {
        law_words_of_joined(before, c, after, blank);
    }
    if before.len() > 0 && (forall|i: int| 0 <= i < before.len() ==> !white_space(#[trigger] before[i])) {
        law_words_of_one_word(before, blank);
    }
    if forall|i: int| 0 <= i < before.len() ==> white_space(#[trigger] before[i]) {
        law_blanks_hold_no_word(before, blank);
    }
}

/// Any of the five ASCII white space bytes ends a word of a line; a line without them is one word;
/// and they alone hold none.
pub proof fn law_byte_words(before: Seq<u8>, b: u8, after: Seq<u8>)
    ensures
        b == 0x20 || b == 0x09 || b == 0x0a || b == 0x0c || b == 0x0d ==> byte_words(
            before + seq![b] + after,
        ) == byte_words(before) + byte_words(after),
        before.len() > 0 && (forall|i: int|
            0 <= i < before.len() ==> (#[trigger] before[i] != 0x20 && before[i] != 0x09 && before[i] != 0x0a
                && before[i] != 0x0c && before[i] != 0x0d)) ==> byte_words(before) == seq![before],
        (forall|i: int|
            0 <= i < before.len() ==> (#[trigger] before[i] == 0x20 || before[i] == 0x09 || before[i] == 0x0a
                || before[i] == 0x0c || before[i] == 0x0d)) ==> byte_words(before).len() == 0,
{
    let blank = |b: u8| ascii_white_space(b);
    if ascii_white_space(b) {
        law_words_of_joined(before, b, after, blank);
    }
    if before.len() > 0 && (forall|i: int|
        0 <= i < before.len() ==> !ascii_white_space(#[trigger] before[i])) {
        law_words_of_one_word(before, blank);
    }
    if forall|i: int| 0 <= i < before.len() ==> ascii_white_space(#[trigger] before[i]) {
        law_blanks_hold_no_word(before, blank);
    }
}

/// ASCII white space is the white space among the ASCII characters, without the vertical tab.
pub proof fn law_ascii_white_space(b: u8)
    ensures
        ascii_white_space(b) <==> b < 128 && b != 0x0b && white_space(b as char),
{
}

/// A further digit multiplies the number before it by ten and adds to it; no digits stand for zero.
pub proof fn law_further_digit(digits: Seq<char>, digit: char)
    requires
        '0' <= digit <= '9',
    ensures
        digits_value(digits + seq![digit]) == 10 * digits_value(digits) + (digit as int - '0' as int),
        digits_value(Seq::empty()) == 0,
{
    assert((digits + seq![digit]).drop_last() =~= digits);
}

/// A text of digits, with or without one plus sign before it, is read as the number that the digits
/// stand for if that fits; a text with any other character, or without a digit, is not read.
pub proof fn law_usize_value(text: Seq<char>)
    ensures
        text.len() > 0 && (forall|i: int| 0 <= i < text.len() ==> '0' <= #[trigger] text[i] <= '9')
            ==> usize_value(text) == (if digits_value(text) <= usize::MAX {
            Some(digits_value(text) as usize)
        } else {
            None
        }) && usize_value(seq!['+'] + text) == usize_value(text),
        text.len() == 0 ==> usize_value(text) is None && usize_value(seq!['+'] + text) is None,
        (exists|i: int| 1 <= i < text.len() && !('0' <= #[trigger] text[i] <= '9')) ==> usize_value(
            text,
        ) is None,
        text.len() > 0 && !('0' <= text[0] <= '9') && text[0] != '+' ==> usize_value(text) is None,
{
    let signed = seq!['+'] + text;
    assert(signed.skip(1) =~= text);
    if usize_value(text) is Some {
        let digits = unsigned_digits(text);
        assert forall|i: int| 1 <= i < text.len() implies '0' <= #[trigger] text[i] <= '9' by {
            if text[0] == '+' {
                assert(digits[i - 1] == text[i]);
            } else {
                assert(digits[i] == text[i]);
            }
        }
        if text[0] != '+' {
            assert(ascii_digit(digits[0]));
        }
    }
    if text.len() > 0 && (forall|i: int| 0 <= i < text.len() ==> '0' <= #[trigger] text[i] <= '9') {
        assert(text[0] != '+');
        assert(all_digits(text));
    }
}

} // verus!
