//! What a time specification means: its items, its fields, and the schedule they describe.
use crate::clock::LocalTime;
use crate::pattern::regex_finds;
use crate::text::{
    ascii_digit, decimal, law_decimal_reads_back, law_pieces_are_parts, law_split_of_joined,
    law_split_of_one_piece, law_text_words, law_usize_reads_back, law_words_are_parts, law_words_of_joined,
    law_words_of_one_word, lemma_first_of_joined, split, text_words, usize_value, white_space,
};
use vstd::prelude::*;

verus! {

/// The pattern of an item that begins with a number other than zero, or ends with a zero.
pub const NUMBER: &'static str = "^([1-9]\\d*(?:/[1-9]\\d*)?)|0$";

/// The pattern of an item that is a range.
pub const RANGE: &'static str = "^(([1-9]\\d*|0)-(0|[1-9]\\d*))(?:/[1-9]\\d*)?$";

/// The pattern of an item that stands for every value.
pub const WILDCARD: &'static str = "^\\*(?:/[1-9]\\d*)?$$";

/// A decimal digit as a pattern knows it: among the ASCII characters `0` to `9`, and beyond them
/// the characters in which the pattern `\d` finds a match.
pub open spec fn decimal_digit(c: char) -> bool {
    if (c as u32) < 128 {
        ascii_digit(c)
    } else {
        regex_finds("\\d"@, seq![c])
    }
}

/// A digit `1` to `9` and then any number of decimal digits.
pub open spec fn positive_form(text: Seq<char>) -> bool {
    &&& text.len() > 0
    &&& '1' <= text[0] <= '9'
    &&& forall|i: int| 1 <= i < text.len() ==> decimal_digit(#[trigger] text[i])
}

/// A lone `0`, or a positive number.
pub open spec fn natural_form(text: Seq<char>) -> bool {
    text == seq!['0'] || positive_form(text)
}

/// Nothing, or a slash and a positive number.
pub open spec fn step_form(text: Seq<char>) -> bool {
    text.len() == 0 || (text[0] == '/' && positive_form(text.skip(1)))
}

/// What [`NUMBER`] matches: its alternatives are anchored at one end each.
pub open spec fn number_form(text: Seq<char>) -> bool {
    text.len() > 0 && ('1' <= text[0] <= '9' || text.last() == '0')
}

/// A number, a dash at `dash`, a number up to `end`, and then a step or nothing.
pub open spec fn range_form_at(text: Seq<char>, dash: int, end: int) -> bool {
    &&& 0 <= dash < end <= text.len()
    &&& natural_form(text.take(dash))
    &&& text[dash] == '-'
    &&& natural_form(text.subrange(dash + 1, end))
    &&& step_form(text.skip(end))
}

/// What [`RANGE`] matches.
pub open spec fn range_form(text: Seq<char>) -> bool {
    exists|dash: int, end: int| range_form_at(text, dash, end)
}

/// What [`WILDCARD`] matches.
pub open spec fn wildcard_form(text: Seq<char>) -> bool {
    text.len() > 0 && text[0] == '*' && step_form(text.skip(1))
}

/// The items that are read at all.
pub open spec fn valid_item(item: Seq<char>) -> bool {
    number_form(item) || range_form(item) || wildcard_form(item)
}

/// The values from `first` up to, but not including, `end`; with a step, only its multiples.
pub struct Selection {
    pub first: int,
    pub end: int,
    pub step: Option<usize>,
}

impl Selection {
    pub open spec fn selects(self, value: int) -> bool {
        &&& self.first <= value < self.end
        &&& self.step matches Some(step) ==> value % (step as int) == 0
    }
}

/// Why an item, a field or a time specification selects nothing.
pub enum Failure {
    /// This text is malformed or out of bounds.
    Format(Seq<char>),
    /// This text is not a number that fits.
    Number(Seq<char>),
    /// Values would be divided by a step of zero.
    ZeroStep,
}

/// What an item stands for.
pub enum Reading {
    Values(Selection),
    Fails(Failure),
}

/// The values from `first` up to `end` in steps; to take steps of zero through a range that holds
/// a value is impossible.
pub open spec fn stepped(first: int, end: int, step: Option<usize>) -> Reading {
    if step == Some(0usize) && first < end {
        Reading::Fails(Failure::ZeroStep)
    } else {
        Reading::Values(Selection { first, end, step })
    }
}

/// The item that stands for every value.
pub open spec fn wildcard() -> Seq<char> {
    seq!['*']
}

/// What the part of an item before its step stands for.
pub open spec fn part_reading(part: Seq<char>, step: Option<usize>, min: usize, max: usize) -> Reading {
    if part == wildcard() {
        stepped(min as int, max as int, step)
    } else if let Some(dash) = part.index_of_first('-') {
        match (usize_value(part.take(dash)), usize_value(part.skip(dash + 1))) {
            (None, _) => Reading::Fails(Failure::Number(part.take(dash))),
            (_, None) => Reading::Fails(Failure::Number(part.skip(dash + 1))),
            (Some(start), Some(end)) => if min <= start < max && min <= end < max {
                stepped(start as int, end + 1, step)
            } else {
                Reading::Fails(Failure::Format(part))
            },
        }
    } else {
        match usize_value(part) {
            None => Reading::Fails(Failure::Number(part)),
            Some(value) => if min <= value < max {
                stepped(value as int, value + 1, step)
            } else {
                Reading::Fails(Failure::Format(part))
            },
        }
    }
}

/// What an item stands for where the values run from `min` up to, but not including, `max`.
pub open spec fn item_reading(item: Seq<char>, min: usize, max: usize) -> Reading {
    if !valid_item(item) {
        Reading::Fails(Failure::Format(item))
    } else if let Some(slash) = item.index_of_first('/') {
        match usize_value(item.skip(slash + 1)) {
            None => Reading::Fails(Failure::Number(item.skip(slash + 1))),
            Some(step) => part_reading(item.take(slash), Some(step), min, max),
        }
    } else {
        part_reading(item, None, min, max)
    }
}

/// Whether an item selects `value`.
pub open spec fn item_selects(item: Seq<char>, min: usize, max: usize, value: int) -> bool {
    item_reading(item, min, max) matches Reading::Values(selection) && selection.selects(value)
}

/// The failure of an item, if it fails.
pub open spec fn item_failure(item: Seq<char>, min: usize, max: usize) -> Option<Failure> {
    match item_reading(item, min, max) {
        Reading::Values(_) => None,
        Reading::Fails(failure) => Some(failure),
    }
}

/// The first of two failures.
pub open spec fn earlier(first: Option<Failure>, second: Option<Failure>) -> Option<Failure> {
    if first is Some {
        first
    } else {
        second
    }
}

/// The failure of the first item that fails.
pub open spec fn items_failure(items: Seq<Seq<char>>, min: usize, max: usize) -> Option<Failure>
    decreases items.len(),
{
    if items.len() == 0 {
        None
    } else {
        earlier(items_failure(items.drop_last(), min, max), item_failure(items.last(), min, max))
    }
}

/// The failure of a field, which is a list of items with commas between them.
pub open spec fn field_failure(field: Seq<char>, min: usize, max: usize) -> Option<Failure> {
    items_failure(split(field, ','), min, max)
}

/// Whether one of the items of a field selects `value`.
pub open spec fn field_selects(field: Seq<char>, min: usize, max: usize, value: int) -> bool {
    exists|k: int|
        0 <= k < split(field, ',').len() && item_selects(#[trigger] split(field, ',')[k], min, max, value)
}

/// The failure of a time specification: it has five fields, and the first that fails counts.
pub open spec fn timespec_failure(spec: Seq<char>) -> Option<Failure> {
    let fields = text_words(spec);
    if fields.len() != 5 {
        Some(Failure::Format(spec))
    } else {
        earlier(
            field_failure(fields[0], 0, 60),
            earlier(
                field_failure(fields[1], 0, 24),
                earlier(
                    field_failure(fields[2], 1, 32),
                    earlier(field_failure(fields[3], 1, 13), field_failure(fields[4], 0, 7)),
                ),
            ),
        )
    }
}

/// Whether to read a time specification is to divide by zero.
pub open spec fn zero_step(spec: Seq<char>) -> bool {
    timespec_failure(spec) == Some(Failure::ZeroStep)
}

/// The minutes, hours, days and months of a schedule.
#[verifier::ext_equal]
pub struct Schedule {
    pub minutes: Set<int>,
    pub hours: Set<int>,
    pub days_of_month: Set<int>,
    pub months: Set<int>,
    pub days_of_week: Set<int>,
}

impl Schedule {
    /// Whether each part of a time is in the schedule.
    pub open spec fn includes(
        self,
        minute: int,
        hour: int,
        day_of_month: int,
        month: int,
        day_of_week: int,
    ) -> bool {
        &&& self.minutes.contains(minute)
        &&& self.hours.contains(hour)
        &&& self.days_of_month.contains(day_of_month)
        &&& self.months.contains(month)
        &&& self.days_of_week.contains(day_of_week)
    }

    /// Whether a local time is in the schedule.
    pub open spec fn includes_time(self, time: LocalTime) -> bool {
        self.includes(
            time.minute as int,
            time.hour as int,
            time.day_of_month as int,
            time.month as int,
            time.day_of_week as int,
        )
    }
}

/// The schedule that a time specification describes.
pub open spec fn timespec_schedule(spec: Seq<char>) -> Schedule {
    let fields = text_words(spec);
    Schedule {
        minutes: Set::new(|v: int| field_selects(fields[0], 0, 60, v)),
        hours: Set::new(|v: int| field_selects(fields[1], 0, 24, v)),
        days_of_month: Set::new(|v: int| field_selects(fields[2], 1, 32, v)),
        months: Set::new(|v: int| field_selects(fields[3], 1, 13, v)),
        days_of_week: Set::new(|v: int| field_selects(fields[4], 0, 7, v)),
    }
}

/// An item selects only values within the bounds.
pub proof fn law_item_in_bounds(item: Seq<char>, min: usize, max: usize, value: int)
    requires
        item_selects(item, min, max, value),
    ensures
        min <= value < max,
{
}

/// A field selects only values within the bounds.
pub proof fn law_field_in_bounds(field: Seq<char>, min: usize, max: usize, value: int)
    requires
        field_selects(field, min, max, value),
    ensures
        min <= value < max,
{
}

/// Decimal notation holds no character other than digits.
proof fn lemma_decimal_lacks(n: nat, c: char)
    requires
        !ascii_digit(c),
    ensures
        !decimal(n).contains(c),
{
    law_decimal_reads_back(n);
    if decimal(n).contains(c) {
        let i = choose|i: int| 0 <= i < decimal(n).len() && decimal(n)[i] == c;
        assert(ascii_digit(decimal(n)[i]));
    }
}

/// Decimal notation has the form of a number.
proof fn lemma_decimal_form(n: nat)
    ensures
        natural_form(decimal(n)),
        n > 0 ==> positive_form(decimal(n)),
        number_form(decimal(n)),
{
    law_decimal_reads_back(n);
    let text = decimal(n);
    assert forall|i: int| 1 <= i < text.len() implies decimal_digit(#[trigger] text[i]) by {
        assert(ascii_digit(text[i]));
    }
}

/// A character that does not occur has no place.
proof fn lemma_absent(text: Seq<char>, c: char)
    requires
        !text.contains(c),
    ensures
        text.index_of_first(c) is None,
{
    text.index_of_first_ensures(c);
}

/// The notation of a step after another part of an item.
pub open spec fn with_step(part: Seq<char>, step: usize) -> Seq<char> {
    part + seq!['/'] + decimal(step as nat)
}

/// An item in which a step follows a slash is read as its first part with that step.
proof fn lemma_item_with_step(part: Seq<char>, step: usize, min: usize, max: usize)
    requires
        !part.contains('/'),
        valid_item(with_step(part, step)),
    ensures
        item_reading(with_step(part, step), min, max) == part_reading(
            part,
            Some(step),
            min,
            max,
        ),
{
    lemma_first_of_joined(part, '/', decimal(step as nat));
    law_usize_reads_back(step);
}

/// The notation of a range.
pub open spec fn range_text(start: usize, end: usize) -> Seq<char> {
    decimal(start as nat) + seq!['-'] + decimal(end as nat)
}

/// A range is read as the numbers from its start through its end.
proof fn lemma_range_part(start: usize, end: usize, step: Option<usize>, min: usize, max: usize)
    requires
        min <= start < max,
        min <= end < max,
    ensures
        part_reading(range_text(start, end), step, min, max) == stepped(start as int, end + 1, step),
        !range_text(start, end).contains('/'),
{
    let text = range_text(start, end);
    lemma_decimal_lacks(start as nat, '-');
    lemma_decimal_lacks(start as nat, '/');
    lemma_decimal_lacks(end as nat, '/');
    law_decimal_reads_back(start as nat);
    law_decimal_reads_back(end as nat);
    lemma_first_of_joined(decimal(start as nat), '-', decimal(end as nat));
    law_usize_reads_back(start);
    law_usize_reads_back(end);
    assert(text.len() >= 3);
    if text.contains('/') {
        let i = choose|i: int| 0 <= i < text.len() && text[i] == '/';
        if i < decimal(start as nat).len() {
            assert(decimal(start as nat)[i] == '/');
        } else if i > decimal(start as nat).len() {
            assert(decimal(end as nat)[i - decimal(start as nat).len() - 1] == '/');
        }
    }
}

/// `*` selects every value within the bounds.
pub proof fn law_wildcard(min: usize, max: usize)
    ensures
        item_failure(wildcard(), min, max) is None,
        forall|value: int| #[trigger] item_selects(wildcard(), min, max, value) <==> min <= value < max,
{
    let text = wildcard();
    assert(text.skip(1) =~= Seq::<char>::empty());
    lemma_absent(text, '/');
}

/// `*/step` selects every multiple of the step within the bounds.
pub proof fn law_wildcard_with_step(step: usize, min: usize, max: usize)
    requires
        step > 0,
    ensures
        item_failure(with_step(wildcard(), step), min, max) is None,
        forall|value: int| #[trigger]
            item_selects(with_step(wildcard(), step), min, max, value) <==> min <= value < max
                && value % (step as int) == 0,
{
    let text = with_step(wildcard(), step);
    assert(text.skip(1).skip(1) =~= decimal(step as nat));
    lemma_decimal_form(step as nat);
    assert(wildcard_form(text));
    lemma_item_with_step(wildcard(), step, min, max);
}

/// A number within the bounds, in decimal, selects itself alone.
pub proof fn law_number(n: usize, min: usize, max: usize)
    requires
        min <= n < max,
    ensures
        item_failure(decimal(n as nat), min, max) is None,
        forall|value: int| #[trigger]
            item_selects(decimal(n as nat), min, max, value) <==> value == n,
{
    let text = decimal(n as nat);
    lemma_decimal_form(n as nat);
    lemma_decimal_lacks(n as nat, '/');
    lemma_decimal_lacks(n as nat, '-');
    lemma_absent(text, '/');
    lemma_absent(text, '-');
    law_usize_reads_back(n);
    law_decimal_reads_back(n as nat);
    assert(ascii_digit(text[0]));
    assert(wildcard()[0] == '*');
}

/// A number out of bounds is refused.
pub proof fn law_number_out_of_bounds(n: usize, min: usize, max: usize)
    requires
        !(min <= n < max),
    ensures
        item_failure(decimal(n as nat), min, max) == Some(Failure::Format(decimal(n as nat))),
{
    let text = decimal(n as nat);
    lemma_decimal_form(n as nat);
    lemma_decimal_lacks(n as nat, '/');
    lemma_decimal_lacks(n as nat, '-');
    lemma_absent(text, '/');
    lemma_absent(text, '-');
    law_usize_reads_back(n);
    law_decimal_reads_back(n as nat);
    assert(ascii_digit(text[0]));
    assert(wildcard()[0] == '*');
}

/// A range selects its start, its end and what lies between them; if the end is before the start,
/// nothing.
pub proof fn law_range(start: usize, end: usize, min: usize, max: usize)
    requires
        min <= start < max,
        min <= end < max,
    ensures
        item_failure(range_text(start, end), min, max) is None,
        forall|value: int| #[trigger]
            item_selects(range_text(start, end), min, max, value) <==> start <= value <= end,
{
    let text = range_text(start, end);
    let dash = decimal(start as nat).len() as int;
    lemma_range_part(start, end, None, min, max);
    lemma_decimal_form(start as nat);
    lemma_decimal_form(end as nat);
    lemma_absent(text, '/');
    assert(range_form_at(text, dash, text.len() as int)) by {
        assert(text.take(dash) =~= decimal(start as nat));
        assert(text.subrange(dash + 1, text.len() as int) =~= decimal(end as nat));
        assert(text.skip(text.len() as int) =~= Seq::<char>::empty());
        law_decimal_reads_back(end as nat);
    }
}

/// A range with a step selects the multiples of the step in the range.
pub proof fn law_range_with_step(start: usize, end: usize, step: usize, min: usize, max: usize)
    requires
        min <= start < max,
        min <= end < max,
        step > 0,
    ensures
        item_failure(with_step(range_text(start, end), step), min, max) is None,
        forall|value: int| #[trigger]
            item_selects(with_step(range_text(start, end), step), min, max, value)
                <==> start <= value <= end && value % (step as int) == 0,
{
    let range = range_text(start, end);
    let text = with_step(range, step);
    let dash = decimal(start as nat).len() as int;
    lemma_range_part(start, end, Some(step), min, max);
    lemma_decimal_form(start as nat);
    lemma_decimal_form(end as nat);
    lemma_decimal_form(step as nat);
    assert(range_form_at(text, dash, range.len() as int)) by {
        assert(text.take(dash) =~= decimal(start as nat));
        assert(text.subrange(dash + 1, range.len() as int) =~= decimal(end as nat));
        assert(text.skip(range.len() as int).skip(1) =~= decimal(step as nat));
        law_decimal_reads_back(end as nat);
    }
    lemma_item_with_step(range, step, min, max);
}

/// `*` and the range of all values select the same, and neither fails; and so it is with a step.
pub proof fn law_wildcard_is_full_range(step: usize, min: usize, max: usize)
    requires
        min < max,
        step > 0,
    ensures
        item_failure(wildcard(), min, max) is None,
        item_failure(range_text(min, (max - 1) as usize), min, max) is None,
        forall|value: int| #[trigger]
            item_selects(wildcard(), min, max, value) <==> item_selects(
                range_text(min, (max - 1) as usize),
                min,
                max,
                value,
            ),
        item_failure(with_step(wildcard(), step), min, max) is None,
        item_failure(with_step(range_text(min, (max - 1) as usize), step), min, max) is None,
        forall|value: int| #[trigger]
            item_selects(with_step(wildcard(), step), min, max, value) <==> item_selects(
                with_step(range_text(min, (max - 1) as usize), step),
                min,
                max,
                value,
            ),
{
    let last = (max - 1) as usize;
    law_wildcard(min, max);
    law_range(min, last, min, max);
    law_wildcard_with_step(step, min, max);
    law_range_with_step(min, last, step, min, max);
}

/// A step of one changes nothing in an item that is read both with it and without it.
pub proof fn law_step_of_one(part: Seq<char>, min: usize, max: usize)
    requires
        !part.contains('/'),
        valid_item(part),
        valid_item(with_step(part, 1)),
    ensures
        item_failure(with_step(part, 1), min, max) == item_failure(part, min, max),
        forall|value: int| #[trigger]
            item_selects(with_step(part, 1), min, max, value) <==> item_selects(part, min, max, value),
{
    lemma_item_with_step(part, 1, min, max);
    lemma_absent(part, '/');
}

/// A step of one changes nothing in `*` and in a range.
pub proof fn law_step_of_one_in_ranges(start: usize, end: usize, min: usize, max: usize)
    requires
        min <= start < max,
        min <= end < max,
    ensures
        item_failure(with_step(wildcard(), 1), min, max) is None,
        forall|value: int| #[trigger]
            item_selects(with_step(wildcard(), 1), min, max, value) <==> item_selects(
                wildcard(),
                min,
                max,
                value,
            ),
        item_failure(with_step(range_text(start, end), 1), min, max) is None,
        forall|value: int| #[trigger]
            item_selects(with_step(range_text(start, end), 1), min, max, value) <==> item_selects(
                range_text(start, end),
                min,
                max,
                value,
            ),
{
    law_wildcard(min, max);
    law_range(start, end, min, max);
    law_wildcard_with_step(1, min, max);
    law_range_with_step(start, end, 1, min, max);
}

/// A list fails as its first half does, or, if that does not fail, as its second half does.
proof fn lemma_items_of_both(first: Seq<Seq<char>>, second: Seq<Seq<char>>, min: usize, max: usize)
    ensures
        items_failure(first + second, min, max) == earlier(
            items_failure(first, min, max),
            items_failure(second, min, max),
        ),
    decreases second.len(),
{
    let both = first + second;
    if second.len() == 0 {
        assert(both =~= first);
    } else {
        assert(both.drop_last() =~= first + second.drop_last());
        lemma_items_of_both(first, second.drop_last(), min, max);
    }
}

/// A field that is an item selects what the item selects, and fails as it does.
pub proof fn law_field_of_one_item(item: Seq<char>, min: usize, max: usize)
    requires
        !item.contains(','),
    ensures
        field_failure(item, min, max) == item_failure(item, min, max),
        forall|value: int| #[trigger]
            field_selects(item, min, max, value) <==> item_selects(item, min, max, value),
{
    let items = split(item, ',');
    law_split_of_one_piece(item, ',');
    assert(items[0] == item);
    assert(items.drop_last() =~= Seq::<Seq<char>>::empty());
    assert(items_failure(items.drop_last(), min, max) is None);
}

/// Two fields with a comma between them.
pub open spec fn list_text(first: Seq<char>, second: Seq<char>) -> Seq<char> {
    first + seq![','] + second
}

/// A list selects what one of its halves selects, and fails as the first half that fails does.
pub proof fn law_list(first: Seq<char>, second: Seq<char>, min: usize, max: usize)
    ensures
        field_failure(list_text(first, second), min, max) == earlier(
            field_failure(first, min, max),
            field_failure(second, min, max),
        ),
        forall|value: int| #[trigger]
            field_selects(list_text(first, second), min, max, value) <==> field_selects(
                first,
                min,
                max,
                value,
            ) || field_selects(second, min, max, value),
{
    let a = split(first, ',');
    let b = split(second, ',');
    let both = split(list_text(first, second), ',');
    law_split_of_joined(first, second, ',');
    assert(both == a + b);
    lemma_items_of_both(a, b, min, max);
    assert forall|value: int| #[trigger]
        field_selects(list_text(first, second), min, max, value) <==> field_selects(first, min, max, value)
            || field_selects(second, min, max, value) by {
        if field_selects(list_text(first, second), min, max, value) {
            let k = choose|k: int|
                0 <= k < both.len() && item_selects(#[trigger] both[k], min, max, value);
            if k < a.len() {
                assert(a[k] == both[k]);
            } else {
                assert(b[k - a.len()] == both[k]);
            }
        }
        if field_selects(first, min, max, value) {
            let k = choose|k: int| 0 <= k < a.len() && item_selects(#[trigger] a[k], min, max, value);
            assert(both[k] == a[k]);
        }
        if field_selects(second, min, max, value) {
            let k = choose|k: int| 0 <= k < b.len() && item_selects(#[trigger] b[k], min, max, value);
            assert(both[a.len() + k] == b[k]);
        }
    }
}

/// A list of items fails if and only if one of them does.
proof fn lemma_some_item_fails(items: Seq<Seq<char>>, min: usize, max: usize)
    ensures
        items_failure(items, min, max) is Some <==> exists|k: int|
            0 <= k < items.len() && item_failure(#[trigger] items[k], min, max) is Some,
        items_failure(items, min, max) is Some ==> exists|k: int|
            0 <= k < items.len() && item_failure(#[trigger] items[k], min, max) == items_failure(
                items,
                min,
                max,
            ),
    decreases items.len(),
{
    if items.len() > 0 {
        let fewer = items.drop_last();
        let last = items.len() - 1;
        lemma_some_item_fails(fewer, min, max);
        assert(items[last] == items.last());
        assert(forall|k: int| 0 <= k < last ==> #[trigger] fewer[k] == items[k]);
        if items_failure(fewer, min, max) is Some {
            let k = choose|k: int|
                0 <= k < fewer.len() && item_failure(#[trigger] fewer[k], min, max) == items_failure(
                    fewer,
                    min,
                    max,
                );
            assert(item_failure(items[k], min, max) == items_failure(items, min, max));
        } else {
            assert forall|k: int| 0 <= k < last implies item_failure(#[trigger] items[k], min, max) is None by {
                assert(fewer[k] == items[k]);
            }
        }
    }
}

/// The order and the repetition of the items of a field make no difference: a field with the same
/// items as one that does not fail does not fail either, and selects the same values.
pub proof fn law_order_and_repetition(field: Seq<char>, other: Seq<char>, min: usize, max: usize)
    requires
        split(field, ',').to_set() == split(other, ',').to_set(),
        field_failure(field, min, max) is None,
    ensures
        field_failure(other, min, max) is None,
        forall|value: int| #[trigger]
            field_selects(field, min, max, value) <==> field_selects(other, min, max, value),
{
    let a = split(field, ',');
    let b = split(other, ',');
    lemma_some_item_fails(a, min, max);
    lemma_some_item_fails(b, min, max);
    assert forall|item: Seq<char>| a.contains(item) <==> b.contains(item) by {
        assert(a.to_set().contains(item) <==> b.to_set().contains(item));
    }
    if field_failure(other, min, max) is Some {
        let k = choose|k: int| 0 <= k < b.len() && item_failure(#[trigger] b[k], min, max) is Some;
        assert(b.contains(b[k]));
        let i = choose|i: int| 0 <= i < a.len() && a[i] == b[k];
        assert(item_failure(a[i], min, max) is Some);
    }
    assert forall|value: int| #[trigger]
        field_selects(field, min, max, value) <==> field_selects(other, min, max, value) by {
        if field_selects(field, min, max, value) {
            let k = choose|k: int| 0 <= k < a.len() && item_selects(#[trigger] a[k], min, max, value);
            assert(a.contains(a[k]));
            let i = choose|i: int| 0 <= i < b.len() && b[i] == a[k];
            assert(item_selects(b[i], min, max, value));
        }
        if field_selects(other, min, max, value) {
            let k = choose|k: int| 0 <= k < b.len() && item_selects(#[trigger] b[k], min, max, value);
            assert(b.contains(b[k]));
            let i = choose|i: int| 0 <= i < a.len() && a[i] == b[k];
            assert(item_selects(a[i], min, max, value));
        }
    }
}

/// Whether a text can be a field: it is not empty and holds no white space.
pub open spec fn one_word(text: Seq<char>) -> bool {
    text.len() > 0 && forall|i: int| 0 <= i < text.len() ==> !white_space(#[trigger] text[i])
}

/// Five fields with a space between each two.
pub open spec fn five_fields(
    minute: Seq<char>,
    hour: Seq<char>,
    day_of_month: Seq<char>,
    month: Seq<char>,
    day_of_week: Seq<char>,
) -> Seq<char> {
    minute + seq![' '] + (hour + seq![' '] + (day_of_month + seq![' '] + (month + seq![' ']
        + day_of_week)))
}

/// A time specification of five fields fails as the first of them that fails; and a time is in its
/// schedule if each field selects its part of the time.
pub proof fn law_five_fields(
    minute: Seq<char>,
    hour: Seq<char>,
    day_of_month: Seq<char>,
    month: Seq<char>,
    day_of_week: Seq<char>,
)
    requires
        one_word(minute),
        one_word(hour),
        one_word(day_of_month),
        one_word(month),
        one_word(day_of_week),
    ensures
        timespec_failure(five_fields(minute, hour, day_of_month, month, day_of_week)) == earlier(
            field_failure(minute, 0, 60),
            earlier(
                field_failure(hour, 0, 24),
                earlier(
                    field_failure(day_of_month, 1, 32),
                    earlier(field_failure(month, 1, 13), field_failure(day_of_week, 0, 7)),
                ),
            ),
        ),
        forall|m: int, h: int, d: int, o: int, w: int| #[trigger]
            timespec_schedule(
                five_fields(minute, hour, day_of_month, month, day_of_week),
            ).includes(m, h, d, o, w) <==> field_selects(minute, 0, 60, m) && field_selects(hour, 0, 24, h)
                && field_selects(day_of_month, 1, 32, d) && field_selects(month, 1, 13, o)
                && field_selects(day_of_week, 0, 7, w),
{
    let blank = |c: char| white_space(c);
    let last_two = month + seq![' '] + day_of_week;
    let last_three = day_of_month + seq![' '] + last_two;
    let last_four = hour + seq![' '] + last_three;
    law_words_of_one_word(minute, blank);
    law_words_of_one_word(hour, blank);
    law_words_of_one_word(day_of_month, blank);
    law_words_of_one_word(month, blank);
    law_words_of_one_word(day_of_week, blank);
    law_words_of_joined(month, ' ', day_of_week, blank);
    law_words_of_joined(day_of_month, ' ', last_two, blank);
    law_words_of_joined(hour, ' ', last_three, blank);
    law_words_of_joined(minute, ' ', last_four, blank);
    assert(text_words(five_fields(minute, hour, day_of_month, month, day_of_week)) =~= seq![
        minute,
        hour,
        day_of_month,
        month,
        day_of_week,
    ]);
}

/// Only times within the calendar are in the schedule that a time specification describes.
pub proof fn law_timespec_in_calendar(
    spec: Seq<char>,
    minute: int,
    hour: int,
    day_of_month: int,
    month: int,
    day_of_week: int,
)
    requires
        timespec_schedule(spec).includes(minute, hour, day_of_month, month, day_of_week),
    ensures
        0 <= minute < 60,
        0 <= hour < 24,
        1 <= day_of_month <= 31,
        1 <= month <= 12,
        0 <= day_of_week < 7,
{
    let fields = text_words(spec);
    law_field_in_bounds(fields[0], 0, 60, minute);
    law_field_in_bounds(fields[1], 0, 24, hour);
    law_field_in_bounds(fields[2], 1, 32, day_of_month);
    law_field_in_bounds(fields[3], 1, 13, month);
    law_field_in_bounds(fields[4], 0, 7, day_of_week);
}

/// Nothing but an explicit step of zero makes an item divide by zero.
pub proof fn law_zero_step_is_written(item: Seq<char>, min: usize, max: usize)
    requires
        item_failure(item, min, max) == Some(Failure::ZeroStep),
    ensures
        item.index_of_first('/') matches Some(slash) && usize_value(item.skip(slash + 1)) == Some(0usize),
{
}

/// A field that divides by zero holds a slash.
proof fn lemma_zero_step_in_field(field: Seq<char>, min: usize, max: usize)
    requires
        field_failure(field, min, max) == Some(Failure::ZeroStep),
    ensures
        field.contains('/'),
{
    let items = split(field, ',');
    lemma_some_item_fails(items, min, max);
    let k = choose|k: int|
        0 <= k < items.len() && item_failure(#[trigger] items[k], min, max) == items_failure(items, min, max);
    law_zero_step_is_written(items[k], min, max);
    items[k].index_of_first_ensures('/');
    law_pieces_are_parts(field, ',', k, '/');
}

/// A time specification without a slash, which has no steps, does not divide by zero.
pub proof fn law_no_slash_no_zero_step(spec: Seq<char>)
    requires
        !spec.contains('/'),
    ensures
        !zero_step(spec),
{
    let fields = text_words(spec);
    if zero_step(spec) {
        let k: int = if field_failure(fields[0], 0, 60) is Some {
            lemma_zero_step_in_field(fields[0], 0, 60);
            0
        } else if field_failure(fields[1], 0, 24) is Some {
            lemma_zero_step_in_field(fields[1], 0, 24);
            1
        } else if field_failure(fields[2], 1, 32) is Some {
            lemma_zero_step_in_field(fields[2], 1, 32);
            2
        } else if field_failure(fields[3], 1, 13) is Some {
            lemma_zero_step_in_field(fields[3], 1, 13);
            3
        } else {
            lemma_zero_step_in_field(fields[4], 0, 7);
            4
        };
        law_words_are_parts(spec, |c: char| white_space(c), k, '/');
    }
}

/// Which items are read at all. One that begins with a digit `1` to `9` or ends with `0` is; `*` is,
/// alone or with a step that begins with such a digit; what else is read is a range that begins
/// with `0`. Nothing else is, and the empty item is not.
pub proof fn law_valid_item(item: Seq<char>)
    ensures
        item.len() == 0 ==> !valid_item(item),
        item.len() > 0 && '1' <= item[0] <= '9' ==> valid_item(item),
        item.len() > 0 && item[item.len() - 1] == '0' ==> valid_item(item),
        item.len() > 0 && item[0] == '*' && item[item.len() - 1] != '0' ==> (valid_item(item) <==> item.len()
            == 1 || (item.len() > 2 && item[1] == '/' && '1' <= item[2] <= '9' && (forall|i: int|
            3 <= i < item.len() ==> decimal_digit(#[trigger] item[i])))),
        item.len() > 0 && item[0] == '0' && item[item.len() - 1] != '0' && valid_item(item) ==> item.len()
            > 2 && item[1] == '-' && '0' <= item[2] <= '9' && (forall|i: int|
            3 <= i < item.len() ==> (decimal_digit(#[trigger] item[i]) || item[i] == '/')),
        item.len() > 0 && !('0' <= item[0] <= '9') && item[0] != '*' && item[item.len() - 1] != '0'
            ==> !valid_item(item),
{
    if item.len() > 0 && range_form(item) && !('1' <= item[0] <= '9') {
        let (dash, end) = choose|dash: int, end: int| range_form_at(item, dash, end);
        let start = item.take(dash);
        assert(start.len() == dash && natural_form(start));
        assert(seq!['0'].len() == 1);
        assert(start[0] == item[0]);
        assert(start == seq!['0']);
        assert(dash == 1);
        let number = item.subrange(2, end);
        let tail = item.skip(end);
        assert(number[0] == item[2]);
        assert forall|i: int| 3 <= i < item.len() implies (decimal_digit(#[trigger] item[i]) || item[i]
            == '/') by {
            if i < end {
                assert(number[i - 2] == item[i]);
            } else {
                assert(tail[i - end] == item[i]);
                if i > end {
                    assert(tail.skip(1)[i - end - 1] == item[i]);
                }
            }
        }
    }
    if item.len() > 0 && item[0] == '*' {
        assert(!range_form(item)) by {
            if range_form(item) {
                let (dash, end) = choose|dash: int, end: int| range_form_at(item, dash, end);
                let start = item.take(dash);
                assert(start.len() == dash && natural_form(start));
                assert(seq!['0'].len() == 1 && seq!['0'][0] == '0');
                assert(start[0] == item[0]);
            }
        }
        let tail = item.skip(1);
        if item.len() > 1 {
            assert(tail[0] == item[1]);
            let digits = tail.skip(1);
            assert(forall|i: int| 0 <= i < digits.len() ==> #[trigger] digits[i] == item[i + 2]);
            if positive_form(digits) {
                assert forall|i: int| 3 <= i < item.len() implies decimal_digit(#[trigger] item[i]) by {
                    assert(digits[i - 2] == item[i]);
                }
            }
            if item.len() > 2 && '1' <= item[2] <= '9' && (forall|i: int|
                3 <= i < item.len() ==> decimal_digit(#[trigger] item[i])) {
                assert(digits[0] == item[2]);
                assert forall|i: int| 1 <= i < digits.len() implies decimal_digit(#[trigger] digits[i]) by {
                    assert(digits[i] == item[i + 2]);
                }
            }
        }
    }
    if item.len() == 0 && range_form(item) {
        let (dash, end) = choose|dash: int, end: int| range_form_at(item, dash, end);
        assert(false);
    }
}

/// An item that is not read is reported as it stands, and selects nothing.
pub proof fn law_invalid_item_is_refused(item: Seq<char>, min: usize, max: usize)
    requires
        !valid_item(item),
    ensures
        item_failure(item, min, max) == Some(Failure::Format(item)),
        forall|value: int| !#[trigger] item_selects(item, min, max, value),
{
}

/// An item that fails selects nothing.
pub proof fn law_failed_item_selects_nothing(item: Seq<char>, min: usize, max: usize, value: int)
    requires
        item_failure(item, min, max) is Some,
    ensures
        !item_selects(item, min, max, value),
{
}

/// An item with neither a step nor a dash, however its number is written: it selects that number,
/// or is refused if that is out of bounds or is no number.
pub proof fn law_number_text(item: Seq<char>, min: usize, max: usize)
    requires
        valid_item(item),
        !item.contains('/'),
        !item.contains('-'),
        item != seq!['*'],
    ensures
        match usize_value(item) {
            None => item_failure(item, min, max) == Some(Failure::Number(item)),
            Some(n) => if min <= n < max {
                item_failure(item, min, max) is None && forall|value: int| #[trigger]
                    item_selects(item, min, max, value) <==> value == n
            } else {
                item_failure(item, min, max) == Some(Failure::Format(item))
            },
        },
{
    lemma_absent(item, '/');
    lemma_absent(item, '-');
}

/// The same with a step, however it is written: the number is selected if the step divides it. The
/// step is looked at first.
pub proof fn law_number_text_with_step(
    part: Seq<char>,
    step_text: Seq<char>,
    item: Seq<char>,
    min: usize,
    max: usize,
)
    requires
        item == part + seq!['/'] + step_text,
        valid_item(item),
        !part.contains('/'),
        !part.contains('-'),
        part != seq!['*'],
    ensures
        match (usize_value(step_text), usize_value(part)) {
            (None, _) => item_failure(item, min, max) == Some(Failure::Number(step_text)),
            (Some(_), None) => item_failure(item, min, max) == Some(Failure::Number(part)),
            (Some(step), Some(n)) => if !(min <= n < max) {
                item_failure(item, min, max) == Some(Failure::Format(part))
            } else if step == 0 {
                item_failure(item, min, max) == Some(Failure::ZeroStep)
            } else {
                item_failure(item, min, max) is None && forall|value: int| #[trigger]
                    item_selects(item, min, max, value) <==> value == n && value % (step as int) == 0
            },
        },
{
    lemma_first_of_joined(part, '/', step_text);
    lemma_absent(part, '-');
}

/// A range without a step, however its numbers are written: it selects what lies from the first
/// through the second, or is refused if one of them is no number, the first before the second, or
/// is out of bounds.
pub proof fn law_range_text(start_text: Seq<char>, end_text: Seq<char>, item: Seq<char>, min: usize, max: usize)
    requires
        item == start_text + seq!['-'] + end_text,
        valid_item(item),
        !item.contains('/'),
        !start_text.contains('-'),
    ensures
        match (usize_value(start_text), usize_value(end_text)) {
            (None, _) => item_failure(item, min, max) == Some(Failure::Number(start_text)),
            (Some(_), None) => item_failure(item, min, max) == Some(Failure::Number(end_text)),
            (Some(start), Some(end)) => if !(min <= start < max && min <= end < max) {
                item_failure(item, min, max) == Some(Failure::Format(item))
            } else {
                item_failure(item, min, max) is None && forall|value: int| #[trigger]
                    item_selects(item, min, max, value) <==> start <= value <= end
            },
        },
{
    lemma_absent(item, '/');
    lemma_first_of_joined(start_text, '-', end_text);
    assert(item[start_text.len() as int] == '-');
    assert(wildcard()[0] == '*');
    if item == wildcard() {
        assert(item.len() == 1);
    }
}

/// The same with a step, however it is written: of the range, the multiples of the step are
/// selected. The step is looked at first. A step of zero divides by zero unless the range is empty.
pub proof fn law_range_text_with_step(
    start_text: Seq<char>,
    end_text: Seq<char>,
    step_text: Seq<char>,
    item: Seq<char>,
    min: usize,
    max: usize,
)
    requires
        item == start_text + seq!['-'] + end_text + seq!['/'] + step_text,
        valid_item(item),
        !(start_text + seq!['-'] + end_text).contains('/'),
        !start_text.contains('-'),
    ensures
        match (usize_value(step_text), usize_value(start_text), usize_value(end_text)) {
            (None, _, _) => item_failure(item, min, max) == Some(Failure::Number(step_text)),
            (Some(_), None, _) => item_failure(item, min, max) == Some(Failure::Number(start_text)),
            (Some(_), Some(_), None) => item_failure(item, min, max) == Some(Failure::Number(end_text)),
            (Some(step), Some(start), Some(end)) => if !(min <= start < max && min <= end < max) {
                item_failure(item, min, max) == Some(
                    Failure::Format(start_text + seq!['-'] + end_text),
                )
            } else if step == 0 && start <= end {
                item_failure(item, min, max) == Some(Failure::ZeroStep)
            } else {
                item_failure(item, min, max) is None && forall|value: int| #[trigger]
                    item_selects(item, min, max, value) <==> start <= value <= end && value % (step as int)
                        == 0
            },
        },
{
    let part = start_text + seq!['-'] + end_text;
    lemma_first_of_joined(part, '/', step_text);
    lemma_first_of_joined(start_text, '-', end_text);
    assert(part[start_text.len() as int] == '-');
    assert(wildcard()[0] == '*');
    if part == wildcard() {
        assert(part.len() == 1);
    }
}

/// `*` with a step, however it is written: the multiples of the step within the bounds are
/// selected. A step of zero divides by zero unless there is no value.
pub proof fn law_wildcard_with_step_text(step_text: Seq<char>, item: Seq<char>, min: usize, max: usize)
    requires
        item == seq!['*', '/'] + step_text,
        valid_item(item),
    ensures
        match usize_value(step_text) {
            None => item_failure(item, min, max) == Some(Failure::Number(step_text)),
            Some(step) => if step == 0 && min < max {
                item_failure(item, min, max) == Some(Failure::ZeroStep)
            } else {
                item_failure(item, min, max) is None && forall|value: int| #[trigger]
                    item_selects(item, min, max, value) <==> min <= value < max && value % (step as int)
                        == 0
            },
        },
{
    assert(item =~= wildcard() + seq!['/'] + step_text);
    assert(!wildcard().contains('/'));
    lemma_first_of_joined(wildcard(), '/', step_text);
}

/// The first item of a list that fails is the one that is reported, whatever stands around it; a
/// list without such an item does not fail, and selects what its items select.
pub proof fn law_first_failing_item(
    before: Seq<char>,
    item: Seq<char>,
    after: Seq<char>,
    min: usize,
    max: usize,
)
    requires
        !item.contains(','),
    ensures
        field_failure(before + seq![','] + item, min, max) == (if field_failure(before, min, max) is Some {
            field_failure(before, min, max)
        } else {
            item_failure(item, min, max)
        }),
        field_failure(item + seq![','] + after, min, max) == (if item_failure(item, min, max) is Some {
            item_failure(item, min, max)
        } else {
            field_failure(after, min, max)
        }),
        forall|value: int| #[trigger]
            field_selects(list_text(item, after), min, max, value) <==> item_selects(item, min, max, value)
                || field_selects(after, min, max, value),
{
    law_field_of_one_item(item, min, max);
    law_list(before, item, min, max);
    law_list(item, after, min, max);
}

/// A time specification that does not have five words is reported as it stands.
pub proof fn law_wrong_number_of_fields(spec: Seq<char>)
    requires
        text_words(spec).len() != 5,
    ensures
        timespec_failure(spec) == Some(Failure::Format(spec)),
{
}

/// The fields in order, each with its bounds: the first that fails is reported, and one that does
/// not fail lets the next be looked at.
pub proof fn law_first_failing_field(spec: Seq<char>)
    requires
        text_words(spec).len() == 5,
    ensures
        field_failure(text_words(spec)[0], 0, 60) is Some ==> timespec_failure(spec) == field_failure(
            text_words(spec)[0],
            0,
            60,
        ),
        field_failure(text_words(spec)[0], 0, 60) is None && field_failure(text_words(spec)[1], 0, 24) is Some
            ==> timespec_failure(spec) == field_failure(text_words(spec)[1], 0, 24),
        field_failure(text_words(spec)[0], 0, 60) is None && field_failure(text_words(spec)[1], 0, 24) is None
            && field_failure(text_words(spec)[2], 1, 32) is Some ==> timespec_failure(spec) == field_failure(
            text_words(spec)[2],
            1,
            32,
        ),
        field_failure(text_words(spec)[0], 0, 60) is None && field_failure(text_words(spec)[1], 0, 24) is None
            && field_failure(text_words(spec)[2], 1, 32) is None && field_failure(
            text_words(spec)[3],
            1,
            13,
        ) is Some ==> timespec_failure(spec) == field_failure(text_words(spec)[3], 1, 13),
        field_failure(text_words(spec)[0], 0, 60) is None && field_failure(text_words(spec)[1], 0, 24) is None
            && field_failure(text_words(spec)[2], 1, 32) is None && field_failure(
            text_words(spec)[3],
            1,
            13,
        ) is None ==> timespec_failure(spec) == field_failure(text_words(spec)[4], 0, 7),
{
}

/// A time is in the schedule of a time specification if and only if each of the five fields
/// selects its own part of the time.
pub proof fn law_time_in_schedule(spec: Seq<char>, time: LocalTime)
    requires
        text_words(spec).len() == 5,
    ensures
        timespec_schedule(spec).includes_time(time) <==> {
            &&& field_selects(text_words(spec)[0], 0, 60, time.minute as int)
            &&& field_selects(text_words(spec)[1], 0, 24, time.hour as int)
            &&& field_selects(text_words(spec)[2], 1, 32, time.day_of_month as int)
            &&& field_selects(text_words(spec)[3], 1, 13, time.month as int)
            &&& field_selects(text_words(spec)[4], 0, 7, time.day_of_week as int)
        },
{
}

/// The same of a specification that is written as five fields with any white space between them.
pub proof fn law_time_in_five_fields(
    minute: Seq<char>,
    hour: Seq<char>,
    day_of_month: Seq<char>,
    month: Seq<char>,
    day_of_week: Seq<char>,
    gaps: (char, char, char, char),
    spec: Seq<char>,
    time: LocalTime,
)
    requires
        one_word(minute),
        one_word(hour),
        one_word(day_of_month),
        one_word(month),
        one_word(day_of_week),
        white_space(gaps.0),
        white_space(gaps.1),
        white_space(gaps.2),
        white_space(gaps.3),
        spec == minute + seq![gaps.0] + (hour + seq![gaps.1] + (day_of_month + seq![gaps.2] + (month + seq![
            gaps.3,
        ] + day_of_week))),
    ensures
        text_words(spec) == seq![minute, hour, day_of_month, month, day_of_week],
        timespec_schedule(spec).includes_time(time) <==> {
            &&& field_selects(minute, 0, 60, time.minute as int)
            &&& field_selects(hour, 0, 24, time.hour as int)
            &&& field_selects(day_of_month, 1, 32, time.day_of_month as int)
            &&& field_selects(month, 1, 13, time.month as int)
            &&& field_selects(day_of_week, 0, 7, time.day_of_week as int)
        },
{
    let last_two = month + seq![gaps.3] + day_of_week;
    let last_three = day_of_month + seq![gaps.2] + last_two;
    let last_four = hour + seq![gaps.1] + last_three;
    law_text_words(minute, gaps.0, last_four);
    law_text_words(hour, gaps.1, last_three);
    law_text_words(day_of_month, gaps.2, last_two);
    law_text_words(month, gaps.3, day_of_week);
    law_text_words(day_of_week, ' ', Seq::empty());
    assert(text_words(spec) =~= seq![minute, hour, day_of_month, month, day_of_week]);
    law_time_in_schedule(spec, time);
}

/// A schedule is held against all five parts of a time.
pub proof fn law_every_part_counts(schedule: Schedule, time: LocalTime)
    ensures
        schedule.includes_time(time) <==> {
            &&& schedule.minutes.contains(time.minute as int)
            &&& schedule.hours.contains(time.hour as int)
            &&& schedule.days_of_month.contains(time.day_of_month as int)
            &&& schedule.months.contains(time.month as int)
            &&& schedule.days_of_week.contains(time.day_of_week as int)
        },
        schedule.includes_time(time) <==> schedule.includes(
            time.minute as int,
            time.hour as int,
            time.day_of_month as int,
            time.month as int,
            time.day_of_week as int,
        ),
{
}

/// To divide by zero is to fail, and in no other way.
pub proof fn law_zero_step_is_a_failure(spec: Seq<char>)
    ensures
        zero_step(spec) <==> timespec_failure(spec) == Some(Failure::ZeroStep),
{
}

} // verus!
