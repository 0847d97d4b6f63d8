//! Time specifications in the manner of `crontab`.
use crate::clock::{local_now, LocalTime};
use crate::pattern::regex_is_match;
use crate::text::{
    find_char, parse_usize, split, split_on, split_words, text_words, usize_parse_error,
};
use crate::timespec::{
    field_failure, field_selects, item_reading, item_selects, items_failure, law_field_in_bounds,
    law_no_slash_no_zero_step, part_reading, stepped, timespec_failure,
    timespec_schedule, valid_item, zero_step, Failure, Reading, Schedule, Selection, NUMBER, RANGE,
    WILDCARD,
};
use std::num::ParseIntError;
use vstd::array::array_fill_for_copy_types;
use vstd::pervasive::unreached;
use vstd::prelude::*;

verus! {

/// Whether each number is larger than the one before it.
pub open spec fn increasing(values: Seq<usize>) -> bool {
    forall|i: int, j: int| 0 <= i < j < values.len() ==> values[i] < values[j]
}

/// Increasing values are determined by which values they are. Fields that select the same are
/// therefore read as the same list.
pub proof fn law_increasing_values_are_determined(values: Seq<usize>, others: Seq<usize>)
    requires
        increasing(values),
        increasing(others),
        forall|n: usize| values.contains(n) <==> others.contains(n),
    ensures
        values == others,
    decreases values.len(),
{
    if values.len() == 0 {
        if others.len() > 0 {
            assert(others.contains(others[0]));
        }
    } else {
        assert(values.contains(values.last()));
        assert(others.contains(values.last()));
        assert(others.contains(others.last()));
        assert(values.contains(others.last()));
        assert(values.last() == others.last());
        let fewer = values.drop_last();
        let fewer_others = others.drop_last();
        assert forall|n: usize| fewer.contains(n) <==> fewer_others.contains(n) by {
            lemma_without_last(values, n);
            lemma_without_last(others, n);
        }
        law_increasing_values_are_determined(fewer, fewer_others);
        assert(values =~= fewer.push(values.last()));
        assert(others =~= fewer_others.push(others.last()));
    }
}

/// What is left of increasing values without the last.
proof fn lemma_without_last(values: Seq<usize>, n: usize)
    requires
        increasing(values),
        values.len() > 0,
    ensures
        values.drop_last().contains(n) <==> values.contains(n) && n != values.last(),
{
    if values.drop_last().contains(n) {
        let k = choose|k: int| 0 <= k < values.len() - 1 && values.drop_last()[k] == n;
        assert(values[k] == n);
    }
    if values.contains(n) && n != values.last() {
        let k = choose|k: int| 0 <= k < values.len() && values[k] == n;
        assert(values.drop_last()[k] == n);
    }
}

/// The reasons for which a time specification is refused.
#[derive(Debug)]
pub enum ParseError {
    InvalidFormat(String),
    ParseIntError(ParseIntError),
}

impl ParseError {
    /// Whether this error reports `failure`.
    pub open spec fn reports(self, failure: Failure) -> bool {
        match (self, failure) {
            (ParseError::InvalidFormat(text), Failure::Format(culprit)) => text@ == culprit,
            (ParseError::ParseIntError(cause), Failure::Number(culprit)) => cause
                == usize_parse_error(culprit),
            _ => false,
        }
    }
}

impl From<ParseIntError> for ParseError {
    fn from(err: ParseIntError) -> (error: ParseError) {
        ParseError::ParseIntError(err)
    }
}

impl vstd::std_specs::convert::FromSpecImpl<ParseIntError> for ParseError {
    open spec fn obeys_from_spec() -> bool {
        true
    }

    open spec fn from_spec(err: ParseIntError) -> ParseError {
        ParseError::ParseIntError(err)
    }
}

/// What stops the reading of a field: an error to report, or a division by zero.
#[derive(Debug)]
enum Fault {
    Refused(ParseError),
    ZeroStep,
}

impl Fault {
    spec fn is(self, failure: Failure) -> bool {
        match self {
            Fault::Refused(error) => error.reports(failure),
            Fault::ZeroStep => failure == Failure::ZeroStep,
        }
    }
}

/// Tells whether an item is read at all.
fn validate_str(input: &str) -> (valid: bool)
    ensures
        valid == valid_item(input@),
{
    matches!(regex_is_match(NUMBER, input), Ok(true))
        || matches!(regex_is_match(RANGE, input), Ok(true))
        || matches!(regex_is_match(WILDCARD, input), Ok(true))
}

/// Whether the result of reading an item is the one that is due.
spec fn reads(result: Result<Vec<usize>, Fault>, reading: Reading) -> bool {
    match (result, reading) {
        (Ok(values), Reading::Values(selection)) => increasing(values@) && forall|n: usize| #[trigger]
            values@.contains(n) <==> selection.selects(n as int),
        (Err(fault), Reading::Fails(failure)) => fault.is(failure),
        _ => false,
    }
}

/// Lists the values of a selection.
fn list_values(first: usize, end: usize, step: Option<usize>) -> (result: Result<Vec<usize>, Fault>)
    ensures
        reads(result, stepped(first as int, end as int, step)),
{
    let mut values: Vec<usize> = Vec::new();
    let mut i: usize = first;
    while i < end
        invariant
            first <= i,
            i <= end || i == first,
            step == Some(0usize) ==> i == first,
            increasing(values@),
            forall|n: usize| #[trigger]
                values@.contains(n) <==> (Selection { first: first as int, end: i as int, step }).selects(
                    n as int,
                ),
        decreases end - i,
    {
        let chosen = match step {
            None => true,
            Some(step) => {
                if step == 0 {
                    return Err(Fault::ZeroStep);
                }
                i % step == 0
            },
        };
        let ghost before = values@;
        if chosen {
            values.push(i);
            proof {
                assert forall|k: int| 0 <= k < before.len() implies before[k] < i by {
                    assert(before.contains(before[k]));
                }
            }
        }
        proof {
            assert forall|n: usize| #[trigger]
                values@.contains(n) <==> (Selection {
                    first: first as int,
                    end: i + 1,
                    step,
                }).selects(n as int) by {
                if before.contains(n) {
                    let k = choose|k: int| 0 <= k < before.len() && before[k] == n;
                    assert(values@[k] == n);
                }
                if chosen && n == i {
                    assert(values@[before.len() as int] == n);
                }
            }
        }
        i += 1;
    }
    Ok(values)
}

/// Reads the part of an item before its step.
fn parse_part(part: &str, step: Option<usize>, min: usize, max: usize) -> (result: Result<Vec<usize>, Fault>)
    ensures
        reads(result, part_reading(part@, step, min, max)),
{
    proof {
        if part@.len() == 1 && part@[0] == '*' {
            assert(part@ =~= seq!['*']);
        }
    }
    if part.unicode_len() == 1 && part.get_char(0) == '*' {
        return list_values(min, max, step);
    }
    match find_char(part, '-') {
        Some(dash) => {
            let length = part.unicode_len();
            let before = part.substring_char(0, dash);
            let after = part.substring_char(dash + 1, length);
            proof {
                assert(before@ =~= part@.take(dash as int));
                assert(after@ =~= part@.skip(dash + 1));
            }
            let start: usize = match parse_usize(before) {
                Ok(number) => number,
                Err(cause) => return Err(Fault::Refused(ParseError::from(cause))),
            };
            let end: usize = match parse_usize(after) {
                Ok(number) => number,
                Err(cause) => return Err(Fault::Refused(ParseError::from(cause))),
            };
            if start >= max || start < min || end >= max || end < min {
                return Err(Fault::Refused(ParseError::InvalidFormat(part.to_string())));
            }
            list_values(start, end + 1, step)
        },
        None => {
            let value: usize = match parse_usize(part) {
                Ok(number) => number,
                Err(cause) => return Err(Fault::Refused(ParseError::from(cause))),
            };
            if value >= max || value < min {
                return Err(Fault::Refused(ParseError::InvalidFormat(part.to_string())));
            }
            list_values(value, value + 1, step)
        },
    }
}

/// Reads an item: a number, a range or a wildcard, with or without a step.
fn parse_spec(spec: &str, min: usize, max: usize) -> (result: Result<Vec<usize>, Fault>)
    ensures
        reads(result, item_reading(spec@, min, max)),
{
    if !validate_str(spec) {
        return Err(Fault::Refused(ParseError::InvalidFormat(spec.to_string())));
    }
    match find_char(spec, '/') {
        Some(slash) => {
            let length = spec.unicode_len();
            let part = spec.substring_char(0, slash);
            let step_text = spec.substring_char(slash + 1, length);
            proof {
                assert(part@ =~= spec@.take(slash as int));
                assert(step_text@ =~= spec@.skip(slash + 1));
            }
            match parse_usize(step_text) {
                Ok(step) => parse_part(part, Some(step), min, max),
                Err(cause) => Err(Fault::Refused(ParseError::from(cause))),
            }
        },
        None => parse_part(spec, None, min, max),
    }
}

/// Puts `value` where it belongs among increasing values, unless it is there already.
fn insert_value(values: &mut Vec<usize>, value: usize)
    requires
        increasing(old(values)@),
    ensures
        increasing(final(values)@),
        forall|n: usize| #[trigger]
            final(values)@.contains(n) <==> (old(values)@.contains(n) || n == value),
{
    let ghost before = values@;
    let mut place: usize = 0;
    while place < values.len() && values[place] < value
        invariant
            values@ == before,
            place <= before.len(),
            forall|k: int| 0 <= k < place ==> before[k] < value,
        decreases before.len() - place,
    {
        place += 1;
    }
    if place < values.len() && values[place] == value {
        return;
    }
    values.insert(place, value);
    proof {
        let after = values@;
        assert(after == before.insert(place as int, value));
        assert(forall|k: int| place <= k < before.len() ==> value < before[k]);
        assert forall|n: usize| #[trigger]
            after.contains(n) <==> (before.contains(n) || n == value) by {
            if before.contains(n) {
                let k = choose|k: int| 0 <= k < before.len() && before[k] == n;
                assert(after[if k < place { k } else { k + 1 }] == n);
            }
            if n == value {
                assert(after[place as int] == n);
            }
            if after.contains(n) && n != value {
                let k = choose|k: int| 0 <= k < after.len() && after[k] == n;
                assert(before[if k < place { k } else { k - 1 }] == n);
            }
        }
    }
}

/// Reads a field: all the values of its items, each of them once and in order.
fn parse_multiple(spec: &str, min: usize, max: usize) -> (result: Result<Vec<usize>, Fault>)
    ensures
        match (result, field_failure(spec@, min, max)) {
            (Ok(values), None) => increasing(values@) && forall|n: usize| #[trigger]
                values@.contains(n) <==> field_selects(spec@, min, max, n as int),
            (Err(fault), Some(failure)) => fault.is(failure),
            _ => false,
        },
{
    let items = split_on(spec, ',');
    let ghost texts = split(spec@, ',');
    proof {
        assert(texts.len() == items@.len());
        assert forall|k: int| 0 <= k < items@.len() implies items@[k]@ == #[trigger] texts[k] by {
            assert(items@.map_values(|piece: &str| piece@)[k] == items@[k]@);
        }
    }
    let mut values: Vec<usize> = Vec::new();
    let mut i: usize = 0;
    while i < items.len()
        invariant
            texts == split(spec@, ','),
            texts.len() == items@.len(),
            forall|k: int| 0 <= k < items@.len() ==> items@[k]@ == #[trigger] texts[k],
            i <= items@.len(),
            items_failure(texts.take(i as int), min, max) is None,
            increasing(values@),
            forall|n: usize| #[trigger]
                values@.contains(n) <==> exists|k: int|
                    0 <= k < i && item_selects(#[trigger] texts[k], min, max, n as int),
        decreases items@.len() - i,
    {
        proof {
            assert(texts.take(i + 1).drop_last() =~= texts.take(i as int));
            assert(texts.take(i + 1).last() == items@[i as int]@);
        }
        match parse_spec(items[i], min, max) {
            Ok(matches) => {
                let ghost before = values@;
                let mut j: usize = 0;
                while j < matches.len()
                    invariant
                        j <= matches@.len(),
                        increasing(values@),
                        forall|n: usize| #[trigger]
                            values@.contains(n) <==> (before.contains(n) || exists|k: int|
                                0 <= k < j && #[trigger] matches@[k] == n),
                    decreases matches@.len() - j,
                {
                    insert_value(&mut values, matches[j]);
                    j += 1;
                }
                proof {
                    assert forall|n: usize| #[trigger]
                        values@.contains(n) <==> exists|k: int|
                            0 <= k < i + 1 && item_selects(#[trigger] texts[k], min, max, n as int) by {
                        assert(matches@.contains(n) <==> item_selects(
                            texts[i as int],
                            min,
                            max,
                            n as int,
                        ));
                        if matches@.contains(n) {
                            let k = choose|k: int| 0 <= k < matches@.len() && matches@[k] == n;
                            assert(matches@[k] == n);
                        }
                    }
                }
            },
            Err(fault) => {
                proof {
                    lemma_failure_of_prefix(texts, i + 1, min, max);
                }
                return Err(fault);
            },
        }
        i += 1;
    }
    proof {
        assert(texts.take(i as int) =~= texts);
    }
    Ok(values)
}

/// A list of items fails as its first items do, if they fail.
proof fn lemma_failure_of_prefix(items: Seq<Seq<char>>, count: int, min: usize, max: usize)
    requires
        0 <= count <= items.len(),
        items_failure(items.take(count), min, max) is Some,
    ensures
        items_failure(items, min, max) == items_failure(items.take(count), min, max),
    decreases items.len(),
{
    if count < items.len() {
        assert(items.drop_last().take(count) =~= items.take(count));
        lemma_failure_of_prefix(items.drop_last(), count, min, max);
    } else {
        assert(items.take(count) =~= items);
    }
}

/// Marks the values, counted from `first`, in an array.
fn mark<const N: usize>(values: &Vec<usize>, first: usize) -> (marks: [bool; N])
    requires
        forall|n: usize| #[trigger] values@.contains(n) ==> first <= n < first + N,
    ensures
        forall|i: int|
            0 <= i < N ==> (#[trigger] marks@[i] <==> exists|k: int|
                0 <= k < values@.len() && #[trigger] values@[k] == first + i),
{
    let mut marks: [bool; N] = array_fill_for_copy_types(false);
    let mut j: usize = 0;
    while j < values.len()
        invariant
            forall|n: usize| #[trigger] values@.contains(n) ==> first <= n < first + N,
            j <= values@.len(),
            forall|i: int|
                0 <= i < N ==> (#[trigger] marks@[i] <==> exists|k: int|
                    0 <= k < j && #[trigger] values@[k] == first + i),
        decreases values@.len() - j,
    {
        let ghost before = marks@;
        proof {
            assert(values@.contains(values@[j as int]));
        }
        let place: usize = values[j] - first;
        marks[place] = true;
        proof {
            assert(marks@ =~= before.update(place as int, true));
        }
        j += 1;
    }
    marks
}

/// A schedule with the accuracy of a minute.
#[derive(Debug)]
pub struct Crontab {
    minute: [bool; 60],
    hour: [bool; 24],
    day_of_month: [bool; 31],
    month: [bool; 12],
    day_of_week: [bool; 7],
}

impl View for Crontab {
    type V = Schedule;

    closed spec fn view(&self) -> Schedule {
        Schedule {
            minutes: Set::new(|v: int| 0 <= v < 60 && self.minute@[v]),
            hours: Set::new(|v: int| 0 <= v < 24 && self.hour@[v]),
            days_of_month: Set::new(|v: int| 1 <= v < 32 && self.day_of_month@[v - 1]),
            months: Set::new(|v: int| 1 <= v < 13 && self.month@[v - 1]),
            days_of_week: Set::new(|v: int| 0 <= v < 7 && self.day_of_week@[v]),
        }
    }
}

impl Clone for Crontab {
    fn clone(&self) -> (copy: Crontab)
        ensures
            copy@ == self@,
    {
        Crontab {
            minute: self.minute,
            hour: self.hour,
            day_of_month: self.day_of_month,
            month: self.month,
            day_of_week: self.day_of_week,
        }
    }
}

/// The marks of a field that was read are the values that it selects.
proof fn lemma_marks<const N: usize>(
    field: Seq<char>,
    min: usize,
    max: usize,
    values: Seq<usize>,
    marks: Seq<bool>,
)
    requires
        max == min + N,
        marks.len() == N,
        forall|n: usize| #[trigger]
            values.contains(n) <==> field_selects(field, min, max, n as int),
        forall|i: int|
            0 <= i < N ==> (#[trigger] marks[i] <==> exists|k: int|
                0 <= k < values.len() && #[trigger] values[k] == min + i),
    ensures
        Set::new(|v: int| min <= v < max && marks[v - min]) == Set::new(
            |v: int| field_selects(field, min, max, v),
        ),
{
    let marked = Set::new(|v: int| min <= v < max && marks[v - min]);
    let selected = Set::new(|v: int| field_selects(field, min, max, v));
    assert forall|v: int| marked.contains(v) <==> selected.contains(v) by {
        if field_selects(field, min, max, v) {
            law_field_in_bounds(field, min, max, v);
        }
        if min <= v < max {
            assert(values.contains(v as usize) <==> field_selects(field, min, max, v));
            if values.contains(v as usize) {
                let k = choose|k: int| 0 <= k < values.len() && values[k] == v as usize;
                assert(values[k] == min + (v - min));
            }
            if marks[v - min] {
                let k = choose|k: int| 0 <= k < values.len() && values[k] == min + (v - min);
                assert(values[k] == v as usize);
            }
        }
    }
    assert(marked =~= selected);
}

/// Reads a field and marks its values.
fn read_field<const N: usize>(field: &str, min: usize, max: usize) -> (result: Result<[bool; N], Fault>)
    requires
        max == min + N,
    ensures
        match (result, field_failure(field@, min, max)) {
            (Ok(marks), None) => Set::new(|v: int| min <= v < max && marks@[v - min]) == Set::new(
                |v: int| field_selects(field@, min, max, v),
            ),
            (Err(fault), Some(failure)) => fault.is(failure),
            _ => false,
        },
{
    match parse_multiple(field, min, max) {
        Ok(values) => {
            proof {
                assert forall|n: usize| #[trigger] values@.contains(n) implies min <= n < min + N by {
                    law_field_in_bounds(field@, min, max, n as int);
                }
            }
            let marks: [bool; N] = mark(&values, min);
            proof {
                lemma_marks::<N>(field@, min, max, values@, marks@);
            }
            Ok(marks)
        },
        Err(fault) => Err(fault),
    }
}

impl Crontab {
    /// Reads a time specification.
    fn read(spec: &str) -> (result: Result<Crontab, Fault>)
        ensures
            match (result, timespec_failure(spec@)) {
                (Ok(crontab), None) => crontab@ == timespec_schedule(spec@),
                (Err(fault), Some(failure)) => fault.is(failure),
                _ => false,
            },
    {
        let parts = split_words(spec);
        let ghost fields = text_words(spec@);
        proof {
            assert(fields.len() == parts@.len());
            assert forall|k: int| 0 <= k < parts@.len() implies parts@[k]@ == #[trigger] fields[k] by {
                assert(parts@.map_values(|word: &str| word@)[k] == parts@[k]@);
            }
        }
        if parts.len() != 5 {
            return Err(Fault::Refused(ParseError::InvalidFormat(spec.to_string())));
        }
        proof {
            assert(parts@[0]@ == fields[0]);
            assert(parts@[1]@ == fields[1]);
            assert(parts@[2]@ == fields[2]);
            assert(parts@[3]@ == fields[3]);
            assert(parts@[4]@ == fields[4]);
        }
        let minute: [bool; 60] = match read_field(parts[0], 0, 60) {
            Ok(marks) => marks,
            Err(fault) => return Err(fault),
        };
        let hour: [bool; 24] = match read_field(parts[1], 0, 24) {
            Ok(marks) => marks,
            Err(fault) => return Err(fault),
        };
        let day_of_month: [bool; 31] = match read_field(parts[2], 1, 32) {
            Ok(marks) => marks,
            Err(fault) => return Err(fault),
        };
        let month: [bool; 12] = match read_field(parts[3], 1, 13) {
            Ok(marks) => marks,
            Err(fault) => return Err(fault),
        };
        let day_of_week: [bool; 7] = match read_field(parts[4], 0, 7) {
            Ok(marks) => marks,
            Err(fault) => return Err(fault),
        };
        let crontab = Crontab { minute, hour, day_of_month, month, day_of_week };
        proof {
            let schedule = timespec_schedule(spec@);
            assert(crontab@.minutes =~= Set::new(|v: int| 0 <= v < 60 && minute@[v - 0]));
            assert(crontab@.hours =~= Set::new(|v: int| 0 <= v < 24 && hour@[v - 0]));
            assert(crontab@.days_of_week =~= Set::new(|v: int| 0 <= v < 7 && day_of_week@[v - 0]));
            assert(crontab@ =~= schedule);
        }
        Ok(crontab)
    }

    /// Reads a time specification: minute, hour, day of the month, month and day of the week.
    ///
    /// A specification that would divide by a step of zero is excluded; see
    /// [`Crontab::checked_new`].
    pub fn new(spec: &str) -> (result: Result<Crontab, ParseError>)
        requires
            !zero_step(spec@),
        ensures
            match (result, timespec_failure(spec@)) {
                (Ok(crontab), None) => crontab@ == timespec_schedule(spec@),
                (Err(error), Some(failure)) => error.reports(failure),
                _ => false,
            },
            text_words(spec@).len() != 5 ==> (result matches Err(ParseError::InvalidFormat(text)) && text@
                == spec@),
            result matches Ok(crontab) ==> forall|v: int|
                {
                    &&& #[trigger] crontab@.minutes.contains(v) <==> field_selects(
                        text_words(spec@)[0],
                        0,
                        60,
                        v,
                    )
                    &&& crontab@.hours.contains(v) <==> field_selects(text_words(spec@)[1], 0, 24, v)
                    &&& crontab@.days_of_month.contains(v) <==> field_selects(
                        text_words(spec@)[2],
                        1,
                        32,
                        v,
                    )
                    &&& crontab@.months.contains(v) <==> field_selects(text_words(spec@)[3], 1, 13, v)
                    &&& crontab@.days_of_week.contains(v) <==> field_selects(
                        text_words(spec@)[4],
                        0,
                        7,
                        v,
                    )
                },
    {
        match Crontab::read(spec) {
            Ok(crontab) => Ok(crontab),
            Err(Fault::Refused(error)) => Err(error),
            Err(Fault::ZeroStep) => unreached(),
        }
    }

    /// Reads a time specification, unless that is to divide by zero.
    pub fn checked_new(spec: &str) -> (result: Option<Result<Crontab, ParseError>>)
        ensures
            result is None <==> zero_step(spec@),
            result matches Some(read) ==> match (read, timespec_failure(spec@)) {
                (Ok(crontab), None) => crontab@ == timespec_schedule(spec@),
                (Err(error), Some(failure)) => error.reports(failure),
                _ => false,
            },
            result is None <==> timespec_failure(spec@) == Some(Failure::ZeroStep),
            text_words(spec@).len() != 5 ==> (result matches Some(Err(ParseError::InvalidFormat(text)))
                && text@ == spec@),
            result matches Some(Ok(crontab)) ==> forall|v: int|
                {
                    &&& #[trigger] crontab@.minutes.contains(v) <==> field_selects(
                        text_words(spec@)[0],
                        0,
                        60,
                        v,
                    )
                    &&& crontab@.hours.contains(v) <==> field_selects(text_words(spec@)[1], 0, 24, v)
                    &&& crontab@.days_of_month.contains(v) <==> field_selects(
                        text_words(spec@)[2],
                        1,
                        32,
                        v,
                    )
                    &&& crontab@.months.contains(v) <==> field_selects(text_words(spec@)[3], 1, 13, v)
                    &&& crontab@.days_of_week.contains(v) <==> field_selects(
                        text_words(spec@)[4],
                        0,
                        7,
                        v,
                    )
                },
    {
        if find_char(spec, '/').is_none() {
            proof {
                spec@.index_of_first_ensures('/');
                law_no_slash_no_zero_step(spec@);
            }
            return Some(Crontab::new(spec));
        }
        match Crontab::read(spec) {
            Ok(crontab) => Some(Ok(crontab)),
            Err(Fault::Refused(error)) => Some(Err(error)),
            Err(Fault::ZeroStep) => None,
        }
    }

    /// Tells whether a time is in the schedule.
    /// minute: 0-59
    /// hour: 0-23
    /// day_of_month: 1-31 where 1 is the first day of the month
    /// month: 1-12 where 1 is January, 12 is December
    /// day_of_week: 0-6 (0 is Sunday, 1 is Monday, 2 is Tuesday, and so on)
    pub fn is_match(
        &self,
        minute: usize,
        hour: usize,
        day_of_month: usize,
        month: usize,
        day_of_week: usize,
    ) -> (matched: bool)
        ensures
            matched == self@.includes(
                minute as int,
                hour as int,
                day_of_month as int,
                month as int,
                day_of_week as int,
            ),
            matched <==> {
                &&& self@.minutes.contains(minute as int)
                &&& self@.hours.contains(hour as int)
                &&& self@.days_of_month.contains(day_of_month as int)
                &&& self@.months.contains(month as int)
                &&& self@.days_of_week.contains(day_of_week as int)
            },
    {
        if minute >= 60 || hour >= 24 || day_of_month < 1 || day_of_month >= 32 || month < 1
            || month >= 13 || day_of_week >= 7 {
            return false;
        }
        self.minute[minute] && self.hour[hour] && self.day_of_month[day_of_month - 1]
            && self.month[month - 1] && self.day_of_week[day_of_week]
    }

    /// Tells whether a local time is in the schedule.
    pub fn is_match_at(&self, time: &LocalTime) -> (matched: bool)
        ensures
            matched == self@.includes_time(*time),
            matched == self@.includes(
                time.minute as int,
                time.hour as int,
                time.day_of_month as int,
                time.month as int,
                time.day_of_week as int,
            ),
            matched <==> {
                &&& self@.minutes.contains(time.minute as int)
                &&& self@.hours.contains(time.hour as int)
                &&& self@.days_of_month.contains(time.day_of_month as int)
                &&& self@.months.contains(time.month as int)
                &&& self@.days_of_week.contains(time.day_of_week as int)
            },
    {
        self.is_match(time.minute, time.hour, time.day_of_month, time.month, time.day_of_week)
    }

    /// Tells whether the current local time is in the schedule.
    pub fn is_match_now(&self) -> (matched: bool)
        ensures
            exists|now: LocalTime| now.valid() && matched == self@.includes_time(now),
    {
        let now = local_now();
        self.is_match_at(&now)
    }
}

/// Only times within the calendar are in the schedule of a `Crontab`.
pub proof fn law_schedule_in_calendar(
    crontab: Crontab,
    minute: int,
    hour: int,
    day_of_month: int,
    month: int,
    day_of_week: int,
)
    requires
        crontab@.includes(minute, hour, day_of_month, month, day_of_week),
    ensures
        0 <= minute < 60,
        0 <= hour < 24,
        1 <= day_of_month <= 31,
        1 <= month <= 12,
        0 <= day_of_week < 7,
{
}

/// An error names what is wrong: the malformed text, or the cause for which a number was not read.
/// A division by zero is never reported as an error.
pub proof fn law_error_names_its_cause(error: ParseError, failure: Failure)
    requires
        error.reports(failure),
    ensures
        match failure {
            Failure::Format(culprit) => error matches ParseError::InvalidFormat(text) && text@ == culprit,
            Failure::Number(culprit) => error matches ParseError::ParseIntError(cause) && cause
                == usize_parse_error(culprit),
            Failure::ZeroStep => false,
        },
{
}

} // verus!
