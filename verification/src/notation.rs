//! The slot notation: from a string such as `"TR5-6"` to the periods it
//! denotes.
//!
//! A notation is scanned for tokens made of a day group, a period number
//! and, optionally, a hyphen and a second period number. The scanning is
//! done by the regular expression engine (see `scan`); what is made of the
//! matches is defined and proved here.

use vstd::prelude::*;
use crate::number::{parse_period_number, period_number};
use crate::scan::{capture_all, captures_view, groups_view, regex_captures, Groups, GroupsModel};
use crate::slot::{Day, ParseError, Period};

verus! {

/// The pattern of one token: one to five day letters, a period number of
/// one or two digits and, optionally, a hyphen and the last period number
/// of a range.
pub const SLOT_PATTERN: &'static str = "([MTWRF]{1,5})(\\d{1,2})(?:-(\\d{1,2}))?";

/// The outcome of a parse, with the periods as a sequence.
pub open spec fn periods_view(outcome: Result<Vec<Period>, ParseError>) -> Result<
    Seq<Period>,
    ParseError,
> {
    match outcome {
        Ok(periods) => Ok(periods@),
        Err(e) => Err(e),
    }
}

/// The days of a day group, in the order written. The first character that
/// is no day code is the error.
pub open spec fn days_of(group: Seq<char>) -> Result<Seq<Day>, ParseError>
    decreases group.len(),
{
    if group.len() == 0 {
        Ok(Seq::empty())
    } else {
        match days_of(group.drop_last()) {
            Err(e) => Err(e),
            Ok(days) => match Day::spec_from_char(group.last()) {
                Some(day) => Ok(days.push(day)),
                None => Err(ParseError::UnknownDay(group.last())),
            },
        }
    }
}

/// The given days, each at period `number`.
pub open spec fn day_row(days: Seq<Day>, number: u8) -> Seq<Period> {
    Seq::new(days.len(), |j: int| Period(days[j], number))
}

/// The rows of `count` consecutive period numbers, the first being `start`.
pub open spec fn day_rows(days: Seq<Day>, start: u8, count: nat) -> Seq<Period>
    decreases count,
{
    if count == 0 {
        Seq::empty()
    } else {
        day_rows(days, start, (count - 1) as nat) + day_row(
            days,
            (start + count - 1) as u8,
        )
    }
}

/// Every day of `days` at every period number from `start` to `end`, both
/// included: period by period in rising order and, within a period, day by
/// day in the order given. Nothing where `end` is below `start`.
pub open spec fn span_periods(days: Seq<Day>, start: u8, end: u8) -> Seq<Period> {
    if end < start {
        Seq::empty()
    } else {
        day_rows(days, start, (end - start + 1) as nat)
    }
}

/// The text of group `i` of a match, absent also where the match has no
/// such group.
pub open spec fn group_text(groups: GroupsModel, i: int) -> Option<Seq<char>> {
    if 0 <= i < groups.len() {
        groups[i]
    } else {
        None
    }
}

/// The periods of one match. Group 1 is the day group, group 2 the first
/// period number, group 3 the last one; without group 3 the range is the
/// single period of group 2.
pub open spec fn match_periods(groups: GroupsModel) -> Result<Seq<Period>, ParseError> {
    match (group_text(groups, 1), group_text(groups, 2)) {
        (Some(day_group), Some(first)) => match period_number(first) {
            None => Err(ParseError::BadPeriodNumber),
            Some(start) => {
                let last = match group_text(groups, 3) {
                    Some(text) => period_number(text),
                    None => Some(start),
                };
                match last {
                    None => Err(ParseError::BadPeriodNumber),
                    Some(end) => match days_of(day_group) {
                        Err(e) => Err(e),
                        Ok(days) => Ok(span_periods(days, start, end)),
                    },
                }
            },
        },
        _ => Err(ParseError::IncompleteMatch),
    }
}

/// The periods of a list of matches: those of each match, one after the
/// other. The first match that has an error decides the outcome.
pub open spec fn matches_periods(found: Seq<GroupsModel>) -> Result<Seq<Period>, ParseError>
    decreases found.len(),
{
    if found.len() == 0 {
        Ok(Seq::empty())
    } else {
        match matches_periods(found.drop_last()) {
            Err(e) => Err(e),
            Ok(before) => match match_periods(found.last()) {
                Err(e) => Err(e),
                Ok(periods) => Ok(before + periods),
            },
        }
    }
}

/// What scanning `text` for `pattern` denotes: the periods of the matches
/// that the engine finds, or `BadPattern` where it rejects the pattern.
pub open spec fn pattern_periods(pattern: Seq<char>, text: Seq<char>) -> Result<
    Seq<Period>,
    ParseError,
> {
    match regex_captures(pattern, text) {
        None => Err(ParseError::BadPattern),
        Some(found) => matches_periods(found),
    }
}

/// What a slot notation denotes.
pub open spec fn notation_periods(text: Seq<char>) -> Result<Seq<Period>, ParseError> {
    pattern_periods(SLOT_PATTERN@, text)
}

/// Reads a day group letter by letter.
pub fn parse_days(group: &str) -> (days: Result<Vec<Day>, ParseError>)
    ensures
        match days {
            Ok(list) => days_of(group@) == Ok::<Seq<Day>, ParseError>(list@),
            Err(e) => days_of(group@) == Err::<Seq<Day>, ParseError>(e),
        },
{
    let n: usize = group.unicode_len();
    let mut days: Vec<Day> = Vec::new();
    let mut i: usize = 0;
    assert(group@.take(0) =~= Seq::<char>::empty());
    while i < n
        invariant
            n == group@.len(),
            i <= n,
            days_of(group@.take(i as int)) == Ok::<Seq<Day>, ParseError>(days@),
        decreases n - i,
    {
        let c = group.get_char(i);
        proof {
            let upto = group@.take(i + 1);
            assert(upto.last() == c);
            assert(upto.drop_last() =~= group@.take(i as int));
            if days_of(upto) is Err {
                lemma_days_error_stays(group@, i + 1);
            }
        }
        match Day::from_char(c) {
            Ok(day) => {
                days.push(day);
            },
            Err(e) => {
                return Err(e);
            },
        }
        i = i + 1;
    }
    assert(group@.take(n as int) =~= group@);
    Ok(days)
}

/// An error in a prefix of a day group is the error of the whole group.
pub proof fn lemma_days_error_stays(group: Seq<char>, k: int)
    requires
        0 <= k <= group.len(),
        days_of(group.take(k)) is Err,
    ensures
        days_of(group) == days_of(group.take(k)),
    decreases group.len(),
{
    if k == group.len() {
        assert(group.take(k) =~= group);
    } else {
        assert(group.drop_last().take(k) =~= group.take(k));
        lemma_days_error_stays(group.drop_last(), k);
    }
}

/// The layout of a span: it holds one row per period number, each as long
/// as the day group, and in row `r` the day at place `d` of the group
/// stands at period `start + r`. So the period numbers rise along the span
/// and the days of the group repeat within each of them.
pub proof fn lemma_day_rows_layout(days: Seq<Day>, start: u8, count: nat)
    requires
        start + count <= 256,
    ensures
        day_rows(days, start, count).len() == count * days.len(),
        forall|r: int, d: int|
            0 <= r < count && 0 <= d < days.len() ==> 0 <= r * days.len() + d < count * days.len()
                && #[trigger] day_rows(days, start, count)[r * days.len() + d] == Period(
                days[d],
                (start + r) as u8,
            ),
    decreases count,
{
    let n = days.len() as int;
    if count > 0 {
        let fewer = (count - 1) as nat;
        let before = day_rows(days, start, fewer);
        let row = day_row(days, (start + count - 1) as u8);
        lemma_day_rows_layout(days, start, fewer);
        assert(count * n == fewer * n + n) by (nonlinear_arith)
            requires
                fewer == count - 1,
        ;
        assert forall|r: int, d: int| 0 <= r < count && 0 <= d < n implies 0 <= r * n + d < count
            * n && #[trigger] day_rows(days, start, count)[r * n + d] == Period(
            days[d],
            (start + r) as u8,
        ) by {
            assert(0 <= r * n + d < count * n && (r < fewer ==> r * n + d < fewer * n) && (r
                == fewer ==> r * n + d == fewer * n + d)) by (nonlinear_arith)
                requires
                    0 <= r < count,
                    0 <= d < n,
                    fewer == count - 1,
            ;
            if r < fewer {
                assert(before[r * n + d] == Period(days[d], (start + r) as u8));
            } else {
                assert(row[d] == Period(days[d], (start + r) as u8));
            }
        }
    } else {
        assert(count * n == 0) by (nonlinear_arith)
            requires
                count == 0,
        ;
    }
}

/// Lists the periods of `days` from period `start` to period `end`.
pub fn expand_span(days: &Vec<Day>, start: u8, end: u8) -> (periods: Vec<Period>)
    ensures
        periods@ == span_periods(days@, start, end),
{
    let mut periods: Vec<Period> = Vec::new();
    if end < start {
        return periods;
    }
    let mut number: u8 = start;
    loop
        invariant_except_break
            periods@ == day_rows(days@, start, (number - start) as nat),
        invariant
            start <= number <= end,
        ensures
            periods@ == day_rows(days@, start, (end - start + 1) as nat),
        decreases end - number,
    {
        let ghost before = periods@;
        let mut j: usize = 0;
        while j < days.len()
            invariant
                j <= days.len(),
                periods@ == before + day_row(days@, number).take(j as int),
            decreases days.len() - j,
        {
            periods.push(Period(days[j], number));
            assert(periods@ =~= before + day_row(days@, number).take(j + 1));
            j = j + 1;
        }
        assert(day_row(days@, number).take(days.len() as int) =~= day_row(days@, number));
        assert(periods@ == day_rows(days@, start, (number - start + 1) as nat));
        if number == end {
            break;
        }
        number = number + 1;
    }
    periods
}

fn group_at(groups: &Groups, i: usize) -> (text: Option<&String>)
    ensures
        match text {
            Some(t) => group_text(groups_view(*groups), i as int) == Some(t@),
            None => group_text(groups_view(*groups), i as int) is None,
        },
{
    if i < groups.len() {
        match &groups[i] {
            Some(t) => Some(t),
            None => None,
        }
    } else {
        None
    }
}

/// Turns one match into its periods.
pub fn periods_of_match(groups: &Groups) -> (outcome: Result<Vec<Period>, ParseError>)
    ensures
        periods_view(outcome) == match_periods(groups_view(*groups)),
{
    let day_group = match group_at(groups, 1) {
        Some(t) => t,
        None => {
            return Err(ParseError::IncompleteMatch);
        },
    };
    let first = match group_at(groups, 2) {
        Some(t) => t,
        None => {
            return Err(ParseError::IncompleteMatch);
        },
    };
    let start: u8 = match parse_period_number(first.as_str()) {
        Some(n) => n,
        None => {
            return Err(ParseError::BadPeriodNumber);
        },
    };
    let end: u8 = match group_at(groups, 3) {
        None => start,
        Some(t) => match parse_period_number(t.as_str()) {
            Some(n) => n,
            None => {
                return Err(ParseError::BadPeriodNumber);
            },
        },
    };
    match parse_days(day_group.as_str()) {
        Err(e) => Err(e),
        Ok(days) => Ok(expand_span(&days, start, end)),
    }
}

/// An error among the first `k` matches is the error of the whole list.
pub proof fn lemma_matches_error_stays(found: Seq<GroupsModel>, k: int)
    requires
        0 <= k <= found.len(),
        matches_periods(found.take(k)) is Err,
    ensures
        matches_periods(found) == matches_periods(found.take(k)),
    decreases found.len(),
{
    if k == found.len() {
        assert(found.take(k) =~= found);
    } else {
        assert(found.drop_last().take(k) =~= found.take(k));
        lemma_matches_error_stays(found.drop_last(), k);
    }
}

/// Turns the matches of a scan into periods: the periods of each match, in
/// the order of the matches. The first match with an error ends the work
/// with that error.
pub fn periods_of_matches(found: &Vec<Groups>) -> (outcome: Result<Vec<Period>, ParseError>)
    ensures
        periods_view(outcome) == matches_periods(captures_view(*found)),
{
    let ghost model = captures_view(*found);
    let mut periods: Vec<Period> = Vec::new();
    let mut i: usize = 0;
    assert(model.take(0) =~= Seq::<GroupsModel>::empty());
    while i < found.len()
        invariant
            model == captures_view(*found),
            i <= found.len(),
            matches_periods(model.take(i as int)) == Ok::<Seq<Period>, ParseError>(periods@),
        decreases found.len() - i,
    {
        proof {
            let upto = model.take(i + 1);
            assert(upto.last() == groups_view(found@[i as int]));
            assert(upto.drop_last() =~= model.take(i as int));
        }
        match periods_of_match(&found[i]) {
            Err(e) => {
                proof {
                    lemma_matches_error_stays(model, i + 1);
                }
                return Err(e);
            },
            Ok(more) => {
                let mut more = more;
                periods.append(&mut more);
            },
        }
        i = i + 1;
    }
    assert(model.take(found.len() as int) =~= model);
    Ok(periods)
}

/// Scans `text` for the matches of `pattern` and turns them into periods.
/// The pattern is expected to have the three groups of `SLOT_PATTERN`.
pub fn parse_with_pattern(pattern: &str, text: &str) -> (outcome: Result<
    Vec<Period>,
    ParseError,
>)
    ensures
        periods_view(outcome) == pattern_periods(pattern@, text@),
{
    match capture_all(pattern, text) {
        Err(_) => Err(ParseError::BadPattern),
        Ok(found) => periods_of_matches(&found),
    }
}

/// Parses a slot notation into the periods it denotes.
///
/// Every token of `text` contributes its days at each period number of its
/// range, the period numbers rising and the days in the order written;
/// text between tokens is passed over. A notation without a token denotes
/// no period.
pub fn parse_period_string(text: &str) -> (outcome: Result<Vec<Period>, ParseError>)
    ensures
        periods_view(outcome) == notation_periods(text@),
{
    parse_with_pattern(SLOT_PATTERN, text)
}

} // verus!
