//! A schedule laid out as a timetable: one row per period number, one cell
//! per weekday.

use vstd::prelude::*;
use crate::catalog::ScheduleOptions;
use crate::generator::Slots;
use crate::schedule::Schedule;
use crate::slot::{Day, Period};

verus! {

/// One row of a timetable.
#[derive(Clone, Debug, PartialEq, Eq)]
pub struct TableRow {
    /// The period number of the row.
    pub period: u8,
    /// The class of each weekday at that period, Monday first; `None`
    /// where the slot is free.
    pub cells: Vec<Option<String>>,
}

/// The weekdays in the order of the columns.
pub open spec fn week() -> Seq<Day> {
    seq![Day::Monday, Day::Tuesday, Day::Wednesday, Day::Thursday, Day::Friday]
}

/// The class that occupies a slot, if one does.
pub open spec fn occupant(slots: Slots, slot: Period) -> Option<Seq<char>> {
    if slots.contains_key(slot) {
        Some(slots[slot])
    } else {
        None
    }
}

/// The text of a cell, where it has one.
pub open spec fn cell_view(cell: Option<String>) -> Option<Seq<char>> {
    match cell {
        Some(name) => Some(name@),
        None => None,
    }
}

/// The cells of the row of period `number`: the occupant of each weekday's
/// slot at that period.
pub open spec fn row_cells(slots: Slots, number: u8) -> Seq<Option<Seq<char>>> {
    Seq::new(5, |d: int| occupant(slots, Period(week()[d], number)))
}

/// `row` is the row of period `number` of the schedule `slots`.
pub open spec fn is_row(row: TableRow, slots: Slots, number: u8) -> bool {
    &&& row.period == number
    &&& row.cells@.len() == 5
    &&& forall|d: int| 0 <= d < 5 ==> cell_view(#[trigger] row.cells@[d]) == row_cells(slots, number)[d]
}

/// The weekdays, Monday first.
pub fn week_days() -> (days: Vec<Day>)
    ensures
        days@ == week(),
{
    let mut days: Vec<Day> = Vec::new();
    days.push(Day::Monday);
    days.push(Day::Tuesday);
    days.push(Day::Wednesday);
    days.push(Day::Thursday);
    days.push(Day::Friday);
    assert(days@ =~= week());
    days
}

/// The row of one period number.
pub fn table_row(schedule: &Schedule, number: u8) -> (row: TableRow)
    ensures
        is_row(row, schedule@, number),
{
    let days = week_days();
    let mut cells: Vec<Option<String>> = Vec::new();
    let mut d: usize = 0;
    while d < 5
        invariant
            d <= 5,
            days@ == week(),
            cells@.len() == d,
            forall|e: int|
                0 <= e < d ==> cell_view(#[trigger] cells@[e]) == row_cells(schedule@, number)[e],
        decreases 5 - d,
    {
        let cell = match schedule.get(Period(days[d], number)) {
            Some(name) => Some(name.clone()),
            None => None,
        };
        cells.push(cell);
        d = d + 1;
    }
    TableRow { period: number, cells }
}

/// Lays a schedule out for display: one row for each period number that
/// the options declare, in the order declared, and in each row the class
/// of each weekday. Slots at period numbers that are not declared are not
/// shown.
pub fn table_rows(options: &ScheduleOptions, schedule: &Schedule) -> (rows: Vec<TableRow>)
    ensures
        rows@.len() == options.periods@.len(),
        forall|r: int|
            0 <= r < rows@.len() ==> is_row(#[trigger] rows@[r], schedule@, options.periods@[r]),
{
    let mut rows: Vec<TableRow> = Vec::new();
    let mut r: usize = 0;
    while r < options.periods.len()
        invariant
            r <= options.periods.len(),
            rows@.len() == r,
            forall|q: int|
                0 <= q < r ==> is_row(#[trigger] rows@[q], schedule@, options.periods@[q]),
        decreases options.periods.len() - r,
    {
        let row = table_row(schedule, options.periods[r]);
        rows.push(row);
        r = r + 1;
    }
    rows
}

} // verus!
