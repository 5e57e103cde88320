//! The search for every conflict-free schedule.
//!
//! Classes are placed in catalog order. For the class at hand the sections
//! are tried in the order written; a section whose periods fit the schedule
//! built so far is placed on a copy of it and the search goes on with the
//! next class. When no class is left the schedule is complete and is added
//! to the result.

use vstd::prelude::*;
use crate::catalog::{ClassModel, ScheduleOptions};
use crate::schedule::{fits, placed, Schedule};
use crate::section::{get_section_periods, section_periods};
use crate::slot::{ParseError, Period};

verus! {

/// What a schedule says: the class name of each occupied slot.
pub type Slots = Map<Period, Seq<char>>;

/// A list of schedules as maps.
pub open spec fn schedules_view(found: Seq<Schedule>) -> Seq<Slots> {
    Seq::new(found.len(), |k: int| found[k]@)
}

/// The outcome of a search, with the schedules as maps.
pub open spec fn found_view(outcome: Result<Vec<Schedule>, ParseError>) -> Result<
    Seq<Slots>,
    ParseError,
> {
    match outcome {
        Ok(found) => Ok(schedules_view(found@)),
        Err(e) => Err(e),
    }
}

/// One part of a search after another: the schedules of both in that
/// order, or the first error.
pub open spec fn then_found(
    first: Result<Seq<Slots>, ParseError>,
    second: Result<Seq<Slots>, ParseError>,
) -> Result<Seq<Slots>, ParseError> {
    match first {
        Err(e) => Err(e),
        Ok(before) => match second {
            Err(e) => Err(e),
            Ok(after) => Ok(before + after),
        },
    }
}

/// The complete schedules that extend `taken` by one section of each class
/// from class `i` on, where class `i` may only take a section from section
/// `j` on. They come in the order of the depth-first search: all that use
/// section `j` of class `i` before any that uses a later section. A section
/// is expanded when the search reaches it, and the first expansion that
/// fails ends the search with its error.
pub open spec fn search_from(classes: Seq<ClassModel>, i: nat, j: nat, taken: Slots) -> Result<
    Seq<Slots>,
    ParseError,
>
    decreases classes.len() - i, classes[i as int].sections.len() - j,
{
    if i >= classes.len() {
        Ok(seq![taken])
    } else if j >= classes[i as int].sections.len() {
        Ok(Seq::empty())
    } else {
        match section_periods(classes[i as int].sections[j as int]) {
            Err(e) => Err(e),
            Ok(periods) => then_found(
                if fits(taken, periods) {
                    search_from(classes, i + 1, 0, placed(taken, periods, classes[i as int].name))
                } else {
                    Ok(Seq::empty())
                },
                search_from(classes, i, j + 1, taken),
            ),
        }
    }
}

/// Every complete conflict-free schedule of a catalog, in search order.
pub open spec fn all_schedules(classes: Seq<ClassModel>) -> Result<Seq<Slots>, ParseError> {
    search_from(classes, 0, 0, Map::empty())
}

/// Finds every schedule that holds exactly one section of each class and
/// in which no slot is claimed twice. The schedules are returned in the
/// order in which the depth-first search completes them; there may be
/// none. A notation that cannot be read, met during the search, ends it
/// with the error and without schedules.
pub fn generate_schedules(options: &ScheduleOptions) -> (outcome: Result<
    Vec<Schedule>,
    ParseError,
>)
    ensures
        found_view(outcome) == all_schedules(options@.classes),
{
    generate_schedule_recursive(options, 0, Schedule::new())
}

/// Completes `schedule`, which holds a section of each class before
/// `class_index`, in every possible way by sections of the remaining
/// classes. `schedule` itself is the one result when no class remains.
pub fn generate_schedule_recursive(
    options: &ScheduleOptions,
    class_index: usize,
    schedule: Schedule,
) -> (outcome: Result<Vec<Schedule>, ParseError>)
    requires
        class_index <= options.classes.len(),
    ensures
        found_view(outcome) == search_from(
            options@.classes,
            class_index as nat,
            0,
            schedule@,
        ),
    decreases options.classes.len() - class_index,
{
    let ghost classes = options@.classes;
    let ghost i = class_index as nat;
    let mut found: Vec<Schedule> = Vec::new();
    if class_index == options.classes.len() {
        found.push(schedule);
        assert(schedules_view(found@) =~= seq![schedule@]);
        return Ok(found);
    }
    let class = &options.classes[class_index];
    let mut j: usize = 0;
    assert(schedules_view(found@) =~= Seq::<Slots>::empty());
    while j < class.sections.len()
        invariant
            classes == options@.classes,
            i == class_index,
            class_index < options.classes.len(),
            class == options.classes[class_index as int],
            j <= class.sections.len(),
            search_from(classes, i, 0, schedule@) == then_found(
                Ok(schedules_view(found@)),
                search_from(classes, i, j as nat, schedule@),
            ),
        decreases class.sections.len() - j,
    {
        let ghost before = schedules_view(found@);
        let ghost rest = search_from(classes, i, (j + 1) as nat, schedule@);
        assert(classes[i as int] == class@);
        assert(classes[i as int].sections[j as int] == crate::section::section_view(
            class.sections[j as int],
        ));
        let periods = match get_section_periods(&class.sections[j]) {
            Err(e) => {
                return Err(e);
            },
            Ok(periods) => periods,
        };
        match schedule.with_section(&periods, &class.name) {
            None => {
                assert(before + Seq::<Slots>::empty() =~= before);
            },
            Some(next) => {
                match generate_schedule_recursive(options, class_index + 1, next) {
                    Err(e) => {
                        return Err(e);
                    },
                    Ok(more) => {
                        let mut more = more;
                        let ghost added = schedules_view(more@);
                        found.append(&mut more);
                        assert(schedules_view(found@) =~= before + added);
                        proof {
                            match rest {
                                Ok(after) => {
                                    assert(before + (added + after) =~= (before + added) + after);
                                },
                                Err(_) => {},
                            }
                        }
                    },
                }
            },
        }
        j = j + 1;
    }
    assert(schedules_view(found@) + Seq::<Slots>::empty() =~= schedules_view(found@));
    Ok(found)
}

} // verus!
