use class_scheduler::{
    generate_schedule_recursive, generate_schedules, table_row, table_rows, week_days, Class,
    Day, ParseError, Period, Schedule, ScheduleOptions, TableRow,
};

fn class(name: &str, sections: &[&[&str]]) -> Class {
    Class {
        name: name.to_string(),
        sections: sections
            .iter()
            .map(|section| section.iter().map(|s| s.to_string()).collect())
            .collect(),
    }
}

fn options(classes: Vec<Class>) -> ScheduleOptions {
    ScheduleOptions {
        periods: vec![1, 2, 3, 4, 5, 6, 7, 8],
        classes,
    }
}

fn schedule(entries: &[(Day, u8, &str)]) -> Schedule {
    let mut schedule = Schedule::new();
    for (day, number, name) in entries {
        assert_eq!(schedule.insert(Period(*day, *number), name.to_string()), None);
    }
    schedule
}

#[test]
fn single_class_single_section() {
    let found = generate_schedules(&options(vec![class("Math", &[&["MWF3"]])])).unwrap();
    assert_eq!(found.len(), 1);
    assert_eq!(
        found[0],
        schedule(&[
            (Day::Monday, 3, "Math"),
            (Day::Wednesday, 3, "Math"),
            (Day::Friday, 3, "Math"),
        ])
    );
    assert_eq!(found[0].len(), 3);
    assert_eq!(found[0].get(Period(Day::Monday, 3)), Some(&"Math".to_string()));
    assert_eq!(found[0].get(Period(Day::Tuesday, 3)), None);
}

#[test]
fn no_classes_give_the_empty_schedule() {
    let found = generate_schedules(&options(vec![])).unwrap();
    assert_eq!(found, vec![Schedule::new()]);
    assert!(found[0].is_empty());
}

#[test]
fn class_without_sections_gives_nothing() {
    let found =
        generate_schedules(&options(vec![class("Math", &[&["M1"]]), class("Art", &[])])).unwrap();
    assert_eq!(found, vec![]);
}

#[test]
fn section_without_periods_is_a_valid_choice() {
    let found = generate_schedules(&options(vec![class("Math", &[&[]])])).unwrap();
    assert_eq!(found, vec![Schedule::new()]);
}

#[test]
fn clashing_classes_give_nothing() {
    let found = generate_schedules(&options(vec![
        class("Math", &[&["MWF3"], &["M3"]]),
        class("Art", &[&["M3-4"], &["MT3"]]),
    ]))
    .unwrap();
    assert_eq!(found, vec![]);
}

#[test]
fn clashing_classes_give_nothing_among_others() {
    let found = generate_schedules(&options(vec![
        class("Math", &[&["MWF3"], &["M3"]]),
        class("Music", &[&["R1"], &["R2"]]),
        class("Art", &[&["M3-4"], &["MT3"]]),
    ]))
    .unwrap();
    assert_eq!(found, vec![]);
}

#[test]
fn schedules_come_in_depth_first_order() {
    let found = generate_schedules(&options(vec![
        class("A", &[&["M1"], &["M2"]]),
        class("B", &[&["M1"], &["M2"], &["M3"]]),
    ]))
    .unwrap();
    assert_eq!(
        found,
        vec![
            schedule(&[(Day::Monday, 1, "A"), (Day::Monday, 2, "B")]),
            schedule(&[(Day::Monday, 1, "A"), (Day::Monday, 3, "B")]),
            schedule(&[(Day::Monday, 2, "A"), (Day::Monday, 1, "B")]),
            schedule(&[(Day::Monday, 2, "A"), (Day::Monday, 3, "B")]),
        ]
    );
}

#[test]
fn found_schedules_hold_one_section_of_each_class() {
    let catalog = options(vec![
        class("A", &[&["MWF1"], &["TR1-2"]]),
        class("B", &[&["M1", "T3"], &["W2"]]),
        class("C", &[&["F1-2"], &["R2"], &["R7"]]),
    ]);
    let found = generate_schedules(&catalog).unwrap();
    assert_eq!(found.len(), 6);
    assert_eq!(
        found[0],
        schedule(&[
            (Day::Monday, 1, "A"),
            (Day::Wednesday, 1, "A"),
            (Day::Friday, 1, "A"),
            (Day::Wednesday, 2, "B"),
            (Day::Thursday, 2, "C"),
        ])
    );
    for one in &found {
        let mut slots = 0;
        for c in &catalog.classes {
            let mut held = 0;
            for section in &c.sections {
                let periods = class_scheduler::get_section_periods(section).unwrap();
                if periods.iter().all(|p| one.get(*p) == Some(&c.name)) {
                    held += 1;
                    slots += periods.len();
                }
            }
            assert_eq!(held, 1);
        }
        assert_eq!(one.len(), slots);
    }
}

#[test]
fn same_input_gives_the_same_schedules() {
    let catalog = options(vec![
        class("A", &[&["MWF1"], &["TR1-2"]]),
        class("B", &[&["M1", "T3"], &["W2"]]),
        class("C", &[&["F1-2"], &["R2"], &["R7"]]),
    ]);
    assert_eq!(generate_schedules(&catalog), generate_schedules(&catalog));
    assert_eq!(generate_schedules(&catalog), generate_schedules(&catalog.clone()));
}

#[test]
fn section_that_repeats_a_slot_never_fits() {
    let found = generate_schedules(&options(vec![class("Math", &[&["M1", "M1"], &["MM2"]])]))
        .unwrap();
    assert_eq!(found, vec![]);
}

#[test]
fn same_name_in_two_classes_still_clashes() {
    let found = generate_schedules(&options(vec![
        class("Math", &[&["M1"]]),
        class("Math", &[&["M1"], &["T1"]]),
    ]))
    .unwrap();
    assert_eq!(
        found,
        vec![schedule(&[(Day::Monday, 1, "Math"), (Day::Tuesday, 1, "Math")])]
    );
}

#[test]
fn unreadable_notation_ends_the_search() {
    let outcome = generate_schedules(&options(vec![
        class("A", &[&["M1"], &["M2"]]),
        class("B", &[&["T1"], &["T\u{0662}"]]),
    ]));
    assert_eq!(outcome, Err(ParseError::BadPeriodNumber));
}

#[test]
fn unreadable_notation_that_is_never_reached_is_not_reported() {
    let outcome = generate_schedules(&options(vec![
        class("A", &[&["M1"]]),
        class("B", &[&["M1"]]),
        class("C", &[&["T\u{0662}"]]),
    ]));
    assert_eq!(outcome, Ok(vec![]));
}

#[test]
fn search_can_start_from_a_partial_schedule() {
    let catalog = options(vec![
        class("A", &[&["M1"], &["M2"]]),
        class("B", &[&["M1"], &["M2"], &["M3"]]),
    ]);
    let start = schedule(&[(Day::Monday, 2, "A")]);
    assert_eq!(
        generate_schedule_recursive(&catalog, 1, start.clone()),
        Ok(vec![
            schedule(&[(Day::Monday, 2, "A"), (Day::Monday, 1, "B")]),
            schedule(&[(Day::Monday, 2, "A"), (Day::Monday, 3, "B")]),
        ])
    );
    assert_eq!(
        generate_schedule_recursive(&catalog, 2, start.clone()),
        Ok(vec![start])
    );
}

#[test]
fn schedule_insert_reports_the_previous_class() {
    let mut s = Schedule::new();
    assert!(s.is_empty());
    assert_eq!(s.insert(Period(Day::Monday, 1), "A".to_string()), None);
    assert_eq!(s.insert(Period(Day::Tuesday, 1), "B".to_string()), None);
    assert_eq!(
        s.insert(Period(Day::Monday, 1), "C".to_string()),
        Some("A".to_string())
    );
    assert_eq!(s.len(), 2);
    assert!(!s.is_empty());
    assert!(s.contains(Period(Day::Monday, 1)));
    assert!(!s.contains(Period(Day::Monday, 2)));
    assert_eq!(s.get(Period(Day::Monday, 1)), Some(&"C".to_string()));
    assert_eq!(s.get(Period(Day::Tuesday, 1)), Some(&"B".to_string()));
    assert_eq!(s.get(Period(Day::Tuesday, 0)), None);
}

#[test]
fn slots_of_different_days_and_periods_are_kept_apart() {
    let mut s = Schedule::new();
    for day in week_days() {
        for number in [0u8, 1, 128, 255] {
            assert_eq!(s.insert(Period(day, number), format!("{:?}{}", day, number)), None);
        }
    }
    assert_eq!(s.len(), 20);
    assert_eq!(s.get(Period(Day::Friday, 255)), Some(&"Friday255".to_string()));
    assert_eq!(s.get(Period(Day::Monday, 0)), Some(&"Monday0".to_string()));
}

#[test]
fn with_section_leaves_the_schedule_alone() {
    let base = schedule(&[(Day::Monday, 1, "A")]);
    let name = "B".to_string();
    let fitting = vec![Period(Day::Monday, 2), Period(Day::Tuesday, 1)];
    assert_eq!(
        base.with_section(&fitting, &name),
        Some(schedule(&[
            (Day::Monday, 1, "A"),
            (Day::Monday, 2, "B"),
            (Day::Tuesday, 1, "B"),
        ]))
    );
    let taken = vec![Period(Day::Monday, 2), Period(Day::Monday, 1)];
    assert_eq!(base.with_section(&taken, &name), None);
    let twice = vec![Period(Day::Monday, 2), Period(Day::Monday, 2)];
    assert_eq!(base.with_section(&twice, &name), None);
    assert_eq!(base.with_section(&vec![], &name), Some(base.clone()));
    assert_eq!(base, schedule(&[(Day::Monday, 1, "A")]));
}

#[test]
fn copies_are_independent() {
    let base = schedule(&[(Day::Monday, 1, "A")]);
    let mut copy = base.clone();
    assert_eq!(copy, base);
    copy.insert(Period(Day::Monday, 2), "B".to_string());
    assert_eq!(base.len(), 1);
    assert_eq!(copy.len(), 2);
}

#[test]
fn week_days_are_monday_to_friday() {
    assert_eq!(
        week_days(),
        vec![
            Day::Monday,
            Day::Tuesday,
            Day::Wednesday,
            Day::Thursday,
            Day::Friday
        ]
    );
}

#[test]
fn table_has_a_row_for_each_declared_period() {
    let s = schedule(&[
        (Day::Monday, 3, "Math"),
        (Day::Friday, 3, "Math"),
        (Day::Tuesday, 1, "Art"),
        (Day::Tuesday, 9, "Gym"),
    ]);
    let catalog = ScheduleOptions {
        periods: vec![3, 1, 2],
        classes: vec![],
    };
    let math = Some("Math".to_string());
    let art = Some("Art".to_string());
    assert_eq!(
        table_rows(&catalog, &s),
        vec![
            TableRow {
                period: 3,
                cells: vec![math.clone(), None, None, None, math.clone()],
            },
            TableRow {
                period: 1,
                cells: vec![None, art.clone(), None, None, None],
            },
            TableRow {
                period: 2,
                cells: vec![None, None, None, None, None],
            },
        ]
    );
    assert_eq!(
        table_row(&s, 9),
        TableRow {
            period: 9,
            cells: vec![None, Some("Gym".to_string()), None, None, None],
        }
    );
    let none = ScheduleOptions {
        periods: vec![],
        classes: vec![],
    };
    assert_eq!(table_rows(&none, &s), vec![]);
}
