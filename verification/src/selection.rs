//! What the search finds, said without the search: every schedule found is
//! a selection of one section per class in which no slot is claimed twice.

use vstd::prelude::*;
use crate::catalog::ClassModel;
use crate::generator::{all_schedules, search_from, Slots};
use crate::schedule::{fits, placed};
use crate::section::section_periods;
use crate::slot::{ParseError, Period};

verus! {

/// The periods of a section of a class; none where the section cannot be
/// read.
pub open spec fn periods_at(classes: Seq<ClassModel>, class: int, section: int) -> Seq<Period> {
    match section_periods(classes[class].sections[section]) {
        Ok(periods) => periods,
        Err(_) => Seq::empty(),
    }
}

/// The class has a section of this number, and it can be read.
pub open spec fn readable_at(classes: Seq<ClassModel>, class: int, section: int) -> bool {
    &&& 0 <= section < classes[class].sections.len()
    &&& section_periods(classes[class].sections[section]) is Ok
}

/// `picks` names one readable section of each class: `picks[c]` is the
/// number of the section taken for class `c`.
pub open spec fn is_selection(classes: Seq<ClassModel>, picks: Seq<int>) -> bool {
    &&& picks.len() == classes.len()
    &&& forall|c: int| 0 <= c < classes.len() ==> readable_at(classes, c, #[trigger] picks[c])
}

/// Class `class` claims `slot` through the section picked for it.
pub open spec fn occupies(
    classes: Seq<ClassModel>,
    picks: Seq<int>,
    class: int,
    slot: Period,
) -> bool {
    0 <= class < picks.len() && periods_at(classes, class, picks[class]).contains(slot)
}

/// No slot is claimed twice: not by two classes and not twice by the
/// section of one class.
pub open spec fn conflict_free(classes: Seq<ClassModel>, picks: Seq<int>) -> bool {
    &&& forall|c: int|
        0 <= c < picks.len() ==> periods_at(classes, c, #[trigger] picks[c]).no_duplicates()
    &&& forall|c: int, d: int, slot: Period|
        c != d && #[trigger] occupies(classes, picks, c, slot) ==> !#[trigger] occupies(
            classes,
            picks,
            d,
            slot,
        )
}

/// The schedule of a selection: every slot that a picked section claims,
/// under the name of the class that claims it.
pub open spec fn selection_schedule(classes: Seq<ClassModel>, picks: Seq<int>) -> Slots {
    Map::new(
        |slot: Period| exists|c: int| occupies(classes, picks, c, slot),
        |slot: Period| classes[choose|c: int| occupies(classes, picks, c, slot)].name,
    )
}

/// The sections by which the search reaches its `k`-th schedule, class
/// `i` and later, listed from class `i` on.
pub open spec fn picks_from(classes: Seq<ClassModel>, i: nat, j: nat, taken: Slots, k: int) -> Seq<
    int,
>
    decreases classes.len() - i, classes[i as int].sections.len() - j,
{
    if i >= classes.len() || j >= classes[i as int].sections.len() {
        Seq::empty()
    } else {
        match section_periods(classes[i as int].sections[j as int]) {
            Err(_) => Seq::empty(),
            Ok(periods) => {
                let next = placed(taken, periods, classes[i as int].name);
                let here = if fits(taken, periods) {
                    search_from(classes, i + 1, 0, next)
                } else {
                    Ok(Seq::empty())
                };
                match here {
                    Err(_) => Seq::empty(),
                    Ok(first) => if k < first.len() {
                        seq![j as int] + picks_from(classes, i + 1, 0, next, k)
                    } else {
                        picks_from(classes, i, j + 1, taken, k - first.len())
                    },
                }
            },
        }
    }
}

/// The sections by which the search reaches its `k`-th schedule.
pub open spec fn selection_of(classes: Seq<ClassModel>, k: int) -> Seq<int> {
    picks_from(classes, 0, 0, Map::empty(), k)
}

/// Where the search finds the schedule of `picks`, class `i` and later,
/// counted from the first schedule that uses section `j` of class `i` or a
/// later one.
pub open spec fn position_from(
    classes: Seq<ClassModel>,
    i: nat,
    j: nat,
    taken: Slots,
    picks: Seq<int>,
) -> int
    decreases classes.len() - i, classes[i as int].sections.len() - j,
{
    if i >= classes.len() || j >= classes[i as int].sections.len() || picks.len() == 0 {
        0
    } else {
        match section_periods(classes[i as int].sections[j as int]) {
            Err(_) => 0,
            Ok(periods) => {
                let next = placed(taken, periods, classes[i as int].name);
                if picks[0] == j {
                    position_from(classes, i + 1, 0, next, picks.drop_first())
                } else {
                    let skipped: int = if fits(taken, periods) {
                        match search_from(classes, i + 1, 0, next) {
                            Ok(first) => first.len() as int,
                            Err(_) => 0,
                        }
                    } else {
                        0
                    };
                    skipped + position_from(classes, i, j + 1, taken, picks)
                }
            },
        }
    }
}

/// The place of the schedule of `picks` among the schedules found.
pub open spec fn position_of(classes: Seq<ClassModel>, picks: Seq<int>) -> int {
    position_from(classes, 0, 0, Map::empty(), picks)
}

/// `first` is before `second` in the order of the search: at the first
/// class for which they differ, `first` picks the earlier section.
pub open spec fn comes_before(first: Seq<int>, second: Seq<int>) -> bool {
    exists|c: int|
        0 <= c < first.len() && c < second.len() && #[trigger] first[c] < second[c] && forall|
            d: int,
        |
            0 <= d < c ==> #[trigger] first[d] == second[d]
}

/// Class `from + t` claims `slot` through `picks[t]`.
spec fn claims(classes: Seq<ClassModel>, from: int, picks: Seq<int>, t: int, slot: Period) -> bool {
    0 <= t < picks.len() && periods_at(classes, from + t, picks[t]).contains(slot)
}

/// Placing the picked sections one class after the other, from class
/// `from` on, each fits what is there by then.
spec fn all_fit(classes: Seq<ClassModel>, from: int, picks: Seq<int>, taken: Slots) -> bool
    decreases picks.len(),
{
    picks.len() == 0 || {
        let periods = periods_at(classes, from, picks[0]);
        &&& readable_at(classes, from, picks[0])
        &&& fits(taken, periods)
        &&& all_fit(
            classes,
            from + 1,
            picks.drop_first(),
            placed(taken, periods, classes[from].name),
        )
    }
}

/// `taken` with the picked sections placed on it.
spec fn assemble(classes: Seq<ClassModel>, from: int, picks: Seq<int>, taken: Slots) -> Slots
    decreases picks.len(),
{
    if picks.len() == 0 {
        taken
    } else {
        assemble(
            classes,
            from + 1,
            picks.drop_first(),
            placed(taken, periods_at(classes, from, picks[0]), classes[from].name),
        )
    }
}

/// The `k`-th schedule of a search is what its picks assemble, and every
/// one of them fitted.
proof fn lemma_found_is_assembled(classes: Seq<ClassModel>, i: nat, j: nat, taken: Slots, k: int)
    requires
        i <= classes.len(),
        search_from(classes, i, j, taken) is Ok,
        0 <= k < search_from(classes, i, j, taken).unwrap().len(),
    ensures
        picks_from(classes, i, j, taken, k).len() == classes.len() - i,
        all_fit(classes, i as int, picks_from(classes, i, j, taken, k), taken),
        assemble(classes, i as int, picks_from(classes, i, j, taken, k), taken) == search_from(
            classes,
            i,
            j,
            taken,
        ).unwrap()[k],
        i < classes.len() ==> picks_from(classes, i, j, taken, k)[0] >= j,
    decreases classes.len() - i, classes[i as int].sections.len() - j,
{
    if i >= classes.len() {
    } else if j >= classes[i as int].sections.len() {
    } else {
        let periods = section_periods(classes[i as int].sections[j as int]).unwrap();
        let next = placed(taken, periods, classes[i as int].name);
        let here = if fits(taken, periods) {
            search_from(classes, i + 1, 0, next)
        } else {
            Ok(Seq::empty())
        };
        let first = here.unwrap();
        let picks = picks_from(classes, i, j, taken, k);
        if k < first.len() {
            lemma_found_is_assembled(classes, i + 1, 0, next, k);
            let rest = picks_from(classes, i + 1, 0, next, k);
            assert(picks == seq![j as int] + rest);
            assert(picks.drop_first() =~= rest);
            assert(picks[0] == j);
        } else {
            lemma_found_is_assembled(classes, i, j + 1, taken, k - first.len());
        }
    }
}

/// What a fitting assembly holds: the slots taken before, unchanged, and
/// the slots of each picked section under its class's name; and no slot
/// is claimed twice.
proof fn lemma_assembled(classes: Seq<ClassModel>, from: int, picks: Seq<int>, taken: Slots)
    requires
        all_fit(classes, from, picks, taken),
    ensures
        forall|slot: Period| #[trigger]
            assemble(classes, from, picks, taken).contains_key(slot) <==> (taken.contains_key(slot)
                || exists|t: int| claims(classes, from, picks, t, slot)),
        forall|slot: Period|
            taken.contains_key(slot) ==> #[trigger] assemble(classes, from, picks, taken)[slot]
                == taken[slot],
        forall|t: int, slot: Period| #[trigger]
            claims(classes, from, picks, t, slot) ==> !taken.contains_key(slot) && assemble(
                classes,
                from,
                picks,
                taken,
            )[slot] == classes[from + t].name,
        forall|t: int, u: int, slot: Period|
            t != u && #[trigger] claims(classes, from, picks, t, slot) ==> !#[trigger] claims(
                classes,
                from,
                picks,
                u,
                slot,
            ),
        forall|t: int|
            0 <= t < picks.len() ==> readable_at(classes, from + t, #[trigger] picks[t])
                && periods_at(classes, from + t, picks[t]).no_duplicates(),
    decreases picks.len(),
{
    if picks.len() > 0 {
        let periods = periods_at(classes, from, picks[0]);
        let next = placed(taken, periods, classes[from].name);
        let rest = picks.drop_first();
        let after = from + 1;
        let whole = assemble(classes, from, picks, taken);
        lemma_assembled(classes, after, rest, next);
        assert(whole == assemble(classes, after, rest, next));
        assert forall|t: int, slot: Period| #[trigger]
            claims(classes, from, picks, t, slot) <==> (t == 0 && periods.contains(slot)) || (t
                >= 1 && claims(classes, after, rest, t - 1, slot)) by {
            if 1 <= t < picks.len() {
                assert(rest[t - 1] == picks[t]);
                assert(from + 1 + (t - 1) == from + t);
            }
        }
        assert forall|t: int, slot: Period| #[trigger]
            claims(classes, after, rest, t, slot) implies claims(
            classes,
            from,
            picks,
            t + 1,
            slot,
        ) by {
            assert(rest[t] == picks[t + 1]);
            assert(from + 1 + t == from + (t + 1));
        }
        assert forall|slot: Period| periods.contains(slot) implies !taken.contains_key(slot) by {
            let a = choose|a: int| 0 <= a < periods.len() && periods[a] == slot;
            assert(!taken.contains_key(periods[a]));
        }
        assert forall|slot: Period| #[trigger]
            whole.contains_key(slot) <==> (taken.contains_key(slot) || exists|t: int|
                claims(classes, from, picks, t, slot)) by {
            if whole.contains_key(slot) {
                if next.contains_key(slot) {
                    if periods.contains(slot) {
                        assert(claims(classes, from, picks, 0, slot));
                    }
                } else {
                    let t = choose|t: int| claims(classes, after, rest, t, slot);
                    assert(claims(classes, from, picks, t + 1, slot));
                }
            }
            if exists|t: int| claims(classes, from, picks, t, slot) {
                let t = choose|t: int| claims(classes, from, picks, t, slot);
                if t == 0 {
                    assert(next.contains_key(slot));
                } else {
                    assert(claims(classes, after, rest, t - 1, slot));
                }
            }
            if taken.contains_key(slot) {
                assert(next.contains_key(slot));
            }
        }
        assert forall|slot: Period| taken.contains_key(slot) implies #[trigger] whole[slot]
            == taken[slot] by {
            assert(next.contains_key(slot));
            assert(!periods.contains(slot));
        }
        assert forall|t: int, slot: Period| #[trigger]
            claims(classes, from, picks, t, slot) implies !taken.contains_key(slot) && whole[slot]
            == classes[from + t].name by {
            if t == 0 {
                assert(next.contains_key(slot));
                assert(next[slot] == classes[from].name);
            } else {
                assert(claims(classes, after, rest, t - 1, slot));
                assert(from + 1 + (t - 1) == from + t);
            }
        }
        assert forall|t: int, u: int, slot: Period|
            t != u && #[trigger] claims(classes, from, picks, t, slot) implies !#[trigger] claims(
            classes,
            from,
            picks,
            u,
            slot,
        ) by {
            if claims(classes, from, picks, u, slot) {
                if t == 0 {
                    assert(next.contains_key(slot));
                    assert(claims(classes, after, rest, u - 1, slot));
                } else if u == 0 {
                    assert(next.contains_key(slot));
                    assert(claims(classes, after, rest, t - 1, slot));
                } else {
                    assert(claims(classes, after, rest, t - 1, slot));
                    assert(claims(classes, after, rest, u - 1, slot));
                }
            }
        }
        assert forall|t: int| 0 <= t < picks.len() implies readable_at(
            classes,
            from + t,
            #[trigger] picks[t],
        ) && periods_at(classes, from + t, picks[t]).no_duplicates() by {
            if t >= 1 {
                assert(rest[t - 1] == picks[t]);
                assert(from + 1 + (t - 1) == from + t);
            }
        }
    }
}

/// Every schedule that the search finds is the schedule of a selection:
/// it holds exactly one section of every class, the slots of that section
/// under the name of the class and nothing else, and no slot is claimed
/// twice.
pub proof fn lemma_found_schedules_are_conflict_free(classes: Seq<ClassModel>, k: int)
    requires
        all_schedules(classes) is Ok,
        0 <= k < all_schedules(classes).unwrap().len(),
    ensures
        is_selection(classes, selection_of(classes, k)),
        conflict_free(classes, selection_of(classes, k)),
        all_schedules(classes).unwrap()[k] == selection_schedule(
            classes,
            selection_of(classes, k),
        ),
{
    let picks = selection_of(classes, k);
    let nothing = Map::<Period, Seq<char>>::empty();
    let found = all_schedules(classes).unwrap()[k];
    lemma_found_is_assembled(classes, 0, 0, nothing, k);
    lemma_assembled(classes, 0, picks, nothing);
    assert forall|c: int, slot: Period|
        occupies(classes, picks, c, slot) == claims(classes, 0, picks, c, slot) by {
        assert(0 + c == c);
    }
    assert forall|c: int| 0 <= c < classes.len() implies readable_at(
        classes,
        c,
        #[trigger] picks[c],
    ) && periods_at(classes, c, picks[c]).no_duplicates() by {
        assert(0 + c == c);
    }
    assert forall|c: int, d: int, slot: Period|
        c != d && #[trigger] occupies(classes, picks, c, slot) implies !#[trigger] occupies(
        classes,
        picks,
        d,
        slot,
    ) by {
        assert(claims(classes, 0, picks, c, slot));
        if occupies(classes, picks, d, slot) {
            assert(claims(classes, 0, picks, d, slot));
        }
    }
    let wanted = selection_schedule(classes, picks);
    assert forall|slot: Period| found.contains_key(slot) <==> wanted.contains_key(slot) by {
        if found.contains_key(slot) {
            let t = choose|t: int| claims(classes, 0, picks, t, slot);
            assert(occupies(classes, picks, t, slot));
        }
        if wanted.contains_key(slot) {
            let c = choose|c: int| occupies(classes, picks, c, slot);
            assert(claims(classes, 0, picks, c, slot));
        }
    }
    assert forall|slot: Period| found.contains_key(slot) implies found[slot] == wanted[slot] by {
        let c = choose|c: int| occupies(classes, picks, c, slot);
        assert(claims(classes, 0, picks, c, slot));
        assert(0 + c == c);
    }
    assert(found =~= wanted);
}

/// Picks that claim no slot twice and none that is taken fit one after
/// the other.
proof fn lemma_claims_fit(classes: Seq<ClassModel>, from: int, picks: Seq<int>, taken: Slots)
    requires
        forall|t: int|
            0 <= t < picks.len() ==> readable_at(classes, from + t, #[trigger] picks[t])
                && periods_at(classes, from + t, picks[t]).no_duplicates(),
        forall|t: int, slot: Period| #[trigger]
            claims(classes, from, picks, t, slot) ==> !taken.contains_key(slot),
        forall|t: int, u: int, slot: Period|
            t != u && #[trigger] claims(classes, from, picks, t, slot) ==> !#[trigger] claims(
                classes,
                from,
                picks,
                u,
                slot,
            ),
    ensures
        all_fit(classes, from, picks, taken),
    decreases picks.len(),
{
    if picks.len() > 0 {
        let periods = periods_at(classes, from, picks[0]);
        let next = placed(taken, periods, classes[from].name);
        let rest = picks.drop_first();
        let after = from + 1;
        assert(readable_at(classes, from + 0, picks[0]));
        assert forall|a: int| 0 <= a < periods.len() implies !taken.contains_key(
            #[trigger] periods[a],
        ) by {
            assert(claims(classes, from, picks, 0, periods[a]));
        }
        assert forall|t: int| 0 <= t < rest.len() implies readable_at(
            classes,
            after + t,
            #[trigger] rest[t],
        ) && periods_at(classes, after + t, rest[t]).no_duplicates() by {
            assert(rest[t] == picks[t + 1]);
            assert(after + t == from + (t + 1));
        }
        assert forall|t: int, slot: Period| #[trigger]
            claims(classes, after, rest, t, slot) implies claims(
            classes,
            from,
            picks,
            t + 1,
            slot,
        ) by {
            assert(rest[t] == picks[t + 1]);
            assert(after + t == from + (t + 1));
        }
        assert forall|t: int, slot: Period| #[trigger]
            claims(classes, after, rest, t, slot) implies !next.contains_key(slot) by {
            assert(claims(classes, from, picks, t + 1, slot));
            if periods.contains(slot) {
                assert(claims(classes, from, picks, 0, slot));
            }
        }
        assert forall|t: int, u: int, slot: Period|
            t != u && #[trigger] claims(classes, after, rest, t, slot) implies !#[trigger] claims(
            classes,
            after,
            rest,
            u,
            slot,
        ) by {
            assert(claims(classes, from, picks, t + 1, slot));
            if claims(classes, after, rest, u, slot) {
                assert(claims(classes, from, picks, u + 1, slot));
            }
        }
        lemma_claims_fit(classes, after, rest, next);
    }
}

/// Picks that fit are found by the search, at their position, and only
/// there.
proof fn lemma_fitting_picks_are_found(
    classes: Seq<ClassModel>,
    i: nat,
    j: nat,
    taken: Slots,
    picks: Seq<int>,
)
    requires
        i <= classes.len(),
        picks.len() == classes.len() - i,
        all_fit(classes, i as int, picks, taken),
        picks.len() > 0 ==> picks[0] >= j,
        search_from(classes, i, j, taken) is Ok,
    ensures
        0 <= position_from(classes, i, j, taken, picks) < search_from(
            classes,
            i,
            j,
            taken,
        ).unwrap().len(),
        picks_from(classes, i, j, taken, position_from(classes, i, j, taken, picks)) =~= picks,
    decreases classes.len() - i, classes[i as int].sections.len() - j,
{
    if i < classes.len() {
        assert(readable_at(classes, i as int, picks[0]));
        let periods = section_periods(classes[i as int].sections[j as int]).unwrap();
        let next = placed(taken, periods, classes[i as int].name);
        let here = if fits(taken, periods) {
            search_from(classes, i + 1, 0, next)
        } else {
            Ok(Seq::empty())
        };
        let first = here.unwrap();
        if picks[0] == j {
            let rest = picks.drop_first();
            assert(periods == periods_at(classes, i as int, picks[0]));
            assert(all_fit(classes, (i + 1) as int, rest, next));
            if rest.len() > 0 {
                assert(readable_at(classes, (i + 1) as int, rest[0]));
            }
            lemma_fitting_picks_are_found(classes, i + 1, 0, next, rest);
            let at = position_from(classes, i + 1, 0, next, rest);
            assert(position_from(classes, i, j, taken, picks) == at);
            assert(picks_from(classes, i, j, taken, at) == seq![j as int] + picks_from(
                classes,
                i + 1,
                0,
                next,
                at,
            ));
        } else {
            lemma_fitting_picks_are_found(classes, i, j + 1, taken, picks);
            let at = position_from(classes, i, j + 1, taken, picks);
            assert(position_from(classes, i, j, taken, picks) == first.len() + at);
        }
    }
}

/// Later schedules of a search have later picks.
proof fn lemma_picks_rise(
    classes: Seq<ClassModel>,
    i: nat,
    j: nat,
    taken: Slots,
    k1: int,
    k2: int,
)
    requires
        i <= classes.len(),
        search_from(classes, i, j, taken) is Ok,
        0 <= k1 < k2 < search_from(classes, i, j, taken).unwrap().len(),
    ensures
        comes_before(picks_from(classes, i, j, taken, k1), picks_from(classes, i, j, taken, k2)),
    decreases classes.len() - i, classes[i as int].sections.len() - j,
{
    if i < classes.len() && j < classes[i as int].sections.len() {
        let periods = section_periods(classes[i as int].sections[j as int]).unwrap();
        let next = placed(taken, periods, classes[i as int].name);
        let here = if fits(taken, periods) {
            search_from(classes, i + 1, 0, next)
        } else {
            Ok(Seq::empty())
        };
        let first = here.unwrap();
        let p1 = picks_from(classes, i, j, taken, k1);
        let p2 = picks_from(classes, i, j, taken, k2);
        lemma_found_is_assembled(classes, i, j, taken, k1);
        lemma_found_is_assembled(classes, i, j, taken, k2);
        if k2 < first.len() {
            let r1 = picks_from(classes, i + 1, 0, next, k1);
            let r2 = picks_from(classes, i + 1, 0, next, k2);
            lemma_picks_rise(classes, i + 1, 0, next, k1, k2);
            let c = choose|c: int|
                0 <= c < r1.len() && c < r2.len() && #[trigger] r1[c] < r2[c] && forall|d: int|
                    0 <= d < c ==> #[trigger] r1[d] == r2[d];
            assert(p1 == seq![j as int] + r1);
            assert(p2 == seq![j as int] + r2);
            assert(p1[c + 1] == r1[c]);
            assert(p2[c + 1] == r2[c]);
            assert forall|d: int| 0 <= d < c + 1 implies #[trigger] p1[d] == p2[d] by {
                if d > 0 {
                    assert(p1[d] == r1[d - 1]);
                    assert(p2[d] == r2[d - 1]);
                }
            }
            assert(p1[c + 1] < p2[c + 1]);
        } else if k1 < first.len() {
            lemma_found_is_assembled(classes, i, j + 1, taken, k2 - first.len());
            assert(p1[0] == j);
            assert(p1[0] < p2[0]);
        } else {
            lemma_picks_rise(classes, i, j + 1, taken, k1 - first.len(), k2 - first.len());
        }
    }
}

/// Every selection of one readable section per class in which no slot is
/// claimed twice is found by the search: its schedule is among the
/// schedules found, at the place that `position_of` gives, and the search
/// reached it by exactly these picks.
pub proof fn lemma_every_selection_is_found(classes: Seq<ClassModel>, picks: Seq<int>)
    requires
        all_schedules(classes) is Ok,
        is_selection(classes, picks),
        conflict_free(classes, picks),
    ensures
        0 <= position_of(classes, picks) < all_schedules(classes).unwrap().len(),
        selection_of(classes, position_of(classes, picks)) == picks,
        all_schedules(classes).unwrap()[position_of(classes, picks)] == selection_schedule(
            classes,
            picks,
        ),
{
    let nothing = Map::<Period, Seq<char>>::empty();
    assert forall|c: int, slot: Period|
        occupies(classes, picks, c, slot) == claims(classes, 0, picks, c, slot) by {
        assert(0 + c == c);
    }
    assert forall|t: int| 0 <= t < picks.len() implies readable_at(
        classes,
        0 + t,
        #[trigger] picks[t],
    ) && periods_at(classes, 0 + t, picks[t]).no_duplicates() by {
        assert(0 + t == t);
    }
    assert forall|t: int, u: int, slot: Period|
        t != u && #[trigger] claims(classes, 0, picks, t, slot) implies !#[trigger] claims(
        classes,
        0,
        picks,
        u,
        slot,
    ) by {
        assert(occupies(classes, picks, t, slot));
        if claims(classes, 0, picks, u, slot) {
            assert(occupies(classes, picks, u, slot));
        }
    }
    lemma_claims_fit(classes, 0, picks, nothing);
    if picks.len() > 0 {
        assert(readable_at(classes, 0, picks[0]));
    }
    lemma_fitting_picks_are_found(classes, 0, 0, nothing, picks);
    lemma_found_schedules_are_conflict_free(classes, position_of(classes, picks));
}

/// The schedules are found in the order of their selections, so no
/// selection is found twice.
pub proof fn lemma_schedules_come_in_selection_order(classes: Seq<ClassModel>, k1: int, k2: int)
    requires
        all_schedules(classes) is Ok,
        0 <= k1 < k2 < all_schedules(classes).unwrap().len(),
    ensures
        comes_before(selection_of(classes, k1), selection_of(classes, k2)),
        selection_of(classes, k1) != selection_of(classes, k2),
{
    lemma_picks_rise(classes, 0, 0, Map::empty(), k1, k2);
}

/// Two sections clash when some slot belongs to both.
pub open spec fn sections_clash(
    classes: Seq<ClassModel>,
    a: int,
    section_a: int,
    b: int,
    section_b: int,
) -> bool {
    exists|slot: Period|
        periods_at(classes, a, section_a).contains(slot) && periods_at(
            classes,
            b,
            section_b,
        ).contains(slot)
}

/// Where every section of one class clashes with every section of another
/// class, the search finds no schedule, whatever the other classes are.
pub proof fn lemma_clashing_classes_leave_no_schedule(classes: Seq<ClassModel>, a: int, b: int)
    requires
        0 <= a < classes.len(),
        0 <= b < classes.len(),
        a != b,
        forall|section_a: int, section_b: int|
            0 <= section_a < classes[a].sections.len() && 0 <= section_b
                < classes[b].sections.len() ==> sections_clash(
                classes,
                a,
                section_a,
                b,
                section_b,
            ),
    ensures
        all_schedules(classes) matches Ok(found) ==> found.len() == 0,
{
    if all_schedules(classes) is Ok && all_schedules(classes).unwrap().len() > 0 {
        lemma_found_schedules_are_conflict_free(classes, 0);
        let picks = selection_of(classes, 0);
        assert(readable_at(classes, a, picks[a]));
        assert(readable_at(classes, b, picks[b]));
        assert(sections_clash(classes, a, picks[a], b, picks[b]));
        let slot = choose|slot: Period|
            periods_at(classes, a, picks[a]).contains(slot) && periods_at(
                classes,
                b,
                picks[b],
            ).contains(slot);
        assert(occupies(classes, picks, a, slot));
        assert(occupies(classes, picks, b, slot));
    }
}

/// What is searched depends on the classes alone: catalogs with the same
/// classes have the same schedules, in the same order, or the same error.
pub proof fn lemma_search_is_determined(first: Seq<ClassModel>, second: Seq<ClassModel>)
    requires
        first =~= second,
    ensures
        all_schedules(first) == all_schedules(second),
{
}

/// A catalog of one class with one section, whose periods are all
/// different, has exactly one schedule: the periods of that section, each
/// under the name of the class.
pub proof fn lemma_single_section_single_schedule(classes: Seq<ClassModel>)
    requires
        classes.len() == 1,
        classes[0].sections.len() == 1,
        section_periods(classes[0].sections[0]) is Ok,
        periods_at(classes, 0, 0).no_duplicates(),
    ensures
        all_schedules(classes) == Ok::<Seq<Slots>, ParseError>(
            seq![placed(Map::empty(), periods_at(classes, 0, 0), classes[0].name)],
        ),
        forall|slot: Period|
            placed(Map::empty(), periods_at(classes, 0, 0), classes[0].name).contains_key(slot)
                <==> periods_at(classes, 0, 0).contains(slot),
        forall|slot: Period|
            periods_at(classes, 0, 0).contains(slot) ==> placed(
                Map::empty(),
                periods_at(classes, 0, 0),
                classes[0].name,
            )[slot] == classes[0].name,
{
    let nothing = Map::<Period, Seq<char>>::empty();
    let periods = periods_at(classes, 0, 0);
    let only = placed(nothing, periods, classes[0].name);
    assert(fits(nothing, periods));
    assert(search_from(classes, 1, 0, only) == Ok::<Seq<Slots>, ParseError>(seq![only]));
    assert(search_from(classes, 0, 1, nothing) == Ok::<Seq<Slots>, ParseError>(Seq::empty()));
    assert(seq![only] + Seq::<Slots>::empty() =~= seq![only]);
}

} // verus!
