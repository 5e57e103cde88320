//! Sections: lists of slot notations, expanded into the periods they occupy.

use vstd::prelude::*;
use crate::notation::{notation_periods, parse_period_string, periods_view};
use crate::slot::{ParseError, Period};

verus! {

/// One way of taking a class: the slot notations of its meetings.
pub type Section = Vec<String>;

/// A section as sequences of characters.
pub open spec fn section_view(section: Section) -> Seq<Seq<char>> {
    Seq::new(section@.len(), |i: int| section@[i]@)
}

/// One outcome after another: the periods of both, or the first error.
pub open spec fn then_periods(
    first: Result<Seq<Period>, ParseError>,
    second: Result<Seq<Period>, ParseError>,
) -> Result<Seq<Period>, ParseError> {
    match first {
        Err(e) => Err(e),
        Ok(before) => match second {
            Err(e) => Err(e),
            Ok(after) => Ok(before + after),
        },
    }
}

/// The periods that a section occupies: those of its notations, one after
/// the other, with nothing removed and nothing reordered. The first
/// notation that has an error decides the outcome.
pub open spec fn section_periods(section: Seq<Seq<char>>) -> Result<Seq<Period>, ParseError>
    decreases section.len(),
{
    if section.len() == 0 {
        Ok(Seq::empty())
    } else {
        then_periods(section_periods(section.drop_last()), notation_periods(section.last()))
    }
}

/// An error among the first `k` notations is the error of the section.
pub proof fn lemma_section_error_stays(section: Seq<Seq<char>>, k: int)
    requires
        0 <= k <= section.len(),
        section_periods(section.take(k)) is Err,
    ensures
        section_periods(section) == section_periods(section.take(k)),
    decreases section.len(),
{
    if k == section.len() {
        assert(section.take(k) =~= section);
    } else {
        assert(section.drop_last().take(k) =~= section.take(k));
        lemma_section_error_stays(section.drop_last(), k);
    }
}

/// Lists all the periods that `section` occupies, notation by notation in
/// the order given. Periods that occur twice are listed twice.
pub fn get_section_periods(section: &Section) -> (outcome: Result<Vec<Period>, ParseError>)
    ensures
        periods_view(outcome) == section_periods(section_view(*section)),
{
    let ghost model = section_view(*section);
    let mut periods: Vec<Period> = Vec::new();
    let mut i: usize = 0;
    assert(model.take(0) =~= Seq::<Seq<char>>::empty());
    while i < section.len()
        invariant
            model == section_view(*section),
            i <= section.len(),
            section_periods(model.take(i as int)) == Ok::<Seq<Period>, ParseError>(periods@),
        decreases section.len() - i,
    {
        proof {
            let upto = model.take(i + 1);
            assert(upto.last() == section@[i as int]@);
            assert(upto.drop_last() =~= model.take(i as int));
        }
        match parse_period_string(section[i].as_str()) {
            Err(e) => {
                proof {
                    lemma_section_error_stays(model, i + 1);
                }
                return Err(e);
            },
            Ok(more) => {
                let mut more = more;
                periods.append(&mut more);
            },
        }
        i = i + 1;
    }
    assert(model.take(section.len() as int) =~= model);
    Ok(periods)
}

/// A section of a single notation occupies exactly what the notation
/// denotes.
pub proof fn lemma_section_of_one(notation: Seq<char>)
    ensures
        section_periods(seq![notation]) == notation_periods(notation),
{
    let section = seq![notation];
    assert(section.drop_last() =~= Seq::<Seq<char>>::empty());
    assert(section.last() == notation);
    assert(section_periods(section.drop_last()) == Ok::<Seq<Period>, ParseError>(Seq::empty()));
    match notation_periods(notation) {
        Ok(periods) => {
            assert(Seq::<Period>::empty() + periods =~= periods);
        },
        Err(_) => {},
    }
}

/// Expanding two lists of notations written one after the other gives the
/// periods of the first list followed by those of the second, duplicates
/// included; the first error in reading order is the outcome.
pub proof fn lemma_section_concat(first: Seq<Seq<char>>, second: Seq<Seq<char>>)
    ensures
        section_periods(first + second) == then_periods(
            section_periods(first),
            section_periods(second),
        ),
    decreases second.len(),
{
    if second.len() == 0 {
        assert(first + second =~= first);
        match section_periods(first) {
            Ok(periods) => {
                assert(periods + Seq::<Period>::empty() =~= periods);
            },
            Err(_) => {},
        }
    } else {
        let whole = first + second;
        assert(whole.drop_last() =~= first + second.drop_last());
        assert(whole.last() == second.last());
        lemma_section_concat(first, second.drop_last());
        match (
            section_periods(first),
            section_periods(second.drop_last()),
            notation_periods(second.last()),
        ) {
            (Ok(a), Ok(b), Ok(c)) => {
                assert((a + b) + c =~= a + (b + c));
            },
            _ => {},
        }
    }
}

/// A section of two notations occupies the periods of the first notation
/// followed by the periods of the second.
pub proof fn lemma_section_of_two(first: Seq<char>, second: Seq<char>)
    ensures
        section_periods(seq![first, second]) == then_periods(
            notation_periods(first),
            notation_periods(second),
        ),
{
    lemma_section_of_one(first);
    lemma_section_of_one(second);
    lemma_section_concat(seq![first], seq![second]);
    assert(seq![first] + seq![second] =~= seq![first, second]);
}

} // verus!
