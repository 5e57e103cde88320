//! The catalog: the classes to schedule and the sections each one offers.

use vstd::prelude::*;
use crate::section::{section_view, Section};

verus! {

/// A class and the sections in which it can be taken. A schedule holds
/// exactly one of them.
#[derive(Clone, Debug, PartialEq, Eq)]
pub struct Class {
    /// The name under which the class appears in a schedule.
    pub name: String,
    /// The alternatives, in the order in which they are tried.
    pub sections: Vec<Section>,
}

/// Everything a run works on.
#[derive(Clone, Debug, PartialEq, Eq)]
pub struct ScheduleOptions {
    /// The period numbers to show, in the order to show them. They do not
    /// limit the period numbers that a notation may use.
    pub periods: Vec<u8>,
    /// The classes, in the order in which they are placed.
    pub classes: Vec<Class>,
}

/// A class as plain sequences.
pub struct ClassModel {
    pub name: Seq<char>,
    pub sections: Seq<Seq<Seq<char>>>,
}

/// The options as plain sequences.
pub struct OptionsModel {
    pub periods: Seq<u8>,
    pub classes: Seq<ClassModel>,
}

impl View for Class {
    type V = ClassModel;

    open spec fn view(&self) -> ClassModel {
        ClassModel {
            name: self.name@,
            sections: Seq::new(self.sections@.len(), |j: int| section_view(self.sections@[j])),
        }
    }
}

impl View for ScheduleOptions {
    type V = OptionsModel;

    open spec fn view(&self) -> OptionsModel {
        OptionsModel {
            periods: self.periods@,
            classes: Seq::new(self.classes@.len(), |i: int| self.classes@[i]@),
        }
    }
}

} // verus!
