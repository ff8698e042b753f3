//! The artifact aggregate: a piece of output, known by its name, with the
//! criteria it must pass to be accepted.
//!
//! Any kind of output is an artifact — a report and a journal are just two
//! names. An artifact carries no place: where it lands is worked out by the
//! workspace from its name (`Workspace::place`).

use crate::criterion::model::{Criterion, CriterionModel};
use crate::workflow::model::criteria_model;
use vstd::prelude::*;

verus! {

/// The artifact aggregate.
#[derive(Debug, Clone, PartialEq, Eq)]
pub struct Artifact {
    /// Its name, which is also its identity.
    pub name: String,
    /// Its specification: the criteria it is accepted by.
    pub spec: Vec<Criterion>,
}

/// The view of an [`Artifact`].
pub struct ArtifactModel {
    pub name: Seq<char>,
    pub spec: Seq<CriterionModel>,
}

impl View for Artifact {
    type V = ArtifactModel;

    open spec fn view(&self) -> ArtifactModel {
        ArtifactModel { name: self.name@, spec: criteria_model(self.spec@) }
    }
}

impl Artifact {
    /// An artifact known only by its name: it has no specification yet.
    pub fn named(name: &str) -> (a: Artifact)
        ensures
            a@ == (ArtifactModel { name: name@, spec: Seq::empty() }),
    {
        let a = Artifact { name: String::from_str(name), spec: Vec::new() };
        assert(a@.spec =~= Seq::<CriterionModel>::empty());
        a
    }

    /// An artifact with its name and its specification.
    pub fn of(name: &str, spec: Vec<Criterion>) -> (a: Artifact)
        ensures
            a@ == (ArtifactModel { name: name@, spec: criteria_model(spec@) }),
    {
        Artifact { name: String::from_str(name), spec }
    }
}

} // verus!
