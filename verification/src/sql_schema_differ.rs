//! Comparison of one column before and after a migration.

use crate::sql_schema::{Column, ColumnView};
use vstd::prelude::*;

verus! {

/// In which respects a column differs from what it was.
#[derive(Clone, Copy, Debug, PartialEq, Eq, Structural)]
pub struct ColumnChanges {
    pub renaming: bool,
    pub tpe: bool,
    pub arity: bool,
    pub default: bool,
}

impl ColumnChanges {
    pub open spec fn spec_differs_in_something(&self) -> bool {
        self.renaming || self.tpe || self.arity || self.default
    }

    pub open spec fn spec_only_default_changed(&self) -> bool {
        !self.renaming && !self.tpe && !self.arity && self.default
    }

    /// Whether the column changed at all.
    #[verifier::when_used_as_spec(spec_differs_in_something)]
    pub fn differs_in_something(&self) -> (b: bool)
        ensures
            b == self.spec_differs_in_something(),
    {
        self.renaming || self.tpe || self.arity || self.default
    }

    /// Whether the type family changed.
    pub fn type_changed(&self) -> (b: bool)
        ensures
            b == self.tpe,
    {
        self.tpe
    }

    /// Whether the column went from nullable to required or back.
    pub fn arity_changed(&self) -> (b: bool)
        ensures
            b == self.arity,
    {
        self.arity
    }

    /// Whether the default changed and nothing else did.
    #[verifier::when_used_as_spec(spec_only_default_changed)]
    pub fn only_default_changed(&self) -> (b: bool)
        ensures
            b == self.spec_only_default_changed(),
    {
        !self.renaming && !self.tpe && !self.arity && self.default
    }

    /// Whether the column has another name than before.
    pub fn column_was_renamed(&self) -> (b: bool)
        ensures
            b == self.renaming,
    {
        self.renaming
    }
}

/// The respects in which `next` differs from `previous`. The type counts as
/// changed where the family changed; the type as the database states it is
/// not looked at.
pub open spec fn changes_between(previous: ColumnView, next: ColumnView) -> ColumnChanges {
    ColumnChanges {
        renaming: previous.name != next.name,
        tpe: previous.family != next.family,
        arity: previous.arity != next.arity,
        default: previous.default != next.default,
    }
}

/// One column as it was and as it is to be.
pub struct ColumnDiffer<'a> {
    pub previous: &'a Column,
    pub next: &'a Column,
}

impl<'a> ColumnDiffer<'a> {
    /// The name of the column before the migration.
    pub fn name(&self) -> (name: &'a String)
        ensures
            name@ == self.previous@.name,
    {
        &self.previous.name
    }

    /// In which respects the column changes.
    pub fn all_changes(&self) -> (changes: ColumnChanges)
        ensures
            changes == changes_between(self.previous@, self.next@),
    {
        let default = match (&self.previous.default, &self.next.default) {
            (Some(p), Some(n)) => *p != *n,
            (None, None) => false,
            _ => true,
        };
        ColumnChanges {
            renaming: self.previous.name != self.next.name,
            tpe: self.previous.tpe.family != self.next.tpe.family,
            arity: self.previous.tpe.arity != self.next.tpe.arity,
            default,
        }
    }

    /// Whether the column changes at all.
    pub fn differs_in_something(&self) -> (b: bool)
        ensures
            b == changes_between(self.previous@, self.next@).differs_in_something(),
    {
        self.all_changes().differs_in_something()
    }
}

} // verus!
