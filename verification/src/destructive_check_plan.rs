//! The plan that a check of a migration fills: what may lose data, and what
//! cannot be executed.

use vstd::prelude::*;

verus! {

/// A step that can be executed but may lose data.
#[derive(Clone, Debug, PartialEq, Eq)]
pub enum SqlMigrationWarning {
    /// The table is dropped, with the rows it holds.
    TableDropped { table: String },
    /// The column is dropped, with the values it holds.
    ColumnDropped { table: String, column: String },
    /// The column is altered in place.
    AlterColumn { table: String, column: String },
    /// The column's type is stated anew, and differs as stated although its
    /// family does not.
    MysqlColumnTypeRestatement {
        table: String,
        column: String,
        previous_type: String,
        next_type: String,
    },
}

/// A step that cannot be executed on a table that holds rows.
#[derive(Clone, Debug, PartialEq, Eq)]
pub enum UnexecutableStepCheck {
    /// A required column without a default is added.
    AddedRequiredFieldToTable { table: String, column: String },
    /// A nullable column becomes required.
    MadeOptionalFieldRequired { table: String, column: String },
}

pub enum WarningView {
    TableDropped { table: Seq<char> },
    ColumnDropped { table: Seq<char>, column: Seq<char> },
    AlterColumn { table: Seq<char>, column: Seq<char> },
    MysqlColumnTypeRestatement {
        table: Seq<char>,
        column: Seq<char>,
        previous_type: Seq<char>,
        next_type: Seq<char>,
    },
}

pub enum UnexecutableView {
    AddedRequiredFieldToTable { table: Seq<char>, column: Seq<char> },
    MadeOptionalFieldRequired { table: Seq<char>, column: Seq<char> },
}

impl View for SqlMigrationWarning {
    type V = WarningView;

    open spec fn view(&self) -> WarningView {
        match self {
            SqlMigrationWarning::TableDropped { table } => WarningView::TableDropped {
                table: table@,
            },
            SqlMigrationWarning::ColumnDropped { table, column } => WarningView::ColumnDropped {
                table: table@,
                column: column@,
            },
            SqlMigrationWarning::AlterColumn { table, column } => WarningView::AlterColumn {
                table: table@,
                column: column@,
            },
            SqlMigrationWarning::MysqlColumnTypeRestatement {
                table,
                column,
                previous_type,
                next_type,
            } => WarningView::MysqlColumnTypeRestatement {
                table: table@,
                column: column@,
                previous_type: previous_type@,
                next_type: next_type@,
            },
        }
    }
}

impl View for UnexecutableStepCheck {
    type V = UnexecutableView;

    open spec fn view(&self) -> UnexecutableView {
        match self {
            UnexecutableStepCheck::AddedRequiredFieldToTable {
                table,
                column,
            } => UnexecutableView::AddedRequiredFieldToTable { table: table@, column: column@ },
            UnexecutableStepCheck::MadeOptionalFieldRequired {
                table,
                column,
            } => UnexecutableView::MadeOptionalFieldRequired { table: table@, column: column@ },
        }
    }
}

/// A plan as contracts see it: both lists, in the order of their filling.
pub struct PlanView {
    pub warnings: Seq<WarningView>,
    pub unexecutable: Seq<UnexecutableView>,
}

impl PlanView {
    /// The plan without entries.
    pub open spec fn empty() -> PlanView {
        PlanView { warnings: Seq::empty(), unexecutable: Seq::empty() }
    }

    /// The plan with the one warning.
    pub open spec fn warning(w: WarningView) -> PlanView {
        PlanView { warnings: seq![w], unexecutable: Seq::empty() }
    }

    /// The plan with the one unexecutable step.
    pub open spec fn unexecutable_step(u: UnexecutableView) -> PlanView {
        PlanView { warnings: Seq::empty(), unexecutable: seq![u] }
    }

    /// The entries of this plan followed by those of `later`.
    pub open spec fn followed_by(self, later: PlanView) -> PlanView {
        PlanView {
            warnings: self.warnings + later.warnings,
            unexecutable: self.unexecutable + later.unexecutable,
        }
    }

    pub open spec fn is_empty(self) -> bool {
        self.warnings.len() == 0 && self.unexecutable.len() == 0
    }

    /// Whether a migration with this plan may be applied: never with a step
    /// that cannot be executed, with warnings only when forced.
    pub open spec fn may_proceed(self, force: bool) -> bool {
        self.unexecutable.len() == 0 && (force || self.warnings.len() == 0)
    }
}

/// Nothing added leaves a plan as it is.
pub proof fn lemma_followed_by_empty(plan: PlanView)
    ensures
        plan.followed_by(PlanView::empty()) == plan,
        PlanView::empty().followed_by(plan) == plan,
{
    assert(plan.warnings + Seq::empty() =~= plan.warnings);
    assert(plan.unexecutable + Seq::empty() =~= plan.unexecutable);
    assert(Seq::empty() + plan.warnings =~= plan.warnings);
    assert(Seq::empty() + plan.unexecutable =~= plan.unexecutable);
}

/// It does not matter which two of three plans are joined first.
pub proof fn lemma_followed_by_associative(a: PlanView, b: PlanView, c: PlanView)
    ensures
        a.followed_by(b).followed_by(c) == a.followed_by(b.followed_by(c)),
{
    assert((a.warnings + b.warnings) + c.warnings =~= a.warnings + (b.warnings + c.warnings));
    assert((a.unexecutable + b.unexecutable) + c.unexecutable =~= a.unexecutable + (b.unexecutable
        + c.unexecutable));
}

/// What a caller may do with a migration.
#[derive(Clone, Copy, Debug, PartialEq, Eq, Structural)]
pub enum MigrationVerdict {
    /// Nothing stands in the way.
    Proceed,
    /// Data may be lost: the operator has to confirm.
    ProceedWithForce,
    /// A step cannot be executed: no confirmation helps.
    Abort,
}

/// The plan of a check: warnings and unexecutable steps, each in the order in
/// which they were found.
#[derive(Clone, Debug, PartialEq, Eq)]
pub struct DestructiveCheckPlan {
    warnings: Vec<SqlMigrationWarning>,
    unexecutable: Vec<UnexecutableStepCheck>,
}

impl View for DestructiveCheckPlan {
    type V = PlanView;

    closed spec fn view(&self) -> PlanView {
        PlanView {
            warnings: self.warnings@.map_values(|w: SqlMigrationWarning| w@),
            unexecutable: self.unexecutable@.map_values(|u: UnexecutableStepCheck| u@),
        }
    }
}

impl DestructiveCheckPlan {
    /// The plan without entries.
    pub fn new() -> (plan: Self)
        ensures
            plan@ == PlanView::empty(),
    {
        let plan = DestructiveCheckPlan { warnings: Vec::new(), unexecutable: Vec::new() };
        assert(plan@.warnings =~= Seq::empty());
        assert(plan@.unexecutable =~= Seq::empty());
        plan
    }

    /// Adds a warning behind those that are there.
    pub fn push_warning(&mut self, warning: SqlMigrationWarning)
        ensures
            final(self)@ == old(self)@.followed_by(PlanView::warning(warning@)),
    {
        self.warnings.push(warning);
        assert(self@.warnings =~= old(self)@.warnings + seq![warning@]);
        assert(self@.unexecutable =~= old(self)@.unexecutable + Seq::empty());
    }

    /// Adds an unexecutable step behind those that are there.
    pub fn push_unexecutable(&mut self, unexecutable_migration: UnexecutableStepCheck)
        ensures
            final(self)@ == old(self)@.followed_by(PlanView::unexecutable_step(unexecutable_migration@)),
    {
        self.unexecutable.push(unexecutable_migration);
        assert(self@.unexecutable =~= old(self)@.unexecutable + seq![unexecutable_migration@]);
        assert(self@.warnings =~= old(self)@.warnings + Seq::empty());
    }

    /// The warnings, in the order in which they were found.
    pub fn warnings(&self) -> (out: &Vec<SqlMigrationWarning>)
        ensures
            out@.map_values(|w: SqlMigrationWarning| w@) == self@.warnings,
    {
        &self.warnings
    }

    /// The unexecutable steps, in the order in which they were found.
    pub fn unexecutable(&self) -> (out: &Vec<UnexecutableStepCheck>)
        ensures
            out@.map_values(|u: UnexecutableStepCheck| u@) == self@.unexecutable,
    {
        &self.unexecutable
    }

    /// Whether the plan holds nothing.
    pub fn is_empty(&self) -> (b: bool)
        ensures
            b == self@.is_empty(),
    {
        self.warnings.len() == 0 && self.unexecutable.len() == 0
    }

    /// Whether the migration may be applied, given whether the operator
    /// forces it.
    pub fn may_proceed(&self, force: bool) -> (b: bool)
        ensures
            b == self@.may_proceed(force),
    {
        self.unexecutable.len() == 0 && (force || self.warnings.len() == 0)
    }

    /// What the caller may do with the migration.
    pub fn verdict(&self) -> (v: MigrationVerdict)
        ensures
            v == MigrationVerdict::Abort <==> self@.unexecutable.len() > 0,
            v == MigrationVerdict::Proceed <==> self@.is_empty(),
            v == MigrationVerdict::ProceedWithForce <==> self@.unexecutable.len() == 0
                && self@.warnings.len() > 0,
    {
        if self.unexecutable.len() > 0 {
            MigrationVerdict::Abort
        } else if self.warnings.len() > 0 {
            MigrationVerdict::ProceedWithForce
        } else {
            MigrationVerdict::Proceed
        }
    }
}

} // verus!
