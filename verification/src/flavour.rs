//! The rules of each dialect for altering a column in place.

use crate::destructive_check_plan::{
    DestructiveCheckPlan, PlanView, SqlMigrationWarning, UnexecutableStepCheck, UnexecutableView,
    WarningView,
};
use crate::expanded_alter_column::{
    expand_mysql_alter_column, mysql_alter_column, MysqlAlterColumn, MysqlAlterColumnView,
};
use crate::sql_schema::{ColumnArity, ColumnView, Table};
use crate::sql_schema_differ::{changes_between, ColumnDiffer};
use vstd::prelude::*;

verus! {

/// The dialects that the checker knows.
#[derive(Clone, Copy, Debug, PartialEq, Eq, Structural)]
pub enum SqlFamily {
    Postgres,
    Mysql,
    Sqlite,
}

/// Whether the column goes from nullable to required.
pub open spec fn made_required(previous: ColumnView, next: ColumnView) -> bool {
    changes_between(previous, next).arity && next.arity == ColumnArity::Required
}

/// Whether the type as the database states it differs although the family
/// does not.
pub open spec fn type_restated(previous: ColumnView, next: ColumnView) -> bool {
    !changes_between(previous, next).tpe && previous.data_type != next.data_type
}

/// What altering a column that is neither safe nor impossible adds to the
/// plan under MySQL: the warning for the alteration, behind the warning for
/// a restated type where there is one.
pub open spec fn mysql_modify_warnings(
    table: Seq<char>,
    previous: ColumnView,
    next: ColumnView,
) -> PlanView {
    let alter = PlanView::warning(WarningView::AlterColumn { table, column: next.name });
    if type_restated(previous, next) {
        PlanView::warning(
            WarningView::MysqlColumnTypeRestatement {
                table,
                column: previous.name,
                previous_type: previous.data_type,
                next_type: next.data_type,
            },
        ).followed_by(alter)
    } else {
        alter
    }
}

/// What altering `previous` into `next` in the table called `table` adds to
/// the plan under MySQL.
///
/// Dropping a default is safe, and so is a change of nothing but the default.
/// A column that becomes required cannot be altered while it may hold NULLs.
/// Every other alteration is warned of.
pub open spec fn mysql_column_check(
    table: Seq<char>,
    previous: ColumnView,
    next: ColumnView,
) -> PlanView {
    match mysql_alter_column(previous, next) {
        MysqlAlterColumnView::DropDefault => PlanView::empty(),
        MysqlAlterColumnView::Modify { changes, .. } => if changes.only_default_changed() {
            PlanView::empty()
        } else if made_required(previous, next) {
            PlanView::unexecutable_step(
                UnexecutableView::MadeOptionalFieldRequired { column: previous.name, table },
            )
        } else {
            mysql_modify_warnings(table, previous, next)
        },
    }
}

/// What altering `previous` into `next` adds to the plan under a dialect
/// without rules of its own: nothing where only the default changes, an
/// unexecutable step where the column becomes required, a warning otherwise.
pub open spec fn plain_column_check(
    table: Seq<char>,
    previous: ColumnView,
    next: ColumnView,
) -> PlanView {
    if changes_between(previous, next).only_default_changed() {
        PlanView::empty()
    } else if made_required(previous, next) {
        PlanView::unexecutable_step(
            UnexecutableView::MadeOptionalFieldRequired { column: previous.name, table },
        )
    } else {
        PlanView::warning(WarningView::AlterColumn { table, column: next.name })
    }
}

/// What altering `previous` into `next` adds to the plan under `family`.
pub open spec fn column_check(
    family: SqlFamily,
    table: Seq<char>,
    previous: ColumnView,
    next: ColumnView,
) -> PlanView {
    match family {
        SqlFamily::Mysql => mysql_column_check(table, previous, next),
        SqlFamily::Postgres => plain_column_check(table, previous, next),
        SqlFamily::Sqlite => plain_column_check(table, previous, next),
    }
}

/// A change of nothing but the default adds nothing to the plan, whatever
/// the dialect.
pub proof fn lemma_default_change_is_safe(
    family: SqlFamily,
    table: Seq<char>,
    previous: ColumnView,
    next: ColumnView,
)
    requires
        changes_between(previous, next).only_default_changed(),
    ensures
        column_check(family, table, previous, next) == PlanView::empty(),
{
}

/// Under MySQL a column that goes from nullable to required adds exactly one
/// unexecutable step, which names the column and the table, and no warning.
pub proof fn lemma_mysql_made_required(table: Seq<char>, previous: ColumnView, next: ColumnView)
    requires
        previous.arity == ColumnArity::Nullable,
        next.arity == ColumnArity::Required,
    ensures
        mysql_column_check(table, previous, next) == PlanView::unexecutable_step(
            UnexecutableView::MadeOptionalFieldRequired { column: previous.name, table },
        ),
        mysql_column_check(table, previous, next).warnings.len() == 0,
        mysql_column_check(table, previous, next).unexecutable.len() == 1,
{
}

/// Under MySQL a column of which the stated type differs and the family does
/// not adds two warnings, the restatement before the alteration, unless the
/// alteration is safe or impossible anyway: unless nothing but the default
/// changes, or the column becomes required.
pub proof fn lemma_mysql_type_restatement(table: Seq<char>, previous: ColumnView, next: ColumnView)
    requires
        type_restated(previous, next),
        !changes_between(previous, next).only_default_changed(),
        !made_required(previous, next),
    ensures
        mysql_column_check(table, previous, next).unexecutable.len() == 0,
        mysql_column_check(table, previous, next).warnings == seq![
            WarningView::MysqlColumnTypeRestatement {
                table,
                column: previous.name,
                previous_type: previous.data_type,
                next_type: next.data_type,
            },
            WarningView::AlterColumn { table, column: next.name },
        ],
{
    let found = mysql_column_check(table, previous, next);
    assert(found.warnings =~= seq![
        WarningView::MysqlColumnTypeRestatement {
            table,
            column: previous.name,
            previous_type: previous.data_type,
            next_type: next.data_type,
        },
        WarningView::AlterColumn { table, column: next.name },
    ]);
    assert(found.unexecutable =~= Seq::empty());
}

/// Dropping a default adds nothing to the plan, whatever the table and the
/// column are called.
pub proof fn lemma_mysql_drop_default_is_safe(
    table: Seq<char>,
    previous: ColumnView,
    next: ColumnView,
)
    requires
        mysql_alter_column(previous, next) is DropDefault,
    ensures
        mysql_column_check(table, previous, next) == PlanView::empty(),
{
}

pub struct MysqlFlavour;

pub struct PostgresFlavour;

pub struct SqliteFlavour;

/// Adds to the plan what a dialect without rules of its own has to say of
/// the alteration.
fn check_plain_alter_column(
    previous_table: &Table,
    columns: &ColumnDiffer<'_>,
    plan: &mut DestructiveCheckPlan,
)
    ensures
        final(plan)@ == old(plan)@.followed_by(
            plain_column_check(previous_table@.name, columns.previous@, columns.next@),
        ),
{
    let changes = columns.all_changes();
    if changes.only_default_changed() {
        assert(plan@ == plan@.followed_by(PlanView::empty())) by {
            assert(plan@.warnings + Seq::empty() =~= plan@.warnings);
            assert(plan@.unexecutable + Seq::empty() =~= plan@.unexecutable);
        }
    } else if changes.arity_changed() && columns.next.tpe.arity.is_required() {
        plan.push_unexecutable(
            UnexecutableStepCheck::MadeOptionalFieldRequired {
                column: columns.previous.name.clone(),
                table: previous_table.name.clone(),
            },
        );
    } else {
        plan.push_warning(
            SqlMigrationWarning::AlterColumn {
                table: previous_table.name.clone(),
                column: columns.next.name.clone(),
            },
        );
    }
}

impl MysqlFlavour {
    /// Adds to the plan what MySQL has to say of the alteration.
    pub fn check_alter_column(
        &self,
        previous_table: &Table,
        columns: &ColumnDiffer<'_>,
        plan: &mut DestructiveCheckPlan,
    )
        ensures
            final(plan)@ == old(plan)@.followed_by(
                mysql_column_check(previous_table@.name, columns.previous@, columns.next@),
            ),
    {
        let ghost start = plan@;
        proof {
            assert(start == start.followed_by(PlanView::empty())) by {
                assert(start.warnings + Seq::empty() =~= start.warnings);
                assert(start.unexecutable + Seq::empty() =~= start.unexecutable);
            }
        }
        match expand_mysql_alter_column(columns) {
            // Dropping a default is safe.
            MysqlAlterColumn::DropDefault => {},
            MysqlAlterColumn::Modify { changes, .. } => {
                if changes.only_default_changed() {
                    // The step is safe.
                } else if columns.all_changes().arity_changed()
                    && columns.next.tpe.arity.is_required() {
                    // The column went from nullable to required. This cannot be
                    // executed unless the column holds no NULL.
                    plan.push_unexecutable(
                        UnexecutableStepCheck::MadeOptionalFieldRequired {
                            column: columns.previous.name.clone(),
                            table: previous_table.name.clone(),
                        },
                    );
                } else {
                    // The family is the same, but MODIFY states the type
                    // anew, and that may still change the column.
                    if !columns.all_changes().type_changed() && columns.previous.tpe.data_type
                        != columns.next.tpe.data_type {
                        plan.push_warning(
                            SqlMigrationWarning::MysqlColumnTypeRestatement {
                                table: previous_table.name.clone(),
                                column: columns.previous.name.clone(),
                                previous_type: columns.previous.tpe.data_type.clone(),
                                next_type: columns.next.tpe.data_type.clone(),
                            },
                        );
                    }
                    plan.push_warning(
                        SqlMigrationWarning::AlterColumn {
                            table: previous_table.name.clone(),
                            column: columns.next.name.clone(),
                        },
                    );
                    proof {
                        let delta = mysql_modify_warnings(
                            previous_table@.name,
                            columns.previous@,
                            columns.next@,
                        );
                        assert(plan@.warnings =~= start.warnings + delta.warnings);
                        assert(plan@.unexecutable =~= start.unexecutable + delta.unexecutable);
                    }
                }
            },
        }
    }
}

impl PostgresFlavour {
    /// Adds to the plan what the alteration amounts to. The dialect has no
    /// rules of its own yet.
    pub fn check_alter_column(
        &self,
        previous_table: &Table,
        columns: &ColumnDiffer<'_>,
        plan: &mut DestructiveCheckPlan,
    )
        ensures
            final(plan)@ == old(plan)@.followed_by(
                plain_column_check(previous_table@.name, columns.previous@, columns.next@),
            ),
    {
        check_plain_alter_column(previous_table, columns, plan)
    }
}

impl SqliteFlavour {
    /// Adds to the plan what the alteration amounts to. The dialect has no
    /// rules of its own yet.
    pub fn check_alter_column(
        &self,
        previous_table: &Table,
        columns: &ColumnDiffer<'_>,
        plan: &mut DestructiveCheckPlan,
    )
        ensures
            final(plan)@ == old(plan)@.followed_by(
                plain_column_check(previous_table@.name, columns.previous@, columns.next@),
            ),
    {
        check_plain_alter_column(previous_table, columns, plan)
    }
}

impl SqlFamily {
    /// Adds to the plan what the dialect has to say of the alteration.
    pub fn check_alter_column(
        &self,
        previous_table: &Table,
        columns: &ColumnDiffer<'_>,
        plan: &mut DestructiveCheckPlan,
    )
        ensures
            final(plan)@ == old(plan)@.followed_by(
                column_check(*self, previous_table@.name, columns.previous@, columns.next@),
            ),
    {
        match self {
            SqlFamily::Mysql => MysqlFlavour.check_alter_column(previous_table, columns, plan),
            SqlFamily::Postgres => PostgresFlavour.check_alter_column(previous_table, columns, plan),
            SqlFamily::Sqlite => SqliteFlavour.check_alter_column(previous_table, columns, plan),
        }
    }
}

} // verus!
