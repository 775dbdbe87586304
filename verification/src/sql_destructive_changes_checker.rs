//! The walk over two schemas that fills the plan of a migration.

use crate::destructive_check_plan::{
    lemma_followed_by_associative, lemma_followed_by_empty, DestructiveCheckPlan, PlanView,
    SqlMigrationWarning, UnexecutableStepCheck, UnexecutableView, WarningView,
};
use crate::flavour::{
    column_check, lemma_default_change_is_safe, lemma_mysql_made_required, SqlFamily,
};
use crate::sql_schema::{
    lemma_distinct_name_found, Column, ColumnArity, ColumnView, SchemaView, SqlSchema, Table,
    TableView,
};
use crate::sql_schema_differ::{changes_between, ColumnDiffer};
use vstd::prelude::*;

verus! {

/// What one column of a table that stays adds to the plan: a warning where
/// the column is dropped, the dialect's verdict where it is altered, nothing
/// where it stays as it is.
pub open spec fn column_step(
    family: SqlFamily,
    previous_table: TableView,
    next_table: TableView,
    column: ColumnView,
) -> PlanView {
    match next_table.column(column.name) {
        None => PlanView::warning(
            WarningView::ColumnDropped { table: previous_table.name, column: column.name },
        ),
        Some(next) => if changes_between(column, next).differs_in_something() {
            column_check(family, previous_table.name, column, next)
        } else {
            PlanView::empty()
        },
    }
}

/// What the first `k` columns of `previous_table` add to the plan, in order.
pub open spec fn previous_columns_check(
    family: SqlFamily,
    previous_table: TableView,
    next_table: TableView,
    k: nat,
) -> PlanView
    decreases k,
{
    if k == 0 {
        PlanView::empty()
    } else {
        previous_columns_check(family, previous_table, next_table, (k - 1) as nat).followed_by(
            column_step(family, previous_table, next_table, previous_table.columns[k - 1]),
        )
    }
}

/// What one column of the table as it is to be adds to the plan: an
/// unexecutable step where the column is new, required and without a
/// default, since the rows that are there have no value for it.
pub open spec fn added_column_step(previous_table: TableView, column: ColumnView) -> PlanView {
    if previous_table.column(column.name) is None && column.arity == ColumnArity::Required
        && column.default is None {
        PlanView::unexecutable_step(
            UnexecutableView::AddedRequiredFieldToTable {
                table: previous_table.name,
                column: column.name,
            },
        )
    } else {
        PlanView::empty()
    }
}

/// What the first `k` columns of `next_table` add to the plan as new columns,
/// in order.
pub open spec fn added_columns_check(
    previous_table: TableView,
    next_table: TableView,
    k: nat,
) -> PlanView
    decreases k,
{
    if k == 0 {
        PlanView::empty()
    } else {
        added_columns_check(previous_table, next_table, (k - 1) as nat).followed_by(
            added_column_step(previous_table, next_table.columns[k - 1]),
        )
    }
}

/// What one table of the schema as it was adds to the plan: a warning where
/// the table is dropped; otherwise what its columns add, in their order, and
/// behind that what the new columns add, in theirs.
pub open spec fn table_check(
    family: SqlFamily,
    previous_table: TableView,
    after: SchemaView,
) -> PlanView {
    match after.table(previous_table.name) {
        None => PlanView::warning(WarningView::TableDropped { table: previous_table.name }),
        Some(next_table) => previous_columns_check(
            family,
            previous_table,
            next_table,
            previous_table.columns.len(),
        ).followed_by(
            added_columns_check(previous_table, next_table, next_table.columns.len()),
        ),
    }
}

/// What the first `k` tables of `before` add to the plan, in order.
pub open spec fn tables_check(
    family: SqlFamily,
    before: SchemaView,
    after: SchemaView,
    k: nat,
) -> PlanView
    decreases k,
{
    if k == 0 {
        PlanView::empty()
    } else {
        tables_check(family, before, after, (k - 1) as nat).followed_by(
            table_check(family, before.tables[k - 1], after),
        )
    }
}

/// The plan of the migration from `before` to `after` under `family`: what
/// the tables of `before` add, in their order. A table that is only in
/// `after` adds nothing.
pub open spec fn schema_check(family: SqlFamily, before: SchemaView, after: SchemaView) -> PlanView {
    tables_check(family, before, after, before.tables.len())
}

/// In the walk, a column of which nothing but the default changes adds
/// nothing to the plan, whatever the dialect.
pub proof fn lemma_walk_default_change_is_safe(
    family: SqlFamily,
    previous_table: TableView,
    next_table: TableView,
    column: ColumnView,
    next: ColumnView,
)
    requires
        next_table.column(column.name) == Some(next),
        changes_between(column, next).only_default_changed(),
    ensures
        column_step(family, previous_table, next_table, column) == PlanView::empty(),
{
    lemma_default_change_is_safe(family, previous_table.name, column, next);
}

/// In the walk under MySQL, a column that goes from nullable to required
/// adds one unexecutable step and no warning.
pub proof fn lemma_walk_mysql_made_required(
    previous_table: TableView,
    next_table: TableView,
    column: ColumnView,
    next: ColumnView,
)
    requires
        next_table.column(column.name) == Some(next),
        column.arity == ColumnArity::Nullable,
        next.arity == ColumnArity::Required,
    ensures
        column_step(SqlFamily::Mysql, previous_table, next_table, column)
            == PlanView::unexecutable_step(
            UnexecutableView::MadeOptionalFieldRequired {
                column: column.name,
                table: previous_table.name,
            },
        ),
{
    lemma_mysql_made_required(previous_table.name, column, next);
}

/// A table whose columns have distinct names adds nothing to the plan where
/// it stays as it is.
proof fn lemma_unchanged_columns_are_safe(family: SqlFamily, table: TableView, k: nat)
    requires
        table.column_names().no_duplicates(),
        k <= table.columns.len(),
    ensures
        previous_columns_check(family, table, table, k) == PlanView::empty(),
        added_columns_check(table, table, k) == PlanView::empty(),
    decreases k,
{
    if k > 0 {
        lemma_unchanged_columns_are_safe(family, table, (k - 1) as nat);
        lemma_distinct_name_found(table.column_names(), k - 1);
        lemma_followed_by_empty(PlanView::empty());
    }
}

/// A schema in which no name occurs twice, checked against itself, gives the
/// empty plan, whatever the dialect.
pub proof fn lemma_unchanged_schema_is_safe(family: SqlFamily, schema: SchemaView)
    requires
        schema.names_distinct(),
    ensures
        schema_check(family, schema, schema) == PlanView::empty(),
{
    lemma_unchanged_tables_are_safe(family, schema, schema.tables.len());
}

proof fn lemma_unchanged_tables_are_safe(family: SqlFamily, schema: SchemaView, k: nat)
    requires
        schema.names_distinct(),
        k <= schema.tables.len(),
    ensures
        tables_check(family, schema, schema, k) == PlanView::empty(),
    decreases k,
{
    if k > 0 {
        lemma_unchanged_tables_are_safe(family, schema, (k - 1) as nat);
        lemma_distinct_name_found(schema.table_names(), k - 1);
        let table = schema.tables[k - 1];
        lemma_unchanged_columns_are_safe(family, table, table.columns.len());
        lemma_followed_by_empty(PlanView::empty());
    }
}

/// Checks migrations for steps that lose data or cannot be executed.
pub struct SqlDestructiveChangesChecker {
    pub family: SqlFamily,
}

impl SqlDestructiveChangesChecker {
    pub fn new(family: SqlFamily) -> (checker: Self)
        ensures
            checker.family == family,
    {
        SqlDestructiveChangesChecker { family }
    }

    /// The plan of the migration from `before` to `after`.
    pub fn check(&self, before: &SqlSchema, after: &SqlSchema) -> (plan: DestructiveCheckPlan)
        ensures
            plan@ == schema_check(self.family, before@, after@),
    {
        let mut plan = DestructiveCheckPlan::new();
        let mut i: usize = 0;
        while i < before.tables.len()
            invariant
                i <= before.tables.len(),
                plan@ == tables_check(self.family, before@, after@, i as nat),
            decreases before.tables.len() - i,
        {
            self.check_table(&before.tables[i], after, &mut plan);
            i = i + 1;
        }
        plan
    }

    /// Adds to the plan what one table of the schema as it was has to add.
    pub fn check_table(
        &self,
        previous_table: &Table,
        after: &SqlSchema,
        plan: &mut DestructiveCheckPlan,
    )
        ensures
            final(plan)@ == old(plan)@.followed_by(
                table_check(self.family, previous_table@, after@),
            ),
    {
        let ghost start = plan@;
        let next_table = match after.table(&previous_table.name) {
            Some(next_table) => next_table,
            None => {
                plan.push_warning(
                    SqlMigrationWarning::TableDropped { table: previous_table.name.clone() },
                );
                return ;
            },
        };
        proof {
            lemma_followed_by_empty(start);
        }
        let mut i: usize = 0;
        while i < previous_table.columns.len()
            invariant
                i <= previous_table.columns.len(),
                plan@ == start.followed_by(
                    previous_columns_check(self.family, previous_table@, next_table@, i as nat),
                ),
            decreases previous_table.columns.len() - i,
        {
            let ghost sofar = previous_columns_check(
                self.family,
                previous_table@,
                next_table@,
                i as nat,
            );
            self.check_column(previous_table, next_table, &previous_table.columns[i], plan);
            proof {
                lemma_followed_by_associative(
                    start,
                    sofar,
                    column_step(
                        self.family,
                        previous_table@,
                        next_table@,
                        previous_table@.columns[i as int],
                    ),
                );
            }
            i = i + 1;
        }
        let ghost altered = previous_columns_check(
            self.family,
            previous_table@,
            next_table@,
            previous_table@.columns.len(),
        );
        proof {
            lemma_followed_by_empty(altered);
        }
        let mut j: usize = 0;
        while j < next_table.columns.len()
            invariant
                j <= next_table.columns.len(),
                altered == previous_columns_check(
                    self.family,
                    previous_table@,
                    next_table@,
                    previous_table@.columns.len(),
                ),
                plan@ == start.followed_by(
                    altered.followed_by(added_columns_check(previous_table@, next_table@, j as nat)),
                ),
            decreases next_table.columns.len() - j,
        {
            let ghost sofar = added_columns_check(previous_table@, next_table@, j as nat);
            let ghost step = added_column_step(previous_table@, next_table@.columns[j as int]);
            Self::check_added_column(previous_table, &next_table.columns[j], plan);
            proof {
                lemma_followed_by_associative(altered, sofar, step);
                lemma_followed_by_associative(start, altered.followed_by(sofar), step);
            }
            j = j + 1;
        }
    }

    /// Adds to the plan what one column of a table that stays has to add.
    pub fn check_column(
        &self,
        previous_table: &Table,
        next_table: &Table,
        column: &Column,
        plan: &mut DestructiveCheckPlan,
    )
        ensures
            final(plan)@ == old(plan)@.followed_by(
                column_step(self.family, previous_table@, next_table@, column@),
            ),
    {
        match next_table.column(&column.name) {
            None => {
                plan.push_warning(
                    SqlMigrationWarning::ColumnDropped {
                        table: previous_table.name.clone(),
                        column: column.name.clone(),
                    },
                );
            },
            Some(next) => {
                let columns = ColumnDiffer { previous: column, next };
                if columns.differs_in_something() {
                    self.family.check_alter_column(previous_table, &columns, plan);
                } else {
                    proof {
                        lemma_followed_by_empty(plan@);
                    }
                }
            },
        }
    }

    /// Adds to the plan what one column of the table as it is to be has to
    /// add as a new column.
    pub fn check_added_column(
        previous_table: &Table,
        column: &Column,
        plan: &mut DestructiveCheckPlan,
    )
        ensures
            final(plan)@ == old(plan)@.followed_by(added_column_step(previous_table@, column@)),
    {
        if previous_table.column(&column.name).is_none() && column.tpe.arity.is_required()
            && column.default.is_none() {
            plan.push_unexecutable(
                UnexecutableStepCheck::AddedRequiredFieldToTable {
                    table: previous_table.name.clone(),
                    column: column.name.clone(),
                },
            );
        } else {
            proof {
                lemma_followed_by_empty(plan@);
            }
        }
    }
}

} // verus!
