//! What altering a column amounts to in one dialect.

use crate::sql_schema::ColumnView;
use crate::sql_schema_differ::{changes_between, ColumnChanges, ColumnDiffer};
use vstd::prelude::*;

verus! {

/// The statement by which MySQL alters a column.
#[derive(Clone, Debug, PartialEq, Eq)]
pub enum MysqlAlterColumn {
    /// `ALTER COLUMN .. DROP DEFAULT`.
    DropDefault,
    /// `MODIFY`, which states the whole column anew.
    Modify { changes: ColumnChanges, new_default: Option<String> },
}

pub enum MysqlAlterColumnView {
    DropDefault,
    Modify { changes: ColumnChanges, new_default: Option<Seq<char>> },
}

impl View for MysqlAlterColumn {
    type V = MysqlAlterColumnView;

    open spec fn view(&self) -> MysqlAlterColumnView {
        match self {
            MysqlAlterColumn::DropDefault => MysqlAlterColumnView::DropDefault,
            MysqlAlterColumn::Modify { changes, new_default } => MysqlAlterColumnView::Modify {
                changes: *changes,
                new_default: match new_default {
                    Some(d) => Some(d@),
                    None => None,
                },
            },
        }
    }
}

/// How MySQL alters `previous` into `next`: by dropping the default where
/// nothing but the default changes and the column ends without one, by
/// stating the column anew otherwise.
pub open spec fn mysql_alter_column(previous: ColumnView, next: ColumnView) -> MysqlAlterColumnView {
    let changes = changes_between(previous, next);
    if changes.only_default_changed() && next.default is None {
        MysqlAlterColumnView::DropDefault
    } else {
        MysqlAlterColumnView::Modify { changes, new_default: next.default }
    }
}

/// The statement by which MySQL alters the column.
pub fn expand_mysql_alter_column(columns: &ColumnDiffer<'_>) -> (alter: MysqlAlterColumn)
    ensures
        alter@ == mysql_alter_column(columns.previous@, columns.next@),
{
    let column_changes = columns.all_changes();
    if column_changes.only_default_changed() && columns.next.default.is_none() {
        return MysqlAlterColumn::DropDefault;
    }
    let new_default = match &columns.next.default {
        Some(d) => Some(d.clone()),
        None => None,
    };
    MysqlAlterColumn::Modify { changes: column_changes, new_default }
}

} // verus!
