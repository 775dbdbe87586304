use engine_core::database_setup::{create_database_statement, create_schema_statement};
use engine_core::destructive_check_plan::{
    DestructiveCheckPlan, MigrationVerdict, SqlMigrationWarning, UnexecutableStepCheck,
};
use engine_core::expanded_alter_column::{expand_mysql_alter_column, MysqlAlterColumn};
use engine_core::flavour::{MysqlFlavour, PostgresFlavour, SqlFamily, SqliteFlavour};
use engine_core::sql_destructive_changes_checker::SqlDestructiveChangesChecker;
use engine_core::sql_schema::{
    Column, ColumnArity, ColumnType, ColumnTypeFamily, SqlSchema, Table,
};
use engine_core::sql_schema_differ::{ColumnChanges, ColumnDiffer};

fn column(
    name: &str,
    data_type: &str,
    family: ColumnTypeFamily,
    arity: ColumnArity,
    default: Option<&str>,
) -> Column {
    Column {
        name: name.to_string(),
        tpe: ColumnType { data_type: data_type.to_string(), family, arity },
        default: default.map(|d| d.to_string()),
    }
}

fn text(name: &str, arity: ColumnArity, default: Option<&str>) -> Column {
    column(name, "varchar(191)", ColumnTypeFamily::String, arity, default)
}

fn table(name: &str, columns: Vec<Column>) -> Table {
    Table { name: name.to_string(), columns }
}

fn schema(tables: Vec<Table>) -> SqlSchema {
    SqlSchema { tables }
}

fn check(family: SqlFamily, before: &SqlSchema, after: &SqlSchema) -> DestructiveCheckPlan {
    SqlDestructiveChangesChecker::new(family).check(before, after)
}

#[test]
fn users_email_made_required_is_unexecutable_under_mysql() {
    let before = schema(vec![table("users", vec![text("email", ColumnArity::Nullable, None)])]);
    let after = schema(vec![table("users", vec![text("email", ColumnArity::Required, None)])]);
    let plan = check(SqlFamily::Mysql, &before, &after);
    assert_eq!(
        plan.unexecutable(),
        &vec![UnexecutableStepCheck::MadeOptionalFieldRequired {
            table: "users".to_string(),
            column: "email".to_string(),
        }]
    );
    assert!(plan.warnings().is_empty());
    assert_eq!(plan.verdict(), MigrationVerdict::Abort);
    assert!(!plan.may_proceed(true));
    assert!(!plan.may_proceed(false));
}

#[test]
fn posts_title_default_change_leaves_the_plan_empty() {
    let before = schema(vec![table("posts", vec![text("title", ColumnArity::Nullable, None)])]);
    let after =
        schema(vec![table("posts", vec![text("title", ColumnArity::Nullable, Some("'untitled'"))])]);
    let plan = check(SqlFamily::Mysql, &before, &after);
    assert!(plan.is_empty());
    assert!(plan.warnings().is_empty());
    assert!(plan.unexecutable().is_empty());
    assert_eq!(plan.verdict(), MigrationVerdict::Proceed);
    assert!(plan.may_proceed(false));
}

#[test]
fn default_change_between_two_values_is_safe_in_every_dialect() {
    let previous = text("title", ColumnArity::Required, Some("'a'"));
    let next = text("title", ColumnArity::Required, Some("'b'"));
    let users = table("posts", vec![previous.clone()]);
    let columns = ColumnDiffer { previous: &previous, next: &next };
    for family in [SqlFamily::Mysql, SqlFamily::Postgres, SqlFamily::Sqlite] {
        let mut plan = DestructiveCheckPlan::new();
        family.check_alter_column(&users, &columns, &mut plan);
        assert!(plan.is_empty());
    }
}

#[test]
fn mysql_drop_default_is_safe() {
    let previous = text("title", ColumnArity::Required, Some("'a'"));
    let next = text("title", ColumnArity::Required, None);
    let posts = table("posts", vec![previous.clone()]);
    let columns = ColumnDiffer { previous: &previous, next: &next };
    assert_eq!(expand_mysql_alter_column(&columns), MysqlAlterColumn::DropDefault);
    let mut plan = DestructiveCheckPlan::new();
    MysqlFlavour.check_alter_column(&posts, &columns, &mut plan);
    assert!(plan.is_empty());
}

#[test]
fn mysql_modify_carries_changes_and_new_default() {
    let previous = text("title", ColumnArity::Nullable, Some("'a'"));
    let next = text("title", ColumnArity::Required, Some("'b'"));
    let columns = ColumnDiffer { previous: &previous, next: &next };
    assert_eq!(
        expand_mysql_alter_column(&columns),
        MysqlAlterColumn::Modify {
            changes: ColumnChanges { renaming: false, tpe: false, arity: true, default: true },
            new_default: Some("'b'".to_string()),
        }
    );
}

#[test]
fn mysql_type_restatement_comes_before_alter_column() {
    let previous = column("age", "int(11)", ColumnTypeFamily::Int, ColumnArity::Required, None);
    let next = column("age", "bigint(20)", ColumnTypeFamily::Int, ColumnArity::Nullable, None);
    let before = schema(vec![table("users", vec![previous])]);
    let after = schema(vec![table("users", vec![next])]);
    let plan = check(SqlFamily::Mysql, &before, &after);
    assert!(plan.unexecutable().is_empty());
    assert_eq!(
        plan.warnings(),
        &vec![
            SqlMigrationWarning::MysqlColumnTypeRestatement {
                table: "users".to_string(),
                column: "age".to_string(),
                previous_type: "int(11)".to_string(),
                next_type: "bigint(20)".to_string(),
            },
            SqlMigrationWarning::AlterColumn {
                table: "users".to_string(),
                column: "age".to_string(),
            },
        ]
    );
    assert_eq!(plan.verdict(), MigrationVerdict::ProceedWithForce);
    assert!(plan.may_proceed(true));
    assert!(!plan.may_proceed(false));
}

#[test]
fn mysql_family_change_warns_once() {
    let previous = column("age", "int(11)", ColumnTypeFamily::Int, ColumnArity::Required, None);
    let next = column("age", "varchar(191)", ColumnTypeFamily::String, ColumnArity::Required, None);
    let users = table("users", vec![previous.clone()]);
    let columns = ColumnDiffer { previous: &previous, next: &next };
    let mut plan = DestructiveCheckPlan::new();
    MysqlFlavour.check_alter_column(&users, &columns, &mut plan);
    assert_eq!(
        plan.warnings(),
        &vec![SqlMigrationWarning::AlterColumn {
            table: "users".to_string(),
            column: "age".to_string(),
        }]
    );
    assert!(plan.unexecutable().is_empty());
}

#[test]
fn mysql_restated_type_with_only_a_new_default_is_safe() {
    let previous = column("age", "int(11)", ColumnTypeFamily::Int, ColumnArity::Required, None);
    let next = column("age", "bigint(20)", ColumnTypeFamily::Int, ColumnArity::Required, Some("1"));
    let users = table("users", vec![previous.clone()]);
    let columns = ColumnDiffer { previous: &previous, next: &next };
    let mut plan = DestructiveCheckPlan::new();
    MysqlFlavour.check_alter_column(&users, &columns, &mut plan);
    assert!(plan.is_empty());
}

#[test]
fn required_to_nullable_is_a_warning_not_an_error() {
    let previous = text("email", ColumnArity::Required, None);
    let next = text("email", ColumnArity::Nullable, None);
    let users = table("users", vec![previous.clone()]);
    let columns = ColumnDiffer { previous: &previous, next: &next };
    let mut plan = DestructiveCheckPlan::new();
    MysqlFlavour.check_alter_column(&users, &columns, &mut plan);
    assert!(plan.unexecutable().is_empty());
    assert_eq!(
        plan.warnings(),
        &vec![SqlMigrationWarning::AlterColumn {
            table: "users".to_string(),
            column: "email".to_string(),
        }]
    );
}

#[test]
fn other_dialects_do_not_warn_of_restated_types() {
    let previous = column("age", "int4", ColumnTypeFamily::Int, ColumnArity::Required, None);
    let next = column("age", "int8", ColumnTypeFamily::Int, ColumnArity::Nullable, None);
    let users = table("users", vec![previous.clone()]);
    let columns = ColumnDiffer { previous: &previous, next: &next };
    let expected = vec![SqlMigrationWarning::AlterColumn {
        table: "users".to_string(),
        column: "age".to_string(),
    }];
    let mut plan = DestructiveCheckPlan::new();
    PostgresFlavour.check_alter_column(&users, &columns, &mut plan);
    assert_eq!(plan.warnings(), &expected);
    let mut plan = DestructiveCheckPlan::new();
    SqliteFlavour.check_alter_column(&users, &columns, &mut plan);
    assert_eq!(plan.warnings(), &expected);
}

#[test]
fn other_dialects_refuse_a_column_made_required() {
    let previous = text("email", ColumnArity::Nullable, None);
    let next = text("email", ColumnArity::Required, None);
    let users = table("users", vec![previous.clone()]);
    let columns = ColumnDiffer { previous: &previous, next: &next };
    let mut plan = DestructiveCheckPlan::new();
    PostgresFlavour.check_alter_column(&users, &columns, &mut plan);
    assert!(plan.warnings().is_empty());
    assert_eq!(
        plan.unexecutable(),
        &vec![UnexecutableStepCheck::MadeOptionalFieldRequired {
            table: "users".to_string(),
            column: "email".to_string(),
        }]
    );
}

#[test]
fn column_changes_are_derived_from_both_columns() {
    let previous = column("a", "int", ColumnTypeFamily::Int, ColumnArity::Required, Some("1"));
    let next = column("b", "text", ColumnTypeFamily::String, ColumnArity::Nullable, None);
    let columns = ColumnDiffer { previous: &previous, next: &next };
    assert_eq!(columns.name(), "a");
    let changes = columns.all_changes();
    assert!(changes.column_was_renamed());
    assert!(changes.type_changed());
    assert!(changes.arity_changed());
    assert!(changes.default);
    assert!(!changes.only_default_changed());
    assert!(changes.differs_in_something());
    let same = ColumnDiffer { previous: &previous, next: &previous };
    assert!(!same.differs_in_something());
    assert_eq!(
        same.all_changes(),
        ColumnChanges { renaming: false, tpe: false, arity: false, default: false }
    );
}

#[test]
fn unchanged_schema_gives_an_empty_plan() {
    let users = table(
        "users",
        vec![text("email", ColumnArity::Required, None), text("name", ColumnArity::Nullable, None)],
    );
    let before = schema(vec![users.clone()]);
    let after = schema(vec![users]);
    for family in [SqlFamily::Mysql, SqlFamily::Postgres, SqlFamily::Sqlite] {
        assert!(check(family, &before, &after).is_empty());
    }
}

#[test]
fn restated_type_alone_is_no_alteration_for_the_walk() {
    let before = schema(vec![table(
        "users",
        vec![column("age", "int(11)", ColumnTypeFamily::Int, ColumnArity::Required, None)],
    )]);
    let after = schema(vec![table(
        "users",
        vec![column("age", "int", ColumnTypeFamily::Int, ColumnArity::Required, None)],
    )]);
    assert!(check(SqlFamily::Mysql, &before, &after).is_empty());
}

#[test]
fn dropped_table_is_always_a_warning() {
    let before = schema(vec![table("users", vec![]), table("posts", vec![])]);
    let after = schema(vec![table("posts", vec![])]);
    let plan = check(SqlFamily::Sqlite, &before, &after);
    assert_eq!(
        plan.warnings(),
        &vec![SqlMigrationWarning::TableDropped { table: "users".to_string() }]
    );
    assert!(plan.unexecutable().is_empty());
}

#[test]
fn added_table_adds_nothing() {
    let before = schema(vec![]);
    let after = schema(vec![table("users", vec![text("email", ColumnArity::Required, None)])]);
    assert!(check(SqlFamily::Postgres, &before, &after).is_empty());
}

#[test]
fn dropped_column_is_a_warning() {
    let before = schema(vec![table(
        "users",
        vec![text("email", ColumnArity::Required, None), text("name", ColumnArity::Nullable, None)],
    )]);
    let after = schema(vec![table("users", vec![text("email", ColumnArity::Required, None)])]);
    let plan = check(SqlFamily::Mysql, &before, &after);
    assert_eq!(
        plan.warnings(),
        &vec![SqlMigrationWarning::ColumnDropped {
            table: "users".to_string(),
            column: "name".to_string(),
        }]
    );
    assert!(plan.unexecutable().is_empty());
}

#[test]
fn added_required_column_without_default_is_unexecutable() {
    let before = schema(vec![table("users", vec![text("email", ColumnArity::Required, None)])]);
    let after = schema(vec![table(
        "users",
        vec![
            text("email", ColumnArity::Required, None),
            text("name", ColumnArity::Required, None),
            text("nick", ColumnArity::Nullable, None),
            text("city", ColumnArity::Required, Some("''")),
        ],
    )]);
    let plan = check(SqlFamily::Postgres, &before, &after);
    assert!(plan.warnings().is_empty());
    assert_eq!(
        plan.unexecutable(),
        &vec![UnexecutableStepCheck::AddedRequiredFieldToTable {
            table: "users".to_string(),
            column: "name".to_string(),
        }]
    );
}

#[test]
fn plan_follows_tables_then_columns() {
    let before = schema(vec![
        table(
            "a",
            vec![
                text("x", ColumnArity::Nullable, None),
                text("y", ColumnArity::Required, None),
                text("z", ColumnArity::Required, None),
            ],
        ),
        table("b", vec![]),
        table("c", vec![text("p", ColumnArity::Nullable, None)]),
    ]);
    let after = schema(vec![
        table(
            "c",
            vec![text("p", ColumnArity::Required, None), text("q", ColumnArity::Required, None)],
        ),
        table(
            "a",
            vec![
                text("w", ColumnArity::Required, None),
                text("y", ColumnArity::Nullable, None),
                text("x", ColumnArity::Required, None),
            ],
        ),
    ]);
    let plan = check(SqlFamily::Mysql, &before, &after);
    assert_eq!(
        plan.warnings(),
        &vec![
            SqlMigrationWarning::AlterColumn { table: "a".to_string(), column: "y".to_string() },
            SqlMigrationWarning::ColumnDropped { table: "a".to_string(), column: "z".to_string() },
            SqlMigrationWarning::TableDropped { table: "b".to_string() },
        ]
    );
    assert_eq!(
        plan.unexecutable(),
        &vec![
            UnexecutableStepCheck::MadeOptionalFieldRequired {
                table: "a".to_string(),
                column: "x".to_string(),
            },
            UnexecutableStepCheck::AddedRequiredFieldToTable {
                table: "a".to_string(),
                column: "w".to_string(),
            },
            UnexecutableStepCheck::MadeOptionalFieldRequired {
                table: "c".to_string(),
                column: "p".to_string(),
            },
            UnexecutableStepCheck::AddedRequiredFieldToTable {
                table: "c".to_string(),
                column: "q".to_string(),
            },
        ]
    );
}

#[test]
fn first_table_and_column_of_a_name_are_found() {
    let s = schema(vec![
        table("users", vec![text("email", ColumnArity::Required, None)]),
        table("users", vec![]),
    ]);
    let found = s.table(&"users".to_string()).unwrap();
    assert_eq!(found.columns.len(), 1);
    assert!(s.table(&"posts".to_string()).is_none());
    assert_eq!(
        found.column(&"email".to_string()),
        Some(&text("email", ColumnArity::Required, None))
    );
    assert!(found.column(&"name".to_string()).is_none());
}

#[test]
fn arity_tells_required_from_nullable() {
    assert!(ColumnArity::Required.is_required());
    assert!(!ColumnArity::Required.is_nullable());
    assert!(ColumnArity::Nullable.is_nullable());
    assert!(!ColumnArity::Nullable.is_required());
}

#[test]
fn plan_keeps_the_order_of_its_entries() {
    let mut plan = DestructiveCheckPlan::new();
    assert!(plan.is_empty());
    let first = SqlMigrationWarning::TableDropped { table: "a".to_string() };
    let second = SqlMigrationWarning::AlterColumn { table: "b".to_string(), column: "c".to_string() };
    plan.push_warning(first.clone());
    plan.push_warning(second.clone());
    assert_eq!(plan.warnings(), &vec![first, second]);
    assert_eq!(plan.verdict(), MigrationVerdict::ProceedWithForce);
    let step = UnexecutableStepCheck::AddedRequiredFieldToTable {
        table: "a".to_string(),
        column: "b".to_string(),
    };
    plan.push_unexecutable(step.clone());
    assert_eq!(plan.unexecutable(), &vec![step]);
    assert_eq!(plan.warnings().len(), 2);
    assert_eq!(plan.verdict(), MigrationVerdict::Abort);
}

#[test]
fn create_database_statement_quotes_by_dialect() {
    assert_eq!(
        create_database_statement(SqlFamily::Postgres, "shop"),
        Some("CREATE DATABASE \"shop\"".to_string())
    );
    assert_eq!(
        create_database_statement(SqlFamily::Mysql, "shop"),
        Some("CREATE DATABASE `shop`".to_string())
    );
    assert_eq!(create_database_statement(SqlFamily::Sqlite, "shop"), None);
}

#[test]
fn create_schema_statement_quotes_by_dialect() {
    assert_eq!(
        create_schema_statement(SqlFamily::Postgres, "lift"),
        Some("CREATE SCHEMA IF NOT EXISTS \"lift\";".to_string())
    );
    assert_eq!(
        create_schema_statement(SqlFamily::Mysql, "lift"),
        Some("CREATE SCHEMA IF NOT EXISTS `lift` DEFAULT CHARACTER SET latin1;".to_string())
    );
    assert_eq!(create_schema_statement(SqlFamily::Sqlite, "lift"), None);
}
