//! The statements by which a database and its schema are brought into being.

use crate::flavour::SqlFamily;
use vstd::prelude::*;
use vstd::string::StringExecFns;

verus! {

/// The statement that creates the database called `db_name`. SQLite needs
/// none: the database is a file.
pub open spec fn create_database_sql(family: SqlFamily, db_name: Seq<char>) -> Option<Seq<char>> {
    match family {
        SqlFamily::Postgres => Some("CREATE DATABASE \""@ + db_name + "\""@),
        SqlFamily::Sqlite => None,
        SqlFamily::Mysql => Some("CREATE DATABASE `"@ + db_name + "`"@),
    }
}

/// The statement that creates the schema called `schema_name` unless it is
/// there. SQLite needs none.
pub open spec fn create_schema_sql(family: SqlFamily, schema_name: Seq<char>) -> Option<
    Seq<char>,
> {
    match family {
        SqlFamily::Postgres => Some("CREATE SCHEMA IF NOT EXISTS \""@ + schema_name + "\";"@),
        SqlFamily::Sqlite => None,
        SqlFamily::Mysql => Some(
            "CREATE SCHEMA IF NOT EXISTS `"@ + schema_name + "` DEFAULT CHARACTER SET latin1;"@,
        ),
    }
}

/// `name` between `before` and `after`.
fn enclose(before: &str, name: &str, after: &str) -> (out: String)
    ensures
        out@ == before@ + name@ + after@,
{
    String::from_str(before).concat(name).concat(after)
}

/// The statement that creates the database called `db_name`, where the
/// dialect needs one.
pub fn create_database_statement(family: SqlFamily, db_name: &str) -> (sql: Option<String>)
    ensures
        (match sql {
            Some(s) => Some(s@),
            None => None,
        }) == create_database_sql(family, db_name@),
{
    match family {
        SqlFamily::Postgres => Some(enclose("CREATE DATABASE \"", db_name, "\"")),
        SqlFamily::Sqlite => None,
        SqlFamily::Mysql => Some(enclose("CREATE DATABASE `", db_name, "`")),
    }
}

/// The statement that creates the schema called `schema_name` unless it is
/// there, where the dialect needs one.
pub fn create_schema_statement(family: SqlFamily, schema_name: &str) -> (sql: Option<String>)
    ensures
        (match sql {
            Some(s) => Some(s@),
            None => None,
        }) == create_schema_sql(family, schema_name@),
{
    match family {
        SqlFamily::Postgres => Some(enclose("CREATE SCHEMA IF NOT EXISTS \"", schema_name, "\";")),
        SqlFamily::Sqlite => None,
        SqlFamily::Mysql => Some(
            enclose("CREATE SCHEMA IF NOT EXISTS `", schema_name, "` DEFAULT CHARACTER SET latin1;"),
        ),
    }
}

} // verus!
