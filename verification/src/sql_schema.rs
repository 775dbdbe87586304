//! Description of a SQL schema: tables, and columns with their types.

use vstd::prelude::*;

verus! {

/// Whether a column may hold NULL.
#[derive(Clone, Copy, Debug, PartialEq, Eq, Structural)]
pub enum ColumnArity {
    Required,
    Nullable,
}

impl ColumnArity {
    pub fn is_required(&self) -> (b: bool)
        ensures
            b == (*self == ColumnArity::Required),
    {
        match self {
            ColumnArity::Required => true,
            ColumnArity::Nullable => false,
        }
    }

    pub fn is_nullable(&self) -> (b: bool)
        ensures
            b == (*self == ColumnArity::Nullable),
    {
        match self {
            ColumnArity::Required => false,
            ColumnArity::Nullable => true,
        }
    }
}

/// The kind of value that a column holds, whatever the dialect calls it.
#[derive(Clone, Copy, Debug, PartialEq, Eq, Structural)]
pub enum ColumnTypeFamily {
    Int,
    Decimal,
    Boolean,
    String,
    DateTime,
    Binary,
    Json,
    Uuid,
}

/// The type of a column: the type as the database states it, the family it
/// belongs to, and its arity.
#[derive(Clone, Debug, PartialEq, Eq)]
pub struct ColumnType {
    pub data_type: String,
    pub family: ColumnTypeFamily,
    pub arity: ColumnArity,
}

#[derive(Clone, Debug, PartialEq, Eq)]
pub struct Column {
    pub name: String,
    pub tpe: ColumnType,
    pub default: Option<String>,
}

#[derive(Clone, Debug, PartialEq, Eq)]
pub struct Table {
    pub name: String,
    pub columns: Vec<Column>,
}

/// A schema: its tables, in the order in which they were described.
#[derive(Clone, Debug, PartialEq, Eq)]
pub struct SqlSchema {
    pub tables: Vec<Table>,
}

pub struct ColumnView {
    pub name: Seq<char>,
    pub data_type: Seq<char>,
    pub family: ColumnTypeFamily,
    pub arity: ColumnArity,
    pub default: Option<Seq<char>>,
}

pub struct TableView {
    pub name: Seq<char>,
    pub columns: Seq<ColumnView>,
}

pub struct SchemaView {
    pub tables: Seq<TableView>,
}

impl View for Column {
    type V = ColumnView;

    open spec fn view(&self) -> ColumnView {
        ColumnView {
            name: self.name@,
            data_type: self.tpe.data_type@,
            family: self.tpe.family,
            arity: self.tpe.arity,
            default: match self.default {
                Some(d) => Some(d@),
                None => None,
            },
        }
    }
}

impl View for Table {
    type V = TableView;

    open spec fn view(&self) -> TableView {
        TableView { name: self.name@, columns: self.columns@.map_values(|c: Column| c@) }
    }
}

impl View for SqlSchema {
    type V = SchemaView;

    open spec fn view(&self) -> SchemaView {
        SchemaView { tables: self.tables@.map_values(|t: Table| t@) }
    }
}

impl TableView {
    /// The names of the columns, in order.
    pub open spec fn column_names(self) -> Seq<Seq<char>> {
        self.columns.map_values(|c: ColumnView| c.name)
    }

    /// The first column of the table that is called `name`.
    pub open spec fn column(self, name: Seq<char>) -> Option<ColumnView> {
        match self.column_names().index_of_first(name) {
            Some(i) => Some(self.columns[i]),
            None => None,
        }
    }
}

impl SchemaView {
    /// The names of the tables, in order.
    pub open spec fn table_names(self) -> Seq<Seq<char>> {
        self.tables.map_values(|t: TableView| t.name)
    }

    /// The first table of the schema that is called `name`.
    pub open spec fn table(self, name: Seq<char>) -> Option<TableView> {
        match self.table_names().index_of_first(name) {
            Some(i) => Some(self.tables[i]),
            None => None,
        }
    }
}

impl SchemaView {
    /// Whether no two tables share a name, and no two columns of a table.
    pub open spec fn names_distinct(self) -> bool {
        &&& self.table_names().no_duplicates()
        &&& forall|i: int|
            0 <= i < self.tables.len() ==> (#[trigger] self.tables[i]).column_names().no_duplicates()
    }
}

/// Among names of which none occurs twice, each is found at its own place.
pub proof fn lemma_distinct_name_found(names: Seq<Seq<char>>, i: int)
    requires
        names.no_duplicates(),
        0 <= i < names.len(),
    ensures
        names.index_of_first(names[i]) == Some(i),
{
    names.index_of_first_ensures(names[i]);
    assert(names.contains(names[i]));
}

impl Table {
    /// The first column of the table that is called `name`.
    pub fn column(&self, name: &String) -> (found: Option<&Column>)
        ensures
            (match found {
                Some(c) => Some(c@),
                None => None,
            }) == self@.column(name@),
    {
        let ghost names = self@.column_names();
        let mut i: usize = 0;
        while i < self.columns.len()
            invariant
                i <= self.columns.len(),
                names == self@.column_names(),
                forall|j: int| 0 <= j < i ==> names[j] != name@,
            decreases self.columns.len() - i,
        {
            if self.columns[i].name == *name {
                proof {
                    names.index_of_first_ensures(name@);
                    assert(names[i as int] == name@);
                    assert(names.index_of_first(name@) == Some(i as int));
                }
                return Some(&self.columns[i]);
            }
            i = i + 1;
        }
        proof {
            names.index_of_first_ensures(name@);
        }
        None
    }
}

impl SqlSchema {
    /// The first table of the schema that is called `name`.
    pub fn table(&self, name: &String) -> (found: Option<&Table>)
        ensures
            (match found {
                Some(t) => Some(t@),
                None => None,
            }) == self@.table(name@),
    {
        let ghost names = self@.table_names();
        let mut i: usize = 0;
        while i < self.tables.len()
            invariant
                i <= self.tables.len(),
                names == self@.table_names(),
                forall|j: int| 0 <= j < i ==> names[j] != name@,
            decreases self.tables.len() - i,
        {
            if self.tables[i].name == *name {
                proof {
                    names.index_of_first_ensures(name@);
                    assert(names[i as int] == name@);
                    assert(names.index_of_first(name@) == Some(i as int));
                }
                return Some(&self.tables[i]);
            }
            i = i + 1;
        }
        proof {
            names.index_of_first_ensures(name@);
        }
        None
    }
}

} // verus!
