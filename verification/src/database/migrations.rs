use vstd::prelude::*;

use barrel::backend::Sqlite;
use barrel::{Migration, Table};

verus! {

/// Name of the table of raw packets.
pub const LEVEL_0_TABLE: &'static str = "level_0";
/// Name of the table of named single values.
pub const SINGLE_VALUE_TABLE: &'static str = "single_value";

/// The column types the schema uses.
#[derive(Debug, Clone, Copy, PartialEq, Eq, Structural)]
pub enum ColumnKind {
    Integer,
    Text,
    Binary,
}

/// One column of a table to create, with its constraints.
#[derive(Debug, Clone)]
pub struct ColumnDef {
    pub name: String,
    pub kind: ColumnKind,
    pub primary: bool,
    pub increments: bool,
    pub nullable: bool,
    pub unique: bool,
}

/// The model of a column definition.
pub struct ColumnSpec {
    pub name: Seq<char>,
    pub kind: ColumnKind,
    pub primary: bool,
    pub increments: bool,
    pub nullable: bool,
    pub unique: bool,
}

impl View for ColumnDef {
    type V = ColumnSpec;

    open spec fn view(&self) -> ColumnSpec {
        ColumnSpec {
            name: self.name@,
            kind: self.kind,
            primary: self.primary,
            increments: self.increments,
            nullable: self.nullable,
            unique: self.unique,
        }
    }
}

/// A table to create: its name and its columns in order.
pub struct TableDef {
    pub name: String,
    pub columns: Vec<ColumnDef>,
}

/// The model of a table definition.
pub struct TableSpec {
    pub name: Seq<char>,
    pub columns: Seq<ColumnSpec>,
}

impl View for TableDef {
    type V = TableSpec;

    open spec fn view(&self) -> TableSpec {
        TableSpec { name: self.name@, columns: self.columns@.map_values(|c: ColumnDef| c@) }
    }
}

#[verifier::external_type_specification]
#[verifier::external_body]
pub struct ExMigration(Migration);

#[verifier::external_type_specification]
#[verifier::external_body]
pub struct ExTable(Table);

/// The columns added so far to a barrel table, in order.
pub uninterp spec fn table_columns(t: Table) -> Seq<ColumnSpec>;

/// The tables a barrel migration creates, in order.
pub uninterp spec fn migration_tables(m: Migration) -> Seq<TableSpec>;

/// The migration names no schema and makes no change but creating tables.
pub uninterp spec fn migration_plain(m: Migration) -> bool;

/// The SQLite statements barrel renders for a migration that names no
/// schema and only creates `tables`, in order.
pub uninterp spec fn sqlite_migration_sql(tables: Seq<TableSpec>) -> Seq<char>;

/// `Migration::new`: a migration with no schema and no changes.
#[verifier::external_body]
fn migration_new() -> (m: Migration)
    ensures
        migration_tables(m) == Seq::<TableSpec>::empty(),
        migration_plain(m),
{
    Migration::new()
}

/// `Table::add_column`: appends the column to the table. The column's type
/// is built with barrel's `types::integer`, `types::text` or `types::binary`
/// for its kind, then `primary`, `increments`, `nullable` and `unique` set
/// to the definition's flags.
#[verifier::external_body]
fn table_add_column(t: &mut Table, column: &ColumnDef)
    ensures
        table_columns(*final(t)) == table_columns(*old(t)).push(column@),
{
    let base = match column.kind {
        ColumnKind::Integer => barrel::types::integer(),
        ColumnKind::Text => barrel::types::text(),
        ColumnKind::Binary => barrel::types::binary(),
    };
    let ty = base.primary(column.primary).increments(column.increments).nullable(column.nullable).unique(
        column.unique,
    );
    t.add_column(column.name.clone(), ty);
}

/// `Migration::create_table`: records that the migration creates the table.
/// barrel keeps the table's name and a callback that fills the table when
/// the migration is rendered; the callback here is `add_columns`, which
/// adds the definition's columns in order.
#[verifier::external_body]
fn migration_create_table(m: &mut Migration, table: &TableDef)
    ensures
        migration_tables(*final(m)) == migration_tables(*old(m)).push(table@),
        migration_plain(*final(m)) == migration_plain(*old(m)),
{
    let columns = table.columns.clone();
    m.create_table(table.name.clone(), move |t: &mut Table| add_columns(t, &columns));
}

/// `Migration::make::<Sqlite>`: the SQL of the migration for SQLite. For a
/// migration without schema that only creates tables, the text is a
/// function of those tables alone; it is named, not stated.
#[verifier::external_body]
fn migration_make_sqlite(m: &Migration) -> (sql: String)
    requires
        migration_plain(*m),
    ensures
        sql@ == sqlite_migration_sql(migration_tables(*m)),
{
    m.make::<Sqlite>()
}

/// Adds `columns` to `t` in order.
fn add_columns(t: &mut Table, columns: &Vec<ColumnDef>)
    ensures
        table_columns(*final(t)) == table_columns(*old(t)) + columns@.map_values(|c: ColumnDef| c@),
{
    let ghost start = table_columns(*t);
    let mut i: usize = 0;
    while i < columns.len()
        invariant
            i <= columns.len(),
            table_columns(*t) == start + columns@.subrange(0, i as int).map_values(|c: ColumnDef| c@),
        decreases columns.len() - i,
    {
        table_add_column(t, &columns[i]);
        proof {
            assert(columns@.subrange(0, i + 1).map_values(|c: ColumnDef| c@) =~= columns@.subrange(
                0,
                i as int,
            ).map_values(|c: ColumnDef| c@).push(columns@[i as int]@));
        }
        i += 1;
    }
    proof {
        assert(columns@.subrange(0, columns.len() as int) =~= columns@);
    }
}

/// A column of the given kind and flags.
pub open spec fn column(
    name: Seq<char>,
    kind: ColumnKind,
    primary: bool,
    increments: bool,
    nullable: bool,
    unique: bool,
) -> ColumnSpec {
    ColumnSpec { name, kind, primary, increments, nullable, unique }
}

/// The `level_0` table: an auto-incrementing integer key `id`, a unique
/// `uuid`, the creation date, the packet's metadata and the packet itself,
/// none of them nullable.
pub open spec fn level_0_table_spec() -> TableSpec {
    TableSpec {
        name: LEVEL_0_TABLE@,
        columns: seq![
            column("id"@, ColumnKind::Integer, true, true, false, false),
            column("uuid"@, ColumnKind::Text, false, false, false, true),
            column("createdate"@, ColumnKind::Integer, false, false, false, false),
            column("metadata"@, ColumnKind::Text, false, false, false, false),
            column("packet"@, ColumnKind::Binary, false, false, false, false),
        ],
    }
}

/// The `single_value` table: a unique `name` and its `value`, neither
/// nullable.
pub open spec fn single_value_table_spec() -> TableSpec {
    TableSpec {
        name: SINGLE_VALUE_TABLE@,
        columns: seq![
            column("name"@, ColumnKind::Text, false, false, false, true),
            column("value"@, ColumnKind::Text, false, false, false, false),
        ],
    }
}

/// The tables of the initial schema, in the order they are created.
pub open spec fn initial_tables() -> Seq<TableSpec> {
    seq![level_0_table_spec(), single_value_table_spec()]
}

fn column_def(
    name: &str,
    kind: ColumnKind,
    primary: bool,
    increments: bool,
    nullable: bool,
    unique: bool,
) -> (c: ColumnDef)
    ensures
        c@ == column(name@, kind, primary, increments, nullable, unique),
{
    ColumnDef { name: String::from_str(name), kind, primary, increments, nullable, unique }
}

/// The definition of the `level_0` table.
pub fn level_0_table() -> (t: TableDef)
    ensures
        t@ == level_0_table_spec(),
{
    let mut columns: Vec<ColumnDef> = Vec::new();
    columns.push(column_def("id", ColumnKind::Integer, true, true, false, false));
    columns.push(column_def("uuid", ColumnKind::Text, false, false, false, true));
    columns.push(column_def("createdate", ColumnKind::Integer, false, false, false, false));
    columns.push(column_def("metadata", ColumnKind::Text, false, false, false, false));
    columns.push(column_def("packet", ColumnKind::Binary, false, false, false, false));
    let t = TableDef { name: String::from_str(LEVEL_0_TABLE), columns };
    proof {
        assert(t@.columns =~= level_0_table_spec().columns);
    }
    t
}

/// The definition of the `single_value` table.
pub fn single_value_table() -> (t: TableDef)
    ensures
        t@ == single_value_table_spec(),
{
    let mut columns: Vec<ColumnDef> = Vec::new();
    columns.push(column_def("name", ColumnKind::Text, false, false, false, true));
    columns.push(column_def("value", ColumnKind::Text, false, false, false, false));
    let t = TableDef { name: String::from_str(SINGLE_VALUE_TABLE), columns };
    proof {
        assert(t@.columns =~= single_value_table_spec().columns);
    }
    t
}

/// Adds the creation of the `level_0` table to the migration.
fn create_initial_level_0_table(m: &mut Migration)
    ensures
        migration_tables(*final(m)) == migration_tables(*old(m)).push(level_0_table_spec()),
        migration_plain(*final(m)) == migration_plain(*old(m)),
{
    let t = level_0_table();
    migration_create_table(m, &t);
}

/// Adds the creation of the `single_value` table to the migration.
fn create_initial_single_value_table(m: &mut Migration)
    ensures
        migration_tables(*final(m)) == migration_tables(*old(m)).push(single_value_table_spec()),
        migration_plain(*final(m)) == migration_plain(*old(m)),
{
    let t = single_value_table();
    migration_create_table(m, &t);
}

/// The SQL of the initial schema migration.
fn initial_db() -> (sql: String)
    ensures
        sql@ == sqlite_migration_sql(initial_tables()),
{
    let mut m = migration_new();
    create_initial_level_0_table(&mut m);
    create_initial_single_value_table(&mut m);
    proof {
        assert(migration_tables(m) =~= initial_tables());
    }
    migration_make_sqlite(&m)
}

/// The SQL that brings a new database to the current schema: the initial
/// migration, which creates `level_0` and then `single_value`.
pub fn update_db() -> (sql: String)
    ensures
        sql@ == sqlite_migration_sql(initial_tables()),
{
    initial_db()
}

} // verus!
