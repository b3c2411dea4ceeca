//! Building the four SQL statements from the columns of a struct value.
//!
//! A column carries the field's name, the last identifier of its declared
//! type, and the text of its current value (`None` when an `Option` field
//! holds `None`). What a column contributes depends only on its type name:
//! integer and float types are written as they are, `String` and
//! `NaiveDateTime` between single quotes, and every other type is left out.
use vstd::prelude::*;

use crate::text::same_text;

verus! {

/// How a column's declared type is written into a statement.
#[derive(PartialEq, Eq, Structural, Clone, Copy, Debug)]
pub enum ValueKind {
    /// `i8` .. `i64`, `u8` .. `u64`, `f8` .. `f64`: written as it is.
    Number,
    /// `String`: written between single quotes.
    Text,
    /// `NaiveDateTime`: written between single quotes, never used as a key.
    DateTime,
    /// Any other type: the column is left out of the statement.
    Other,
}

/// One field of a struct value, as the statements see it.
pub struct Column {
    /// The field's name, which is also the column's name.
    pub name: String,
    /// The last identifier of the field's declared type.
    pub value_type: String,
    /// The displayed value; `None` when an `Option` field holds `None`.
    pub text: Option<String>,
}

/// An entry of a statement: whether it belongs to the key condition, the
/// column's name, and the literal that stands for its value.
pub type Entry = (bool, Seq<char>, Seq<char>);

/// The kind of a declared type name.
pub open spec fn kind_of(t: Seq<char>) -> ValueKind {
    if t == "i8"@ || t == "i16"@ || t == "i32"@ || t == "i64"@ || t == "u8"@ || t == "u16"@
        || t == "u32"@ || t == "u64"@ || t == "f8"@ || t == "f16"@ || t == "f32"@ || t == "f64"@ {
        ValueKind::Number
    } else if t == "String"@ {
        ValueKind::Text
    } else if t == "NaiveDateTime"@ {
        ValueKind::DateTime
    } else {
        ValueKind::Other
    }
}

/// A text between single quotes.
pub open spec fn quoted(t: Seq<char>) -> Seq<char> {
    "'"@ + t + "'"@
}

/// The literal of a value outside the key condition.
pub open spec fn value_literal(kind: ValueKind, t: Seq<char>) -> Option<Seq<char>> {
    match kind {
        ValueKind::Number => Some(t),
        ValueKind::Text => Some(quoted(t)),
        ValueKind::DateTime => Some(quoted(t)),
        ValueKind::Other => None,
    }
}

/// The literal of the key column's value: date-times are not accepted there.
pub open spec fn key_literal(kind: ValueKind, t: Seq<char>) -> Option<Seq<char>> {
    match kind {
        ValueKind::Number => Some(t),
        ValueKind::Text => Some(quoted(t)),
        _ => None,
    }
}

/// The view of an optional key name.
pub open spec fn key_view(key: Option<&str>) -> Option<Seq<char>> {
    match key {
        Some(k) => Some(k@),
        None => None,
    }
}

/// What one column contributes to a statement whose key column is `key`
/// (`None` for statements without a key condition).
pub open spec fn entry_of(c: Column, key: Option<Seq<char>>) -> Option<Entry> {
    match c.text {
        None => None,
        Some(t) => if key == Some(c.name@) {
            match key_literal(kind_of(c.value_type@), t@) {
                Some(l) => Some((true, c.name@, l)),
                None => None,
            }
        } else {
            match value_literal(kind_of(c.value_type@), t@) {
                Some(l) => Some((false, c.name@, l)),
                None => None,
            }
        },
    }
}

/// The entries of a statement, in column order.
pub open spec fn entries(cols: Seq<Column>, key: Option<Seq<char>>) -> Seq<Entry>
    decreases cols.len(),
{
    if cols.len() == 0 {
        Seq::empty()
    } else {
        let prev = entries(cols.drop_last(), key);
        match entry_of(cols.last(), key) {
            Some(e) => prev.push(e),
            None => prev,
        }
    }
}

/// `name=literal`.
pub open spec fn assignment(e: Entry) -> Seq<char> {
    e.1 + "="@ + e.2
}

/// The parts one after the other, with `sep` between two neighbours.
pub open spec fn join(parts: Seq<Seq<char>>, sep: Seq<char>) -> Seq<char>
    decreases parts.len(),
{
    if parts.len() == 0 {
        Seq::empty()
    } else {
        join(parts.drop_last(), sep) + (if parts.len() > 1 {
            sep
        } else {
            Seq::empty()
        }) + parts.last()
    }
}

/// The assignments of the entries outside the key condition, in order.
pub open spec fn unkeyed_assignments(es: Seq<Entry>) -> Seq<Seq<char>>
    decreases es.len(),
{
    if es.len() == 0 {
        Seq::empty()
    } else if es.last().0 {
        unkeyed_assignments(es.drop_last())
    } else {
        unkeyed_assignments(es.drop_last()).push(assignment(es.last()))
    }
}

/// The assignments of the entries outside the key condition, joined by
/// commas.
pub open spec fn set_clause(es: Seq<Entry>) -> Seq<char> {
    join(unkeyed_assignments(es), ","@)
}

/// The assignments of the key entries, one after the other.
pub open spec fn key_clause(es: Seq<Entry>) -> Seq<char>
    decreases es.len(),
{
    if es.len() == 0 {
        Seq::empty()
    } else {
        key_clause(es.drop_last()) + (if es.last().0 {
            assignment(es.last())
        } else {
            Seq::empty()
        })
    }
}

/// The names of the entries.
pub open spec fn entry_names(es: Seq<Entry>) -> Seq<Seq<char>> {
    es.map_values(|e: Entry| e.1)
}

/// The literals of the entries.
pub open spec fn entry_literals(es: Seq<Entry>) -> Seq<Seq<char>> {
    es.map_values(|e: Entry| e.2)
}

/// The assignments of the entries.
pub open spec fn entry_assignments(es: Seq<Entry>) -> Seq<Seq<char>> {
    es.map_values(|e: Entry| assignment(e))
}

/// `insert into T (names) values (literals)`.
pub open spec fn insert_statement(cols: Seq<Column>, table: Seq<char>) -> Seq<char> {
    let es = entries(cols, None);
    "insert into "@ + table + " ("@ + join(entry_names(es), ","@) + ") values ("@ + join(
        entry_literals(es),
        ","@,
    ) + ")"@
}

/// `update T set assignments where key`.
pub open spec fn update_statement(cols: Seq<Column>, table: Seq<char>, id: Seq<char>) -> Seq<
    char,
> {
    let es = entries(cols, Some(id));
    "update "@ + table + " set "@ + set_clause(es) + " where "@ + key_clause(es)
}

/// `select * from T where conditions`, the conditions joined by ` and `.
pub open spec fn select_statement(cols: Seq<Column>, table: Seq<char>) -> Seq<char> {
    let es = entries(cols, None);
    "select * from "@ + table + " where "@ + join(entry_assignments(es), " and "@)
}

/// `delete from T where key`.
pub open spec fn delete_statement(cols: Seq<Column>, table: Seq<char>, id: Seq<char>) -> Seq<
    char,
> {
    "delete from "@ + table + " where "@ + key_clause(entries(cols, Some(id)))
}

/// The kind of a declared type name.
pub fn kind_of_type(value_type: &String) -> (k: ValueKind)
    ensures
        k == kind_of(value_type@),
{
    if same_text(value_type, "i8") || same_text(value_type, "i16") || same_text(value_type, "i32")
        || same_text(value_type, "i64") || same_text(value_type, "u8") || same_text(
        value_type,
        "u16",
    ) || same_text(value_type, "u32") || same_text(value_type, "u64") || same_text(
        value_type,
        "f8",
    ) || same_text(value_type, "f16") || same_text(value_type, "f32") || same_text(
        value_type,
        "f64",
    ) {
        ValueKind::Number
    } else if same_text(value_type, "String") {
        ValueKind::Text
    } else if same_text(value_type, "NaiveDateTime") {
        ValueKind::DateTime
    } else {
        ValueKind::Other
    }
}

/// A text between single quotes.
fn quote_text(t: &String) -> (r: String)
    ensures
        r@ == quoted(t@),
{
    let mut r = String::from_str("'");
    r.append(t.as_str());
    r.append("'");
    r
}

/// What one column contributes: whether the entry is keyed, and its literal.
fn column_entry(c: &Column, key: Option<&str>) -> (r: Option<(bool, String)>)
    ensures
        match r {
            Some((k, l)) => entry_of(*c, key_view(key)) == Some((k, c.name@, l@)),
            None => entry_of(*c, key_view(key)) is None,
        },
{
    match &c.text {
        None => None,
        Some(t) => {
            let kind = kind_of_type(&c.value_type);
            let keyed = match key {
                Some(k) => same_text(&c.name, k),
                None => false,
            };
            if keyed {
                match kind {
                    ValueKind::Number => Some((true, t.clone())),
                    ValueKind::Text => Some((true, quote_text(t))),
                    _ => None,
                }
            } else {
                match kind {
                    ValueKind::Number => Some((false, t.clone())),
                    ValueKind::Text => Some((false, quote_text(t))),
                    ValueKind::DateTime => Some((false, quote_text(t))),
                    ValueKind::Other => None,
                }
            }
        },
    }
}


/// A statement has at most one entry per column.
proof fn lemma_entries_len(cols: Seq<Column>, key: Option<Seq<char>>)
    ensures
        entries(cols, key).len() <= cols.len(),
    decreases cols.len(),
{
    if cols.len() > 0 {
        lemma_entries_len(cols.drop_last(), key);
    }
}

/// One more entry in a joined list.
proof fn lemma_join_push(parts: Seq<Seq<char>>, sep: Seq<char>, p: Seq<char>)
    ensures
        join(parts.push(p), sep) == join(parts, sep) + (if parts.len() > 0 {
            sep
        } else {
            Seq::empty()
        }) + p,
{
    assert(parts.push(p).drop_last() =~= parts);
}

/// The entries of a column prefix grow by the entry of the next column.
proof fn lemma_entries_step(cols: Seq<Column>, key: Option<Seq<char>>, i: int)
    requires
        0 <= i < cols.len(),
    ensures
        entries(cols.take(i + 1), key) == match entry_of(cols[i], key) {
            Some(e) => entries(cols.take(i), key).push(e),
            None => entries(cols.take(i), key),
        },
{
    assert(cols.take(i + 1).drop_last() =~= cols.take(i));
}

/// The statement that stores a struct value as a new row:
/// `insert into T (c1,c2,..) values (v1,v2,..)`, where the columns are those
/// with a value and a written kind, in column order.
pub fn insert_sql(columns: &Vec<Column>, table_name: &str) -> (sql: String)
    ensures
        sql@ == insert_statement(columns@, table_name@),
{
    let mut names = String::new();
    let mut values = String::new();
    let mut start_index: usize = 0;
    let n = columns.len();
    for i in 0..n
        invariant
            n == columns@.len(),
            start_index == entries(columns@.take(i as int), None).len(),
            names@ == join(entry_names(entries(columns@.take(i as int), None)), ","@),
            values@ == join(entry_literals(entries(columns@.take(i as int), None)), ","@),
    {
        proof {
            lemma_entries_step(columns@, None, i as int);
            lemma_entries_len(columns@.take(i as int), None);
        }
        let ghost es = entries(columns@.take(i as int), None);
        match column_entry(&columns[i], None) {
            Some((_, literal)) => {
                if start_index != 0 {
                    names.append(",");
                    values.append(",");
                }
                names.append(columns[i].name.as_str());
                values.append(literal.as_str());
                start_index = start_index + 1;
                proof {
                    let e = (false, columns@[i as int].name@, literal@);
                    assert(entry_names(es.push(e)) =~= entry_names(es).push(e.1));
                    assert(entry_literals(es.push(e)) =~= entry_literals(es).push(e.2));
                    lemma_join_push(entry_names(es), ","@, e.1);
                    lemma_join_push(entry_literals(es), ","@, e.2);
                }
            },
            None => {},
        }
    }
    assert(columns@.take(n as int) =~= columns@);
    let mut sql = String::from_str("insert into ");
    sql.append(table_name);
    sql.append(" (");
    sql.append(names.as_str());
    sql.append(") values (");
    sql.append(values.as_str());
    sql.append(")");
    sql
}


/// One more entry in the clauses of a keyed statement.
proof fn lemma_clauses_push(es: Seq<Entry>, e: Entry)
    ensures
        unkeyed_assignments(es.push(e)) == if e.0 {
            unkeyed_assignments(es)
        } else {
            unkeyed_assignments(es).push(assignment(e))
        },
        set_clause(es.push(e)) == if e.0 {
            set_clause(es)
        } else {
            set_clause(es) + (if unkeyed_assignments(es).len() > 0 {
                ","@
            } else {
                Seq::empty()
            }) + assignment(e)
        },
        key_clause(es.push(e)) == key_clause(es) + (if e.0 {
            assignment(e)
        } else {
            Seq::empty()
        }),
{
    assert(es.push(e).drop_last() =~= es);
    if !e.0 {
        lemma_join_push(unkeyed_assignments(es), ","@, assignment(e));
    }
}

/// A statement has at most as many assignments outside the key condition
/// as entries.
proof fn lemma_unkeyed_len(es: Seq<Entry>)
    ensures
        unkeyed_assignments(es).len() <= es.len(),
    decreases es.len(),
{
    if es.len() > 0 {
        lemma_unkeyed_len(es.drop_last());
    }
}

/// `name=literal` as a string.
fn assignment_text(name: &String, literal: &String) -> (r: String)
    ensures
        r@ == name@ + "="@ + literal@,
{
    let mut r = name.clone();
    r.append("=");
    r.append(literal.as_str());
    r
}

/// The statement that finds rows equal to a struct value:
/// `select * from T where c1=v1 and c2=v2 ..`, with the same columns as
/// [`insert_sql`].
pub fn select_sql(columns: &Vec<Column>, table_name: &str) -> (sql: String)
    ensures
        sql@ == select_statement(columns@, table_name@),
{
    let mut values = String::new();
    let mut start_index: usize = 0;
    let n = columns.len();
    for i in 0..n
        invariant
            n == columns@.len(),
            start_index == entries(columns@.take(i as int), None).len(),
            values@ == join(entry_assignments(entries(columns@.take(i as int), None)), " and "@),
    {
        proof {
            lemma_entries_step(columns@, None, i as int);
            lemma_entries_len(columns@.take(i as int), None);
        }
        let ghost es = entries(columns@.take(i as int), None);
        match column_entry(&columns[i], None) {
            Some((_, literal)) => {
                if start_index != 0 {
                    values.append(" and ");
                }
                let value = assignment_text(&columns[i].name, &literal);
                values.append(value.as_str());
                start_index = start_index + 1;
                proof {
                    let e = (false, columns@[i as int].name@, literal@);
                    assert(entry_assignments(es.push(e)) =~= entry_assignments(es).push(
                        assignment(e),
                    ));
                    lemma_join_push(entry_assignments(es), " and "@, assignment(e));
                }
            },
            None => {},
        }
    }
    assert(columns@.take(n as int) =~= columns@);
    let mut sql = String::from_str("select * from ");
    sql.append(table_name);
    sql.append(" where ");
    sql.append(values.as_str());
    sql
}

/// The set and key clauses of a keyed statement.
fn keyed_clauses(columns: &Vec<Column>, id_name: &str) -> (r: (String, String))
    ensures
        r.0@ == set_clause(entries(columns@, Some(id_name@))),
        r.1@ == key_clause(entries(columns@, Some(id_name@))),
{
    let mut names = String::new();
    let mut values = String::new();
    let mut set_count: usize = 0;
    let n = columns.len();
    let ghost key = Some(id_name@);
    for i in 0..n
        invariant
            n == columns@.len(),
            key == Some(id_name@),
            set_count == unkeyed_assignments(entries(columns@.take(i as int), key)).len(),
            values@ == set_clause(entries(columns@.take(i as int), key)),
            names@ == key_clause(entries(columns@.take(i as int), key)),
    {
        proof {
            lemma_entries_step(columns@, key, i as int);
            lemma_entries_len(columns@.take(i as int), key);
            lemma_unkeyed_len(entries(columns@.take(i as int), key));
        }
        let ghost es = entries(columns@.take(i as int), key);
        match column_entry(&columns[i], Some(id_name)) {
            Some((keyed, literal)) => {
                let value = assignment_text(&columns[i].name, &literal);
                proof {
                    lemma_clauses_push(es, (keyed, columns@[i as int].name@, literal@));
                }
                if keyed {
                    names.append(value.as_str());
                } else {
                    if set_count != 0 {
                        values.append(",");
                    }
                    values.append(value.as_str());
                    set_count = set_count + 1;
                }
            },
            None => {},
        }
    }
    assert(columns@.take(n as int) =~= columns@);
    (values, names)
}

/// The statement that writes a struct value over the row with the same key:
/// `update T set c1=v1,c2=v2 .. where id=v`. The key column, named
/// `id_name`, goes to the condition; every other column to the assignments.
pub fn update_sql(columns: &Vec<Column>, table_name: &str, id_name: &str) -> (sql: String)
    ensures
        sql@ == update_statement(columns@, table_name@, id_name@),
{
    let (values, names) = keyed_clauses(columns, id_name);
    let mut sql = String::from_str("update ");
    sql.append(table_name);
    sql.append(" set ");
    sql.append(values.as_str());
    sql.append(" where ");
    sql.append(names.as_str());
    sql
}

/// The statement that removes the row with the key of a struct value:
/// `delete from T where id=v`.
pub fn delete_sql(columns: &Vec<Column>, table_name: &str, id_name: &str) -> (sql: String)
    ensures
        sql@ == delete_statement(columns@, table_name@, id_name@),
{
    let (_values, names) = keyed_clauses(columns, id_name);
    let mut sql = String::from_str("delete from ");
    sql.append(table_name);
    sql.append(" where ");
    sql.append(names.as_str());
    sql
}

} // verus!
