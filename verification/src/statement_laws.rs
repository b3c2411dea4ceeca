//! The four statements described column by column, from the columns alone:
//! which columns a statement lists, and how each value is written.
use vstd::prelude::*;

use crate::sql::{
    assignment, delete_statement, entries, entry_assignments, entry_literals, entry_names, entry_of,
    insert_statement, join, key_clause, select_statement, unkeyed_assignments, update_statement,
    Column, Entry,
};

verus! {

/// The type names whose values are written as they are.
pub open spec fn is_number_name(t: Seq<char>) -> bool {
    t == "i8"@ || t == "i16"@ || t == "i32"@ || t == "i64"@ || t == "u8"@ || t == "u16"@ || t
        == "u32"@ || t == "u64"@ || t == "f8"@ || t == "f16"@ || t == "f32"@ || t == "f64"@
}

/// A column that statements write: it has a value, and its type is a number
/// type, `String` or `NaiveDateTime`.
pub open spec fn is_written(c: Column) -> bool {
    &&& c.text is Some
    &&& (is_number_name(c.value_type@) || c.value_type@ == "String"@ || c.value_type@
        == "NaiveDateTime"@)
}

/// A column that can serve as the key condition: it has a value, and its
/// type is a number type or `String`.
pub open spec fn is_key_written(c: Column) -> bool {
    &&& c.text is Some
    &&& (is_number_name(c.value_type@) || c.value_type@ == "String"@)
}

/// How a written column's value appears: numbers as their text, everything
/// else between single quotes.
pub open spec fn shown(c: Column) -> Seq<char> {
    if is_number_name(c.value_type@) {
        c.text.unwrap()@
    } else {
        "'"@ + c.text.unwrap()@ + "'"@
    }
}

/// `name=value`.
pub open spec fn condition(c: Column) -> Seq<char> {
    c.name@ + "="@ + shown(c)
}

/// The written columns, in order.
pub open spec fn written_columns(cols: Seq<Column>) -> Seq<Column>
    decreases cols.len(),
{
    if cols.len() == 0 {
        Seq::empty()
    } else if is_written(cols.last()) {
        written_columns(cols.drop_last()).push(cols.last())
    } else {
        written_columns(cols.drop_last())
    }
}

/// The written columns not named `id`, in order.
pub open spec fn written_except(cols: Seq<Column>, id: Seq<char>) -> Seq<Column>
    decreases cols.len(),
{
    if cols.len() == 0 {
        Seq::empty()
    } else if is_written(cols.last()) && cols.last().name@ != id {
        written_except(cols.drop_last(), id).push(cols.last())
    } else {
        written_except(cols.drop_last(), id)
    }
}

/// The conditions of the columns named `id` that can serve as a key, one
/// after the other.
pub open spec fn key_conditions(cols: Seq<Column>, id: Seq<char>) -> Seq<char>
    decreases cols.len(),
{
    if cols.len() == 0 {
        Seq::empty()
    } else if cols.last().name@ == id && is_key_written(cols.last()) {
        key_conditions(cols.drop_last(), id) + condition(cols.last())
    } else {
        key_conditions(cols.drop_last(), id)
    }
}

/// The parts with `sep` between two neighbours.
pub open spec fn listed(parts: Seq<Seq<char>>, sep: Seq<char>) -> Seq<char>
    decreases parts.len(),
{
    if parts.len() == 0 {
        Seq::empty()
    } else if parts.len() == 1 {
        parts[0]
    } else {
        parts[0] + sep + listed(parts.drop_first(), sep)
    }
}

/// The names of columns.
pub open spec fn names_of(cols: Seq<Column>) -> Seq<Seq<char>> {
    cols.map_values(|c: Column| c.name@)
}

/// The shown values of columns.
pub open spec fn values_of(cols: Seq<Column>) -> Seq<Seq<char>> {
    cols.map_values(|c: Column| shown(c))
}

/// The conditions of columns.
pub open spec fn conditions_of(cols: Seq<Column>) -> Seq<Seq<char>> {
    cols.map_values(|c: Column| condition(c))
}

proof fn lemma_listed_push(parts: Seq<Seq<char>>, sep: Seq<char>, p: Seq<char>)
    ensures
        listed(parts.push(p), sep) == listed(parts, sep) + (if parts.len() > 0 {
            sep
        } else {
            Seq::empty()
        }) + p,
    decreases parts.len(),
{
    if parts.len() == 0 {
        assert(parts.push(p)[0] == p);
        assert(Seq::<char>::empty() + Seq::<char>::empty() + p =~= p);
    } else if parts.len() == 1 {
        assert(parts.push(p).drop_first() =~= seq![p]);
        assert(listed(seq![p], sep) == p);
    } else {
        assert(parts.push(p).drop_first() =~= parts.drop_first().push(p));
        lemma_listed_push(parts.drop_first(), sep, p);
        assert(parts.push(p)[0] == parts[0]);
        assert(parts[0] + sep + (listed(parts.drop_first(), sep) + sep + p) =~= parts[0] + sep
            + listed(parts.drop_first(), sep) + sep + p);
    }
}

/// Joining with a separator, however the parts are taken apart.
proof fn lemma_join_listed(parts: Seq<Seq<char>>, sep: Seq<char>)
    ensures
        join(parts, sep) == listed(parts, sep),
    decreases parts.len(),
{
    if parts.len() > 0 {
        lemma_join_listed(parts.drop_last(), sep);
        lemma_listed_push(parts.drop_last(), sep, parts.last());
        assert(parts.drop_last().push(parts.last()) =~= parts);
    }
}

proof fn lemma_entries_written(cols: Seq<Column>)
    ensures
        entry_names(entries(cols, None)) == names_of(written_columns(cols)),
        entry_literals(entries(cols, None)) == values_of(written_columns(cols)),
        entry_assignments(entries(cols, None)) == conditions_of(written_columns(cols)),
    decreases cols.len(),
{
    if cols.len() > 0 {
        let p = cols.drop_last();
        let c = cols.last();
        lemma_entries_written(p);
        let es = entries(p, None);
        let w = written_columns(p);
        match entry_of(c, None) {
            Some(e) => {
                assert(is_written(c));
                assert(e.1 == c.name@);
                assert(e.2 == shown(c));
                assert(entry_names(es.push(e)) =~= entry_names(es).push(e.1));
                assert(entry_literals(es.push(e)) =~= entry_literals(es).push(e.2));
                assert(entry_assignments(es.push(e)) =~= entry_assignments(es).push(assignment(e)));
                assert(names_of(w.push(c)) =~= names_of(w).push(c.name@));
                assert(values_of(w.push(c)) =~= values_of(w).push(shown(c)));
                assert(conditions_of(w.push(c)) =~= conditions_of(w).push(condition(c)));
            },
            None => {
                assert(!is_written(c));
            },
        }
    }
}

/// An insert lists every written column, whatever its value, in column
/// order: their names, and their values (numbers as their text, the rest
/// between single quotes), each list separated by commas.
pub proof fn law_insert_lists_written_columns(cols: Seq<Column>, table: Seq<char>)
    ensures
        insert_statement(cols, table) == "insert into "@ + table + " ("@ + listed(
            names_of(written_columns(cols)),
            ","@,
        ) + ") values ("@ + listed(values_of(written_columns(cols)), ","@) + ")"@,
{
    lemma_entries_written(cols);
    let es = entries(cols, None);
    lemma_join_listed(entry_names(es), ","@);
    lemma_join_listed(entry_literals(es), ","@);
}

/// A select has one condition `name=value` per written column, whatever
/// its value, in column order, separated by ` and `.
pub proof fn law_select_conditions(cols: Seq<Column>, table: Seq<char>)
    ensures
        select_statement(cols, table) == "select * from "@ + table + " where "@ + listed(
            conditions_of(written_columns(cols)),
            " and "@,
        ),
{
    lemma_entries_written(cols);
    lemma_join_listed(entry_assignments(entries(cols, None)), " and "@);
}

proof fn lemma_key_entries(cols: Seq<Column>, id: Seq<char>)
    ensures
        unkeyed_assignments(entries(cols, Some(id))) == conditions_of(written_except(cols, id)),
        key_clause(entries(cols, Some(id))) == key_conditions(cols, id),
    decreases cols.len(),
{
    if cols.len() > 0 {
        let p = cols.drop_last();
        let c = cols.last();
        lemma_key_entries(p, id);
        let es = entries(p, Some(id));
        let w = written_except(p, id);
        match entry_of(c, Some(id)) {
            Some(e) => {
                assert(es.push(e).drop_last() =~= es);
                if e.0 {
                    assert(c.name@ == id && is_key_written(c));
                    assert(assignment(e) == condition(c));
                } else {
                    assert(c.name@ != id && is_written(c));
                    assert(assignment(e) == condition(c));
                    assert(conditions_of(w.push(c)) =~= conditions_of(w).push(condition(c)));
                }
            },
            None => {
                assert(!(c.name@ == id && is_key_written(c)));
                assert(!(is_written(c) && c.name@ != id));
            },
        }
    }
}

/// An update assigns every written column not named `id`, whatever its
/// value, in column order, separated by commas; its condition is the
/// condition of the key column (`id=value`), when the key column has a
/// value and a number or `String` type.
pub proof fn law_update_by_key(cols: Seq<Column>, table: Seq<char>, id: Seq<char>)
    ensures
        update_statement(cols, table, id) == "update "@ + table + " set "@ + listed(
            conditions_of(written_except(cols, id)),
            ","@,
        ) + " where "@ + key_conditions(cols, id),
{
    lemma_key_entries(cols, id);
    lemma_join_listed(unkeyed_assignments(entries(cols, Some(id))), ","@);
}

/// A delete's condition is the condition of the key column (`id=value`),
/// whatever its value, when the key column has a value and a number or
/// `String` type.
pub proof fn law_delete_by_key(cols: Seq<Column>, table: Seq<char>, id: Seq<char>)
    ensures
        delete_statement(cols, table, id) == "delete from "@ + table + " where "@ + key_conditions(
            cols,
            id,
        ),
{
    lemma_key_entries(cols, id);
}

proof fn lemma_no_key_conditions(cols: Seq<Column>, id: Seq<char>)
    requires
        forall|j: int| 0 <= j < cols.len() ==> #[trigger] cols[j].name@ != id,
    ensures
        key_conditions(cols, id) == Seq::<char>::empty(),
    decreases cols.len(),
{
    if cols.len() > 0 {
        let p = cols.drop_last();
        assert forall|j: int| 0 <= j < p.len() implies #[trigger] p[j].name@ != id by {
            assert(p[j] == cols[j]);
        }
        lemma_no_key_conditions(p, id);
        assert(cols[cols.len() - 1].name@ != id);
    }
}

/// When exactly one column is named `id`, the key condition of an update
/// and a delete is that column's `id=value`, whatever the value, when it
/// has a value and a number or `String` type, and empty otherwise.
pub proof fn law_single_key_condition(cols: Seq<Column>, table: Seq<char>, id: Seq<char>, i: int)
    requires
        0 <= i < cols.len(),
        cols[i].name@ == id,
        forall|j: int| 0 <= j < cols.len() && j != i ==> #[trigger] cols[j].name@ != id,
    ensures
        key_conditions(cols, id) == if is_key_written(cols[i]) {
            id + "="@ + shown(cols[i])
        } else {
            Seq::empty()
        },
        delete_statement(cols, table, id) == "delete from "@ + table + " where "@ + (
        if is_key_written(cols[i]) {
            id + "="@ + shown(cols[i])
        } else {
            Seq::empty()
        }),
    decreases cols.len(),
{
    law_delete_by_key(cols, table, id);
    let p = cols.drop_last();
    if i == cols.len() - 1 {
        assert forall|j: int| 0 <= j < p.len() implies #[trigger] p[j].name@ != id by {
            assert(p[j] == cols[j]);
        }
        lemma_no_key_conditions(p, id);
        assert(Seq::<char>::empty() + condition(cols[i]) =~= condition(cols[i]));
    } else {
        assert forall|j: int| 0 <= j < p.len() && j != i implies #[trigger] p[j].name@ != id by {
            assert(p[j] == cols[j]);
        }
        assert(p[i] == cols[i]);
        law_single_key_condition(p, table, id, i);
        assert(cols[cols.len() - 1].name@ != id);
    }
}

} // verus!
