//! Properties that hold of every statement built in [`crate::sql`].
use vstd::prelude::*;

use crate::sql::{
    assignment, delete_statement, entries, entry_assignments, entry_of, insert_statement, join,
    key_clause, kind_of, select_statement, unkeyed_assignments, update_statement, Column, Entry,
    ValueKind,
};

verus! {

/// The entries of two column lists one after the other.
pub proof fn lemma_entries_append(a: Seq<Column>, b: Seq<Column>, key: Option<Seq<char>>)
    ensures
        entries(a + b, key) == entries(a, key) + entries(b, key),
    decreases b.len(),
{
    if b.len() == 0 {
        assert(a + b =~= a);
        assert(entries(a, key) + entries(b, key) =~= entries(a, key));
    } else {
        lemma_entries_append(a, b.drop_last(), key);
        assert((a + b).drop_last() =~= a + b.drop_last());
        assert((a + b).last() == b.last());
        match entry_of(b.last(), key) {
            Some(e) => {
                assert(entries(a, key) + entries(b.drop_last(), key).push(e) =~= (entries(a, key)
                    + entries(b.drop_last(), key)).push(e));
            },
            None => {},
        }
    }
}

/// A column without a value, or whose type is not written, contributes no
/// entry to any statement.
pub open spec fn is_silent(c: Column) -> bool {
    c.text is None || kind_of(c.value_type@) == ValueKind::Other
}

/// A column without a value (an `Option` field holding `None`), or of a type
/// that statements do not write, changes none of the four statements:
/// inserting it anywhere in the column list gives the same text.
pub proof fn law_silent_column_changes_nothing(
    a: Seq<Column>,
    c: Column,
    b: Seq<Column>,
    table: Seq<char>,
    id: Seq<char>,
)
    requires
        is_silent(c),
    ensures
        insert_statement(a.push(c) + b, table) == insert_statement(a + b, table),
        select_statement(a.push(c) + b, table) == select_statement(a + b, table),
        update_statement(a.push(c) + b, table, id) == update_statement(a + b, table, id),
        delete_statement(a.push(c) + b, table, id) == delete_statement(a + b, table, id),
{
    assert forall|key: Option<Seq<char>>| entries(a.push(c) + b, key) == entries(a + b, key) by {
        lemma_entries_append(a.push(c), b, key);
        lemma_entries_append(a, b, key);
        assert(a.push(c).drop_last() =~= a);
        assert(entry_of(c, key) is None);
        assert(entries(a.push(c), key) == entries(a, key));
    }
    assert(entries(a.push(c) + b, None) == entries(a + b, None));
    assert(entries(a.push(c) + b, Some(id)) == entries(a + b, Some(id)));
}

/// The assignments of the entries that are not named `id`, in order.
pub open spec fn assignments_except(es: Seq<Entry>, id: Seq<char>) -> Seq<Seq<char>>
    decreases es.len(),
{
    if es.len() == 0 {
        Seq::empty()
    } else if es.last().1 == id {
        assignments_except(es.drop_last(), id)
    } else {
        assignments_except(es.drop_last(), id).push(assignment(es.last()))
    }
}

proof fn lemma_unkeyed_except(cols: Seq<Column>, id: Seq<char>)
    ensures
        unkeyed_assignments(entries(cols, Some(id))) == assignments_except(
            entries(cols, None),
            id,
        ),
    decreases cols.len(),
{
    if cols.len() > 0 {
        let p = cols.drop_last();
        let c = cols.last();
        lemma_unkeyed_except(p, id);
        let ek = entries(p, Some(id));
        let en = entries(p, None);
        match entry_of(c, Some(id)) {
            Some(e) => {
                assert(ek.push(e).drop_last() =~= ek);
            },
            None => {},
        }
        match entry_of(c, None) {
            Some(e) => {
                assert(en.push(e).drop_last() =~= en);
            },
            None => {},
        }
    }
}

/// An update is the select of the same struct value split in two: its
/// assignments are the select's conditions on the columns not named `id`,
/// in the same order, joined by commas with no comma before the first; its
/// condition is the key column's assignment (empty when the key column has
/// no value, is of a type that is not written, or is a date-time).
pub proof fn law_update_matches_select(cols: Seq<Column>, table: Seq<char>, id: Seq<char>)
    ensures
        update_statement(cols, table, id) == "update "@ + table + " set "@ + join(
            assignments_except(entries(cols, None), id),
            ","@,
        ) + " where "@ + key_parts(cols, id),
{
    lemma_unkeyed_except(cols, id);
    lemma_key_clause_parts(cols, id);
}

/// The key condition that one column contributes.
pub open spec fn key_part(c: Column, id: Seq<char>) -> Seq<char> {
    match entry_of(c, Some(id)) {
        Some(e) => if e.0 {
            assignment(e)
        } else {
            Seq::empty()
        },
        None => Seq::empty(),
    }
}

/// The key conditions of the columns, one after the other.
pub open spec fn key_parts(cols: Seq<Column>, id: Seq<char>) -> Seq<char>
    decreases cols.len(),
{
    if cols.len() == 0 {
        Seq::empty()
    } else {
        key_parts(cols.drop_last(), id) + key_part(cols.last(), id)
    }
}

proof fn lemma_key_clause_parts(cols: Seq<Column>, id: Seq<char>)
    ensures
        key_clause(entries(cols, Some(id))) == key_parts(cols, id),
    decreases cols.len(),
{
    if cols.len() > 0 {
        lemma_key_clause_parts(cols.drop_last(), id);
        let p = entries(cols.drop_last(), Some(id));
        match entry_of(cols.last(), Some(id)) {
            Some(e) => {
                assert(p.push(e).drop_last() =~= p);
            },
            None => {
                assert(key_part(cols.last(), id) =~= Seq::<char>::empty());
            },
        }
    }
}

/// Two struct values whose columns have the same names and types, and whose
/// key columns (those named `id`) hold the same value.
pub open spec fn same_key(c1: Seq<Column>, c2: Seq<Column>, id: Seq<char>) -> bool {
    &&& c1.len() == c2.len()
    &&& forall|i: int|
        0 <= i < c1.len() ==> {
            &&& #[trigger] c1[i].name@ == c2[i].name@
            &&& c1[i].value_type@ == c2[i].value_type@
            &&& c1[i].name@ == id ==> match (c1[i].text, c2[i].text) {
                (Some(t1), Some(t2)) => t1@ == t2@,
                (None, None) => true,
                _ => false,
            }
        }
}

/// A delete statement is decided by the key column alone: struct values
/// that agree on their key column give the same statement, whatever their
/// other columns hold. Their update statements have the same condition.
pub proof fn law_delete_depends_only_on_key(
    c1: Seq<Column>,
    c2: Seq<Column>,
    table: Seq<char>,
    id: Seq<char>,
)
    requires
        same_key(c1, c2, id),
    ensures
        delete_statement(c1, table, id) == delete_statement(c2, table, id),
        key_clause(entries(c1, Some(id))) == key_clause(entries(c2, Some(id))),
{
    lemma_key_clause_parts(c1, id);
    lemma_key_clause_parts(c2, id);
    lemma_key_parts_same(c1, c2, id);
}

proof fn lemma_key_parts_same(c1: Seq<Column>, c2: Seq<Column>, id: Seq<char>)
    requires
        same_key(c1, c2, id),
    ensures
        key_parts(c1, id) == key_parts(c2, id),
    decreases c1.len(),
{
    if c1.len() > 0 {
        let n = c1.len() - 1;
        assert(same_key(c1.drop_last(), c2.drop_last(), id)) by {
            assert forall|i: int| 0 <= i < c1.drop_last().len() implies #[trigger] c1.drop_last()[i].name@
                == c2.drop_last()[i].name@ by {
                assert(c1.drop_last()[i] == c1[i]);
                assert(c2.drop_last()[i] == c2[i]);
            }
        }
        lemma_key_parts_same(c1.drop_last(), c2.drop_last(), id);
        assert(c1[n].name@ == c2[n].name@);
        assert(key_part(c1.last(), id) == key_part(c2.last(), id));
    }
}

/// Without a written key column, an update assigns exactly the columns and
/// literals that an insert lists, joined by commas, and its condition is
/// empty.
pub proof fn law_update_without_key(cols: Seq<Column>, table: Seq<char>, id: Seq<char>)
    requires
        forall|i: int| 0 <= i < cols.len() ==> #[trigger] cols[i].name@ != id,
    ensures
        update_statement(cols, table, id) == "update "@ + table + " set "@ + join(
            entry_assignments(entries(cols, None)),
            ","@,
        ) + " where "@,
{
    lemma_unkeyed_entries(cols, id);
    lemma_key_clause_parts(cols, id);
    lemma_no_key_parts(cols, id);
    assert(update_statement(cols, table, id) =~= "update "@ + table + " set "@ + join(
        entry_assignments(entries(cols, None)),
        ","@,
    ) + " where "@);
}

proof fn lemma_no_key_parts(cols: Seq<Column>, id: Seq<char>)
    requires
        forall|i: int| 0 <= i < cols.len() ==> #[trigger] cols[i].name@ != id,
    ensures
        key_parts(cols, id) == Seq::<char>::empty(),
    decreases cols.len(),
{
    if cols.len() > 0 {
        assert forall|i: int| 0 <= i < cols.drop_last().len() implies #[trigger] cols.drop_last()[i].name@
            != id by {
            assert(cols.drop_last()[i] == cols[i]);
        }
        lemma_no_key_parts(cols.drop_last(), id);
        assert(cols[cols.len() - 1].name@ != id);
    }
}

proof fn lemma_unkeyed_entries(cols: Seq<Column>, id: Seq<char>)
    requires
        forall|i: int| 0 <= i < cols.len() ==> #[trigger] cols[i].name@ != id,
    ensures
        unkeyed_assignments(entries(cols, Some(id))) == entry_assignments(entries(cols, None)),
        forall|i: int|
            0 <= i < entries(cols, Some(id)).len() ==> !(#[trigger] entries(cols, Some(id))[i]).0,
    decreases cols.len(),
{
    if cols.len() > 0 {
        let p = cols.drop_last();
        assert forall|i: int| 0 <= i < p.len() implies #[trigger] p[i].name@ != id by {
            assert(p[i] == cols[i]);
        }
        lemma_unkeyed_entries(p, id);
        let c = cols.last();
        assert(cols[cols.len() - 1].name@ != id);
        let ek = entries(p, Some(id));
        let en = entries(p, None);
        match entry_of(c, None) {
            Some(e) => {
                assert(entry_of(c, Some(id)) == Some(e));
                assert(ek.push(e).drop_last() =~= ek);
                assert(entry_assignments(en.push(e)) =~= entry_assignments(en).push(assignment(e)));
                assert(forall|i: int| 0 <= i < ek.len() ==> ek.push(e)[i] == ek[i]);
            },
            None => {
                assert(entry_of(c, Some(id)) is None);
            },
        }
    }
}

} // verus!
