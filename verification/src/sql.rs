//! Compilation of update plans into the engine's SQL text.
//!
//! Values are never spliced into the text: every planned value and key value
//! is bound as a `?` parameter, proposed values first in slot order, then
//! the identity values in key order.  Identifiers are double-quoted with
//! embedded quotes doubled.

use vstd::prelude::*;
use crate::commit::RowPlan;
use crate::mapper::push_char;
use crate::schema::{IdentityStrategy, TableDescriptor};

verus! {

/// An identifier's characters with every double quote doubled.
pub open spec fn esc_ident(s: Seq<char>) -> Seq<char>
    decreases s.len(),
{
    if s.len() == 0 {
        Seq::empty()
    } else if s.last() == '"' {
        esc_ident(s.drop_last()) + seq!['"', '"']
    } else {
        esc_ident(s.drop_last()).push(s.last())
    }
}

/// A double-quoted identifier.
pub open spec fn quoted(s: Seq<char>) -> Seq<char> {
    seq!['"'] + esc_ident(s) + seq!['"']
}

/// `"name" = ?`: one assignment or one key restriction.
pub open spec fn assign(name: Seq<char>) -> Seq<char> {
    quoted(name) + seq![' ', '=', ' ', '?']
}

/// The assignments joined by `sep`, in order.
pub open spec fn joined(names: Seq<Seq<char>>, sep: Seq<char>) -> Seq<char>
    decreases names.len(),
{
    if names.len() == 0 {
        Seq::empty()
    } else if names.len() == 1 {
        assign(names[0])
    } else {
        joined(names.drop_last(), sep) + sep + assign(names.last())
    }
}

/// The whole statement one plan compiles to.
pub open spec fn update_sql(table: Seq<char>, sets: Seq<Seq<char>>, keys: Seq<Seq<char>>) -> Seq<
    char,
> {
    seq!['U', 'P', 'D', 'A', 'T', 'E', ' '] + quoted(table) + seq![' ', 'S', 'E', 'T', ' ']
        + joined(sets, seq![',', ' ']) + seq![' ', 'W', 'H', 'E', 'R', 'E', ' '] + joined(
        keys,
        seq![' ', 'A', 'N', 'D', ' '],
    )
}

fn push_quoted(out: &mut String, name: &str)
    ensures
        final(out)@ == old(out)@ + quoted(name@),
{
    push_char(out, '"');
    let n = name.unicode_len();
    let mut i: usize = 0;
    while i < n
        invariant
            n == name@.len(),
            i <= n,
            out@ == old(out)@ + seq!['"'] + esc_ident(name@.subrange(0, i as int)),
        decreases n - i,
    {
        let c = name.get_char(i);
        proof {
            assert(name@.subrange(0, i as int + 1).drop_last() =~= name@.subrange(0, i as int));
            assert(name@.subrange(0, i as int + 1).last() == name@[i as int]);
        }
        if c == '"' {
            push_char(out, '"');
            push_char(out, '"');
            proof {
                assert(out@ =~= old(out)@ + seq!['"'] + esc_ident(name@.subrange(0, i as int + 1)));
            }
        } else {
            push_char(out, c);
            proof {
                assert(out@ =~= old(out)@ + seq!['"'] + esc_ident(name@.subrange(0, i as int + 1)));
            }
        }
        i = i + 1;
    }
    push_char(out, '"');
    proof {
        assert(name@.subrange(0, n as int) =~= name@);
        assert(out@ =~= old(out)@ + quoted(name@));
    }
}

fn push_assign(out: &mut String, name: &str)
    ensures
        final(out)@ == old(out)@ + assign(name@),
{
    push_quoted(out, name);
    push_char(out, ' ');
    push_char(out, '=');
    push_char(out, ' ');
    push_char(out, '?');
    proof {
        assert(out@ =~= old(out)@ + assign(name@));
    }
}

/// The names of a row of strings.
pub open spec fn names_view(s: Seq<String>) -> Seq<Seq<char>> {
    s.map_values(|n: String| n@)
}

fn push_joined(out: &mut String, names: &Vec<String>, and_sep: bool)
    ensures
        final(out)@ == old(out)@ + joined(
            names_view(names@),
            if and_sep {
                seq![' ', 'A', 'N', 'D', ' ']
            } else {
                seq![',', ' ']
            },
        ),
{
    let ghost sep: Seq<char> = if and_sep {
        seq![' ', 'A', 'N', 'D', ' ']
    } else {
        seq![',', ' ']
    };
    let n = names.len();
    let mut i: usize = 0;
    while i < n
        invariant
            n == names@.len(),
            i <= n,
            sep == (if and_sep {
                seq![' ', 'A', 'N', 'D', ' ']
            } else {
                seq![',', ' ']
            }),
            out@ == old(out)@ + joined(names_view(names@).subrange(0, i as int), sep),
        decreases n - i,
    {
        if i > 0 {
            if and_sep {
                push_char(out, ' ');
                push_char(out, 'A');
                push_char(out, 'N');
                push_char(out, 'D');
                push_char(out, ' ');
            } else {
                push_char(out, ',');
                push_char(out, ' ');
            }
        }
        push_assign(out, names[i].as_str());
        proof {
            let pre = names_view(names@).subrange(0, i as int + 1);
            assert(pre.drop_last() =~= names_view(names@).subrange(0, i as int));
            assert(pre.last() == names@[i as int]@);
            assert(out@ =~= old(out)@ + joined(pre, sep));
        }
        i = i + 1;
    }
    proof {
        assert(names_view(names@).subrange(0, n as int) =~= names_view(names@));
    }
}

/// Compiles one UPDATE statement: only the planned columns are set, and the
/// row is addressed by its key columns alone, all values bound as
/// parameters.
pub fn render_update(table: &str, sets: &Vec<String>, keys: &Vec<String>) -> (r: String)
    ensures
        r@ == update_sql(table@, names_view(sets@), names_view(keys@)),
{
    let mut out = String::new();
    push_char(&mut out, 'U');
    push_char(&mut out, 'P');
    push_char(&mut out, 'D');
    push_char(&mut out, 'A');
    push_char(&mut out, 'T');
    push_char(&mut out, 'E');
    push_char(&mut out, ' ');
    push_quoted(&mut out, table);
    push_char(&mut out, ' ');
    push_char(&mut out, 'S');
    push_char(&mut out, 'E');
    push_char(&mut out, 'T');
    push_char(&mut out, ' ');
    push_joined(&mut out, sets, false);
    push_char(&mut out, ' ');
    push_char(&mut out, 'W');
    push_char(&mut out, 'H');
    push_char(&mut out, 'E');
    push_char(&mut out, 'R');
    push_char(&mut out, 'E');
    push_char(&mut out, ' ');
    push_joined(&mut out, keys, true);
    proof {
        assert(out@ =~= update_sql(table@, names_view(sets@), names_view(keys@)));
    }
    out
}

/// The key column names a table's row identity is addressed by.
pub open spec fn key_names_spec(t: TableDescriptor) -> Seq<Seq<char>> {
    match t.identity {
        IdentityStrategy::PrimaryKey(ks) => Seq::new(
            ks@.len(),
            |p: int| t.columns@[ks@[p] as int].name@,
        ),
        IdentityStrategy::RowId => seq![seq!['r', 'o', 'w', 'i', 'd']],
        IdentityStrategy::ReadOnly => Seq::empty(),
    }
}

/// The column names a plan sets, in slot order.
pub open spec fn set_names_spec(t: TableDescriptor, plan: RowPlan) -> Seq<Seq<char>> {
    Seq::new(plan.columns@.len(), |k: int| t.columns@[plan.columns@[k] as int].name@)
}

/// The key column names a table's row identity is addressed by: the primary
/// key columns, or the engine's implicit row id; a read-only table has none.
pub fn key_column_names(table: &TableDescriptor) -> (r: Option<Vec<String>>)
    requires
        table.wf(),
    ensures
        match r {
            Some(names) => table.editable() && names_view(names@) == key_names_spec(*table),
            None => !table.editable(),
        },
{
    match &table.identity {
        IdentityStrategy::PrimaryKey(ks) => {
            let mut names: Vec<String> = Vec::new();
            let mut p: usize = 0;
            while p < ks.len()
                invariant
                    table.wf(),
                    table.identity == IdentityStrategy::PrimaryKey(*ks),
                    p <= ks@.len(),
                    names@.len() == p,
                    forall|q: int|
                        0 <= q < p ==> (#[trigger] names@[q])@
                            == table.columns@[ks@[q] as int].name@,
                decreases ks@.len() - p,
            {
                let k = ks[p];
                names.push(table.columns[k].name.clone());
                p = p + 1;
            }
            proof {
                assert(names_view(names@) =~= key_names_spec(*table));
            }
            Some(names)
        },
        IdentityStrategy::RowId => {
            let mut s = String::new();
            push_char(&mut s, 'r');
            push_char(&mut s, 'o');
            push_char(&mut s, 'w');
            push_char(&mut s, 'i');
            push_char(&mut s, 'd');
            proof {
                assert(s@ =~= seq!['r', 'o', 'w', 'i', 'd']);
            }
            let names = vec![s];
            proof {
                assert(names_view(names@) =~= key_names_spec(*table));
            }
            Some(names)
        },
        IdentityStrategy::ReadOnly => Option::None,
    }
}

/// Compiles the UPDATE statement of one plan against its table: the set
/// list names exactly the planned columns in slot order.
pub fn compile_plan(table: &TableDescriptor, plan: &RowPlan) -> (r: Option<String>)
    requires
        table.wf(),
        forall|k: int|
            0 <= k < plan.columns@.len() ==> (#[trigger] plan.columns@[k])
                < table.columns@.len(),
    ensures
        match r {
            Some(sql) => table.editable() && sql@ == update_sql(
                table.name@,
                set_names_spec(*table, *plan),
                key_names_spec(*table),
            ),
            None => !table.editable(),
        },
{
    let keys = match key_column_names(table) {
        Some(ks) => ks,
        Option::None => {
            return Option::None;
        },
    };
    let mut sets: Vec<String> = Vec::new();
    let mut k: usize = 0;
    while k < plan.columns.len()
        invariant
            table.wf(),
            forall|q: int|
                0 <= q < plan.columns@.len() ==> (#[trigger] plan.columns@[q])
                    < table.columns@.len(),
            k <= plan.columns@.len(),
            sets@.len() == k,
            forall|q: int|
                0 <= q < k ==> (#[trigger] sets@[q])@
                    == table.columns@[plan.columns@[q] as int].name@,
        decreases plan.columns@.len() - k,
    {
        let c = plan.columns[k];
        sets.push(table.columns[c].name.clone());
        k = k + 1;
    }
    let sql = render_update(table.name.as_str(), &sets, &keys);
    proof {
        assert(names_view(sets@) =~= set_names_spec(*table, *plan));
    }
    Some(sql)
}

} // verus!
