//! Schema reflection: an immutable, typed snapshot of a database's structure.
//!
//! The host reads the engine's catalog and hands the raw rows over as plain
//! values; reflection orders the tables, maps every declared column type to
//! its value kind, and decides each table's row-identity strategy.  A table
//! with neither a primary key nor a usable implicit row id is read-only.

use vstd::prelude::*;
use vstd::multiset::Multiset;
use crate::value::ValueKind;
use crate::mapper::{kind_of, spec_kind_of};

verus! {

broadcast use vstd::seq_lib::group_to_multiset_ensures, vstd::multiset::group_multiset_axioms;

/// Why a database file could not be reflected.  The engine decides; the host
/// maps its failure onto this taxonomy.
#[derive(Clone, Copy, PartialEq, Eq, Structural, Debug)]
pub enum SchemaError {
    /// The file is not a database of the engine's format.
    NotADatabase,
    /// The file exists but cannot be read, or is encrypted.
    Unreadable,
}

/// One column as the engine's catalog reports it.
pub struct CatalogColumn {
    pub name: String,
    pub declared_type: String,
    pub nullable: bool,
    pub is_primary_key: bool,
    pub default_value: Option<String>,
}

/// One table as the engine's catalog reports it, columns in engine order.
pub struct CatalogTable {
    pub name: String,
    pub columns: Vec<CatalogColumn>,
    /// Whether the engine keeps an implicit row id for this table.
    pub has_row_id: bool,
}

/// One column of the reflected schema.
pub struct ColumnDescriptor {
    pub name: String,
    pub declared_type: String,
    pub kind: ValueKind,
    pub nullable: bool,
    pub is_primary_key: bool,
    pub default_value: Option<String>,
}

/// How rows of a table are identified for editing.
pub enum IdentityStrategy {
    /// The explicit primary-key columns, by index in column order.
    PrimaryKey(Vec<usize>),
    /// The engine's implicit row id.
    RowId,
    /// No usable row identity: the table is read-only in the editor.
    ReadOnly,
}

/// One table of the reflected schema, columns in engine order.
pub struct TableDescriptor {
    pub name: String,
    pub columns: Vec<ColumnDescriptor>,
    pub identity: IdentityStrategy,
}

impl TableDescriptor {
    /// The primary-key index list is consistent with the column flags.
    pub open spec fn wf(self) -> bool {
        match self.identity {
            IdentityStrategy::PrimaryKey(ks) => {
                &&& 0 < ks@.len()
                &&& forall|p: int|
                    0 <= p < ks@.len() ==> (#[trigger] ks@[p]) < self.columns@.len()
                        && self.columns@[ks@[p] as int].is_primary_key
                &&& forall|p: int, q: int| 0 <= p < q < ks@.len() ==> ks@[p] < ks@[q]
            },
            IdentityStrategy::RowId => true,
            IdentityStrategy::ReadOnly => true,
        }
    }

    /// Whether the editor may stage and commit edits on this table.
    pub open spec fn editable(self) -> bool {
        !(self.identity is ReadOnly)
    }
}

/// The immutable snapshot of a database's structure at open time.
pub struct TypeSchema {
    pub tables: Vec<TableDescriptor>,
}

// ---------------------------------------------------------------------------
// Lexicographic order on names.
// ---------------------------------------------------------------------------

pub open spec fn lex_le_from(a: Seq<char>, b: Seq<char>, i: int) -> bool
    decreases a.len() - i,
{
    if i < 0 {
        true
    } else if i >= a.len() {
        true
    } else if i >= b.len() {
        false
    } else if (a[i] as int) < (b[i] as int) {
        true
    } else if (a[i] as int) > (b[i] as int) {
        false
    } else {
        lex_le_from(a, b, i + 1)
    }
}

/// Lexicographic order of names by code point.
pub open spec fn lex_le(a: Seq<char>, b: Seq<char>) -> bool {
    lex_le_from(a, b, 0)
}

proof fn lemma_lex_total(a: Seq<char>, b: Seq<char>, i: int)
    ensures
        lex_le_from(a, b, i) || lex_le_from(b, a, i),
    decreases a.len() - i,
{
    if 0 <= i && i < a.len() && i < b.len() && a[i] == b[i] {
        lemma_lex_total(a, b, i + 1);
    }
}

proof fn lemma_lex_trans(a: Seq<char>, b: Seq<char>, c: Seq<char>, i: int)
    requires
        lex_le_from(a, b, i),
        lex_le_from(b, c, i),
    ensures
        lex_le_from(a, c, i),
    decreases a.len() - i,
{
    if 0 <= i && i < a.len() && i < b.len() && i < c.len() && a[i] == b[i] && b[i] == c[i] {
        lemma_lex_trans(a, b, c, i + 1);
    }
}

proof fn lemma_lex_refl(a: Seq<char>, i: int)
    ensures
        lex_le_from(a, a, i),
    decreases a.len() - i,
{
    if 0 <= i && i < a.len() {
        lemma_lex_refl(a, i + 1);
    }
}

/// Decides `lex_le` on two names.
pub fn str_le(a: &str, b: &str) -> (r: bool)
    ensures
        r == lex_le(a@, b@),
{
    let na = a.unicode_len();
    let nb = b.unicode_len();
    let mut i: usize = 0;
    loop
        invariant
            na == a@.len(),
            nb == b@.len(),
            0 <= i <= na,
            i <= nb,
            lex_le_from(a@, b@, 0) == lex_le_from(a@, b@, i as int),
        decreases na - i,
    {
        if i >= na {
            return true;
        }
        if i >= nb {
            return false;
        }
        let ca = a.get_char(i) as u32;
        let cb = b.get_char(i) as u32;
        if ca < cb {
            return true;
        }
        if ca > cb {
            return false;
        }
        i = i + 1;
    }
}

/// Tables stand in name order.
pub open spec fn sorted_by_name(ts: Seq<TableDescriptor>) -> bool {
    forall|i: int, j: int|
        0 <= i < j < ts.len() ==> lex_le(#[trigger] ts[i].name@, #[trigger] ts[j].name@)
}

// ---------------------------------------------------------------------------
// Reflection.
// ---------------------------------------------------------------------------

/// The indices of the primary-key columns, in column order.
pub open spec fn pk_indices(cols: Seq<CatalogColumn>) -> Seq<usize>
    decreases cols.len(),
{
    if cols.len() == 0 {
        Seq::empty()
    } else if cols.last().is_primary_key {
        pk_indices(cols.drop_last()).push((cols.len() - 1) as usize)
    } else {
        pk_indices(cols.drop_last())
    }
}

proof fn lemma_pk_indices(cols: Seq<CatalogColumn>)
    requires
        cols.len() <= usize::MAX,
    ensures
        forall|p: int|
            0 <= p < pk_indices(cols).len() ==> (#[trigger] pk_indices(cols)[p]) < cols.len()
                && cols[pk_indices(cols)[p] as int].is_primary_key,
        forall|p: int, q: int|
            0 <= p < q < pk_indices(cols).len() ==> pk_indices(cols)[p] < pk_indices(cols)[q],
    decreases cols.len(),
{
    if cols.len() > 0 {
        let rest = cols.drop_last();
        lemma_pk_indices(rest);
        assert(forall|j: int| 0 <= j < rest.len() ==> rest[j] == cols[j]);
        if cols.last().is_primary_key {
            let ks = pk_indices(rest).push((cols.len() - 1) as usize);
            assert(pk_indices(cols) == ks);
            assert forall|p: int|
                0 <= p < ks.len() implies (#[trigger] ks[p]) < cols.len() && cols[ks[p] as int].is_primary_key by {
                if p < pk_indices(rest).len() {
                    assert(ks[p] == pk_indices(rest)[p]);
                    assert(pk_indices(rest)[p] < rest.len());
                } else {
                    assert(ks[p] == (cols.len() - 1) as usize);
                    assert(cols[cols.len() - 1] == cols.last());
                }
            }
            assert forall|p: int, q: int| 0 <= p < q < ks.len() implies ks[p] < ks[q] by {
                if q == ks.len() - 1 {
                    assert(ks[p] == pk_indices(rest)[p]);
                    assert(pk_indices(rest)[p] < rest.len());
                    assert(ks[q] == (cols.len() - 1) as usize);
                }
            }
        } else {
            assert(pk_indices(cols) == pk_indices(rest));
            assert forall|p: int|
                0 <= p < pk_indices(cols).len() implies (#[trigger] pk_indices(cols)[p]) < cols.len()
                && cols[pk_indices(cols)[p] as int].is_primary_key by {
                assert(pk_indices(rest)[p] < rest.len());
            }
        }
    }
}

/// One reflected column says what its catalog row said, with its mapped kind.
pub open spec fn col_matches(d: ColumnDescriptor, c: CatalogColumn) -> bool {
    &&& d.name@ == c.name@
    &&& d.declared_type@ == c.declared_type@
    &&& d.kind == spec_kind_of(c.declared_type@)
    &&& d.nullable == c.nullable
    &&& d.is_primary_key == c.is_primary_key
    &&& match (d.default_value, c.default_value) {
        (Option::None, Option::None) => true,
        (Option::Some(x), Option::Some(y)) => x@ == y@,
        _ => false,
    }
}

/// One reflected table says what its catalog entry said: same name, matching
/// columns in the same order, and the row-identity strategy the entry admits.
pub open spec fn table_matches(t: TableDescriptor, c: CatalogTable) -> bool {
    &&& t.name@ == c.name@
    &&& t.columns@.len() == c.columns@.len()
    &&& forall|k: int|
        0 <= k < t.columns@.len() ==> col_matches(#[trigger] t.columns@[k], c.columns@[k])
    &&& match t.identity {
        IdentityStrategy::PrimaryKey(ks) => pk_indices(c.columns@).len() > 0 && ks@ == pk_indices(
            c.columns@,
        ),
        IdentityStrategy::RowId => pk_indices(c.columns@).len() == 0 && c.has_row_id,
        IdentityStrategy::ReadOnly => pk_indices(c.columns@).len() == 0 && !c.has_row_id,
    }
}

/// The table stands for some catalog entry.
pub open spec fn has_catalog_match(t: TableDescriptor, catalog: Seq<CatalogTable>) -> bool {
    exists|i: int| 0 <= i < catalog.len() && #[trigger] table_matches(t, catalog[i])
}

/// The catalog entry is reflected by some table.
pub open spec fn is_reflected(c: CatalogTable, tables: Seq<TableDescriptor>) -> bool {
    exists|j: int| 0 <= j < tables.len() && #[trigger] table_matches(tables[j], c)
}

fn clone_opt_string(o: &Option<String>) -> (r: Option<String>)
    ensures
        match (r, o) {
            (Option::None, Option::None) => true,
            (Option::Some(x), Option::Some(y)) => x@ == y@,
            _ => false,
        },
{
    match o {
        Option::None => Option::None,
        Option::Some(s) => Option::Some(s.clone()),
    }
}

fn reflect_table(c: &CatalogTable) -> (t: TableDescriptor)
    ensures
        table_matches(t, *c),
        t.wf(),
{
    let mut cols: Vec<ColumnDescriptor> = Vec::new();
    let mut ks: Vec<usize> = Vec::new();
    let n = c.columns.len();
    let mut i: usize = 0;
    while i < n
        invariant
            n == c.columns@.len(),
            i <= n,
            cols@.len() == i,
            forall|k: int| 0 <= k < i ==> col_matches(#[trigger] cols@[k], c.columns@[k]),
            ks@ == pk_indices(c.columns@.subrange(0, i as int)),
        decreases n - i,
    {
        let cc = &c.columns[i];
        let kind = kind_of(cc.declared_type.as_str());
        cols.push(
            ColumnDescriptor {
                name: cc.name.clone(),
                declared_type: cc.declared_type.clone(),
                kind,
                nullable: cc.nullable,
                is_primary_key: cc.is_primary_key,
                default_value: clone_opt_string(&cc.default_value),
            },
        );
        proof {
            assert(c.columns@.subrange(0, i as int + 1).drop_last() =~= c.columns@.subrange(
                0,
                i as int,
            ));
            assert(c.columns@.subrange(0, i as int + 1).last() == c.columns@[i as int]);
        }
        if cc.is_primary_key {
            ks.push(i);
        }
        i = i + 1;
    }
    proof {
        assert(c.columns@.subrange(0, n as int) =~= c.columns@);
        lemma_pk_indices(c.columns@);
    }
    let identity = if ks.len() > 0 {
        IdentityStrategy::PrimaryKey(ks)
    } else if c.has_row_id {
        IdentityStrategy::RowId
    } else {
        IdentityStrategy::ReadOnly
    };
    TableDescriptor { name: c.name.clone(), columns: cols, identity }
}

fn sort_tables(input: Vec<TableDescriptor>) -> (r: Vec<TableDescriptor>)
    ensures
        r@.to_multiset() == input@.to_multiset(),
        r@.len() == input@.len(),
        sorted_by_name(r@),
{
    let mut rest = input;
    let mut out: Vec<TableDescriptor> = Vec::new();
    let ghost orig = rest@;
    while rest.len() > 0
        invariant
            out@.to_multiset().add(rest@.to_multiset()) =~= orig.to_multiset(),
            out@.len() + rest@.len() == orig.len(),
            sorted_by_name(out@),
            forall|p: int, q: int|
                0 <= p < out@.len() && 0 <= q < rest@.len() ==> lex_le(
                    #[trigger] out@[p].name@,
                    #[trigger] rest@[q].name@,
                ),
        decreases rest@.len(),
    {
        // Pick the first minimal name, so that the order is deterministic.
        let mut m: usize = 0;
        let mut k: usize = 1;
        proof {
            lemma_lex_refl(rest@[0].name@, 0);
        }
        while k < rest.len()
            invariant
                rest@.len() > 0,
                m < k,
                k <= rest@.len(),
                forall|q: int| 0 <= q < k ==> lex_le(rest@[m as int].name@, #[trigger] rest@[q].name@),
            decreases rest@.len() - k,
        {
            if !str_le(rest[m].name.as_str(), rest[k].name.as_str()) {
                proof {
                    lemma_lex_total(rest@[m as int].name@, rest@[k as int].name@, 0);
                    lemma_lex_refl(rest@[k as int].name@, 0);
                    assert forall|q: int| 0 <= q < k + 1 implies lex_le(
                        rest@[k as int].name@,
                        #[trigger] rest@[q].name@,
                    ) by {
                        if q < k {
                            lemma_lex_trans(
                                rest@[k as int].name@,
                                rest@[m as int].name@,
                                rest@[q].name@,
                                0,
                            );
                        }
                    }
                }
                m = k;
            }
            k = k + 1;
        }
        let ghost pre_rest = rest@;
        let ghost pre_out = out@;
        let t = rest.remove(m);
        proof {
            assert(t == pre_rest[m as int]);
            assert(rest@ == pre_rest.remove(m as int));
            assert(pre_rest.remove(m as int).to_multiset() =~= pre_rest.to_multiset().remove(t));
            assert(rest@.to_multiset() =~= pre_rest.to_multiset().remove(t));
            assert(pre_rest.contains(t));
            assert(pre_rest.to_multiset().count(t) > 0);
        }
        out.push(t);
        proof {
            assert(out@ == pre_out.push(t));
            assert(pre_out.push(t).to_multiset() =~= pre_out.to_multiset().insert(t));
            assert(out@.to_multiset() =~= pre_out.to_multiset().insert(t));
            assert(out@.to_multiset().add(rest@.to_multiset()) =~= orig.to_multiset()) by {
                assert(pre_out.to_multiset().add(pre_rest.to_multiset()) =~= orig.to_multiset());
                assert forall|x: TableDescriptor|
                    #[trigger] out@.to_multiset().add(rest@.to_multiset()).count(x)
                    == orig.to_multiset().count(x) by {
                    if x == t {
                        assert(pre_rest.to_multiset().count(t) > 0);
                    }
                }
            }
            // Every element left in `rest` sits at some index of `pre_rest`.
            assert forall|p: int, q: int|
                0 <= p < out@.len() && 0 <= q < rest@.len() implies lex_le(
                #[trigger] out@[p].name@,
                #[trigger] rest@[q].name@,
            ) by {
                let src: int = if q < m {
                    q
                } else {
                    q + 1
                };
                assert(rest@[q] == pre_rest[src]);
                if p < pre_out.len() {
                    assert(lex_le(pre_out[p].name@, pre_rest[src].name@));
                } else {
                    assert(out@[p] == t);
                    assert(lex_le(pre_rest[m as int].name@, pre_rest[src].name@));
                }
            }
            assert forall|p: int, q: int| 0 <= p < q < out@.len() implies lex_le(
                #[trigger] out@[p].name@,
                #[trigger] out@[q].name@,
            ) by {
                if q == out@.len() - 1 {
                    assert(out@[q] == t);
                    assert(lex_le(pre_out[p].name@, pre_rest[m as int].name@));
                }
            }
        }
    }
    proof {
        assert(rest@.to_multiset() =~= Multiset::empty());
        assert forall|x: TableDescriptor| #[trigger]
            out@.to_multiset().count(x) == orig.to_multiset().count(x) by {
            assert(out@.to_multiset().add(rest@.to_multiset()).count(x) == orig.to_multiset().count(
                x,
            ));
        }
        assert(out@.to_multiset() =~= orig.to_multiset());
    }
    out
}

/// Builds the immutable schema from the engine's catalog rows: tables in
/// name order, columns in engine order with their mapped kinds, and each
/// table's row-identity strategy; a table with neither a primary key nor an
/// implicit row id is marked read-only.
pub fn reflect(catalog: &Vec<CatalogTable>) -> (r: TypeSchema)
    ensures
        r.tables@.len() == catalog@.len(),
        sorted_by_name(r.tables@),
        forall|j: int| 0 <= j < r.tables@.len() ==> (#[trigger] r.tables@[j]).wf(),
        forall|j: int|
            0 <= j < r.tables@.len() ==> has_catalog_match(#[trigger] r.tables@[j], catalog@),
        forall|i: int|
            0 <= i < catalog@.len() ==> is_reflected(#[trigger] catalog@[i], r.tables@),
{
    let mut built: Vec<TableDescriptor> = Vec::new();
    let mut i: usize = 0;
    while i < catalog.len()
        invariant
            i <= catalog@.len(),
            built@.len() == i,
            forall|k: int| 0 <= k < i ==> table_matches(#[trigger] built@[k], catalog@[k]) && built@[k].wf(),
        decreases catalog@.len() - i,
    {
        built.push(reflect_table(&catalog[i]));
        i = i + 1;
    }
    let ghost built_view = built@;
    let sorted = sort_tables(built);
    let r = TypeSchema { tables: sorted };
    proof {
        let sorted_view = r.tables@;
        assert forall|j: int| 0 <= j < sorted_view.len() implies (#[trigger] sorted_view[j]).wf()
            && has_catalog_match(sorted_view[j], catalog@) by {
            assert(sorted_view.to_multiset().count(sorted_view[j]) > 0);
            assert(built_view.to_multiset().count(sorted_view[j]) > 0);
            assert(built_view.contains(sorted_view[j]));
            let k = choose|k: int| 0 <= k < built_view.len() && built_view[k] == sorted_view[j];
            assert(table_matches(sorted_view[j], catalog@[k]));
        }
        assert forall|i2: int| 0 <= i2 < catalog@.len() implies is_reflected(
            #[trigger] catalog@[i2],
            sorted_view,
        ) by {
            assert(built_view.to_multiset().count(built_view[i2]) > 0);
            assert(sorted_view.to_multiset().count(built_view[i2]) > 0);
            assert(sorted_view.contains(built_view[i2]));
            let j = choose|j: int| 0 <= j < sorted_view.len() && sorted_view[j] == built_view[i2];
            assert(table_matches(sorted_view[j], catalog@[i2]));
        }
    }
    r
}

} // verus!
