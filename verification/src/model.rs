//! A materialized page of rows with a staged-edit overlay.
//!
//! The page snapshot is never mutated in place: an accepted edit is recorded
//! beside it, keyed by row identity and column, together with the value
//! originally read, so that committing can detect external changes.  Dirty
//! state is derived from the overlay, never stored.

use vstd::prelude::*;
use crate::schema::{IdentityStrategy, TableDescriptor};
use crate::value::{Value, ValueModel, clone_value, clone_values, values_eq, values_view};
use crate::mapper::{NativeValue, from_native, spec_from_native};
use crate::editors::{ValidationError, spec_validate, validate};

verus! {

/// One materialized row: its identity values and its cell values, in the
/// schema's column order.
pub struct LoadedRow {
    pub identity: Vec<Value>,
    pub cells: Vec<Value>,
}

/// One staged cell change, with the value originally read for conflict
/// detection.
pub struct StagedEdit {
    pub identity: Vec<Value>,
    pub column: usize,
    pub original: Value,
    pub proposed: Value,
}

/// The key a staged edit is addressed by: row identity and column.
pub open spec fn edit_key(e: StagedEdit) -> (Seq<ValueModel>, int) {
    (values_view(e.identity@), e.column as int)
}

/// The first index at or after `i` holding an edit with `key`, else -1.
pub open spec fn edit_index_from(s: Seq<StagedEdit>, key: (Seq<ValueModel>, int), i: int) -> int
    decreases s.len() - i,
{
    if i < 0 || i >= s.len() {
        -1
    } else if edit_key(s[i]) == key {
        i
    } else {
        edit_index_from(s, key, i + 1)
    }
}

/// The index of the staged edit with `key`, else -1.
pub open spec fn edit_index_of(s: Seq<StagedEdit>, key: (Seq<ValueModel>, int)) -> int {
    edit_index_from(s, key, 0)
}

/// The first index at or after `i` of the row with identity `id`, else -1.
pub open spec fn row_index_from(s: Seq<LoadedRow>, id: Seq<ValueModel>, i: int) -> int
    decreases s.len() - i,
{
    if i < 0 || i >= s.len() {
        -1
    } else if values_view(s[i].identity@) == id {
        i
    } else {
        row_index_from(s, id, i + 1)
    }
}

/// The index of the row with identity `id`, else -1.
pub open spec fn row_index_of(s: Seq<LoadedRow>, id: Seq<ValueModel>) -> int {
    row_index_from(s, id, 0)
}

proof fn lemma_edit_index_from_bounds(s: Seq<StagedEdit>, key: (Seq<ValueModel>, int), i: int)
    requires
        0 <= i,
    ensures
        edit_index_from(s, key, i) == -1 || (i <= edit_index_from(s, key, i) < s.len() && edit_key(
            s[edit_index_from(s, key, i)],
        ) == key),
        edit_index_from(s, key, i) == -1 ==> forall|j: int|
            i <= j < s.len() ==> edit_key(#[trigger] s[j]) != key,
    decreases s.len() - i,
{
    if 0 <= i && i < s.len() && edit_key(s[i]) != key {
        lemma_edit_index_from_bounds(s, key, i + 1);
    }
}

proof fn lemma_row_index_from_bounds(s: Seq<LoadedRow>, id: Seq<ValueModel>, i: int)
    requires
        0 <= i,
    ensures
        row_index_from(s, id, i) == -1 || (i <= row_index_from(s, id, i) < s.len() && values_view(
            s[row_index_from(s, id, i)].identity@,
        ) == id),
        row_index_from(s, id, i) == -1 ==> forall|j: int|
            i <= j < s.len() ==> values_view(#[trigger] s[j].identity@) != id,
    decreases s.len() - i,
{
    if 0 <= i && i < s.len() && values_view(s[i].identity@) != id {
        lemma_row_index_from_bounds(s, id, i + 1);
    }
}

/// A table model holds its descriptor, the loaded page, and the staged
/// overlay.
pub struct TableModel {
    pub table: TableDescriptor,
    pub rows: Vec<LoadedRow>,
    pub edits: Vec<StagedEdit>,
}

impl TableModel {
    /// Internal consistency of the page and the overlay.
    pub open spec fn wf(self) -> bool {
        &&& self.table.wf()
        &&& forall|i: int|
            0 <= i < self.rows@.len() ==> (#[trigger] self.rows@[i]).cells@.len()
                == self.table.columns@.len()
        &&& (self.table.editable() ==> forall|i: int, j: int|
            0 <= i < j < self.rows@.len() ==> values_view(#[trigger] self.rows@[i].identity@)
                != values_view(#[trigger] self.rows@[j].identity@))
        &&& (!self.table.editable() ==> self.edits@.len() == 0)
        &&& forall|p: int, q: int|
            0 <= p < q < self.edits@.len() ==> edit_key(#[trigger] self.edits@[p]) != edit_key(
                #[trigger] self.edits@[q],
            )
        &&& forall|p: int|
            0 <= p < self.edits@.len() ==> (#[trigger] self.edits@[p]).column
                < self.table.columns@.len() && row_index_of(
                self.rows@,
                values_view(self.edits@[p].identity@),
            ) >= 0
    }

    /// The value a cell shows: the staged proposal where one exists, else
    /// the loaded snapshot value.
    pub open spec fn effective_cell(self, ri: int, ci: int) -> ValueModel {
        let key = (values_view(self.rows@[ri].identity@), ci);
        let e = edit_index_of(self.edits@, key);
        if e >= 0 {
            self.edits@[e].proposed@
        } else {
            self.rows@[ri].cells@[ci]@
        }
    }

    /// The number of dirty cells, derived from the overlay.
    pub fn dirty_count(&self) -> (r: usize)
        ensures
            r == self.edits@.len(),
    {
        self.edits.len()
    }

    /// Whether any cell of the row with identity `id` is staged.
    pub fn is_dirty(&self, id: &Vec<Value>) -> (r: bool)
        ensures
            r == exists|p: int|
                0 <= p < self.edits@.len() && values_view(
                    (#[trigger] self.edits@[p]).identity@,
                ) == values_view(id@),
    {
        let mut p: usize = 0;
        while p < self.edits.len()
            invariant
                p <= self.edits@.len(),
                forall|q: int|
                    0 <= q < p ==> values_view((#[trigger] self.edits@[q]).identity@)
                        != values_view(id@),
            decreases self.edits@.len() - p,
        {
            if values_eq(&self.edits[p].identity, id) {
                return true;
            }
            p = p + 1;
        }
        false
    }

    /// The index of the staged edit addressed by `(id, col)`, if any.
    fn find_edit(&self, id: &Vec<Value>, col: usize) -> (r: Option<usize>)
        ensures
            match r {
                Some(p) => p == edit_index_of(self.edits@, (values_view(id@), col as int)),
                None => edit_index_of(self.edits@, (values_view(id@), col as int)) == -1,
            },
    {
        let ghost key = (values_view(id@), col as int);
        let mut p: usize = 0;
        while p < self.edits.len()
            invariant
                p <= self.edits@.len(),
                edit_index_from(self.edits@, key, 0) == edit_index_from(self.edits@, key, p as int),
                key == (values_view(id@), col as int),
            decreases self.edits@.len() - p,
        {
            if self.edits[p].column == col && values_eq(&self.edits[p].identity, id) {
                return Some(p);
            }
            p = p + 1;
        }
        None
    }

    /// The index of the loaded row with identity `id`, if any.
    fn find_row(&self, id: &Vec<Value>) -> (r: Option<usize>)
        ensures
            match r {
                Some(i) => i == row_index_of(self.rows@, values_view(id@)),
                None => row_index_of(self.rows@, values_view(id@)) == -1,
            },
    {
        let ghost idv = values_view(id@);
        let mut i: usize = 0;
        while i < self.rows.len()
            invariant
                i <= self.rows@.len(),
                row_index_from(self.rows@, idv, 0) == row_index_from(self.rows@, idv, i as int),
                idv == values_view(id@),
            decreases self.rows@.len() - i,
        {
            if values_eq(&self.rows[i].identity, id) {
                return Some(i);
            }
            i = i + 1;
        }
        None
    }

    /// The value the cell `(id, col)` shows through the overlay.
    pub fn cell_value(&self, id: &Vec<Value>, col: usize) -> (r: Option<Value>)
        requires
            self.wf(),
        ensures
            match r {
                Some(v) => {
                    &&& row_index_of(self.rows@, values_view(id@)) >= 0
                    &&& col < self.table.columns@.len()
                    &&& v@ == self.effective_cell(
                        row_index_of(self.rows@, values_view(id@)),
                        col as int,
                    )
                },
                None => row_index_of(self.rows@, values_view(id@)) < 0 || col
                    >= self.table.columns@.len(),
            },
    {
        let ri = match self.find_row(id) {
            Some(i) => i,
            None => {
                return None;
            },
        };
        if col >= self.table.columns.len() {
            return None;
        }
        proof {
            lemma_row_index_from_bounds(self.rows@, values_view(id@), 0);
        }
        match self.find_edit(&self.rows[ri].identity, col) {
            Some(p) => {
                proof {
                    lemma_edit_index_from_bounds(
                        self.edits@,
                        (values_view(self.rows@[ri as int].identity@), col as int),
                        0,
                    );
                }
                Some(clone_value(&self.edits[p].proposed))
            },
            None => Some(clone_value(&self.rows[ri].cells[col])),
        }
    }

    /// Validates raw input for the addressed cell and, only on success,
    /// stages the edit.  A read-only table rejects every edit and nothing
    /// changes; re-staging a staged cell keeps the originally read value.
    pub fn stage_edit(&mut self, id: &Vec<Value>, col: usize, raw: &str) -> (r: Result<
        (),
        ValidationError,
    >)
        requires
            old(self).wf(),
        ensures
            final(self).wf(),
            final(self).table == old(self).table,
            final(self).rows == old(self).rows,
            !old(self).table.editable() ==> r == Err::<(), ValidationError>(
                ValidationError::ReadOnlyTable,
            ) && final(self).edits == old(self).edits,
            old(self).table.editable() && row_index_of(old(self).rows@, values_view(id@)) < 0 ==> r
                == Err::<(), ValidationError>(ValidationError::UnknownRow) && final(self).edits
                == old(self).edits,
            old(self).table.editable() && row_index_of(old(self).rows@, values_view(id@)) >= 0 && col
                >= old(self).table.columns@.len() ==> r == Err::<(), ValidationError>(
                ValidationError::UnknownColumn,
            ) && final(self).edits == old(self).edits,
            (old(self).table.editable() && row_index_of(old(self).rows@, values_view(id@)) >= 0
                && col < old(self).table.columns@.len()) ==> match spec_validate(
                old(self).table.columns@[col as int].kind,
                old(self).table.columns@[col as int].nullable,
                raw@,
            ) {
                Err(e) => r == Err::<(), ValidationError>(e) && final(self).edits == old(
                    self,
                ).edits,
                Ok(v) => {
                    let key = (values_view(id@), col as int);
                    let prior = edit_index_of(old(self).edits@, key);
                    &&& r == Ok::<(), ValidationError>(())
                    &&& final(self).edits@.len() == if prior >= 0 {
                        old(self).edits@.len()
                    } else {
                        old(self).edits@.len() + 1
                    }
                    &&& final(self).edits@.drop_last() == if prior >= 0 {
                        old(self).edits@.remove(prior)
                    } else {
                        old(self).edits@
                    }
                    &&& edit_key(final(self).edits@.last()) == key
                    &&& final(self).edits@.last().proposed@ == v
                    &&& final(self).edits@.last().original@ == if prior >= 0 {
                        old(self).edits@[prior].original@
                    } else {
                        old(self).rows@[row_index_of(old(self).rows@, values_view(id@))].cells@[col as int]@
                    }
                },
            },
    {
        let editable = match &self.table.identity {
            IdentityStrategy::ReadOnly => false,
            _ => true,
        };
        if !editable {
            return Err(ValidationError::ReadOnlyTable);
        }
        let ri = match self.find_row(id) {
            Some(i) => i,
            None => {
                return Err(ValidationError::UnknownRow);
            },
        };
        proof {
            lemma_row_index_from_bounds(self.rows@, values_view(id@), 0);
        }
        if col >= self.table.columns.len() {
            return Err(ValidationError::UnknownColumn);
        }
        let cd = &self.table.columns[col];
        let v = match validate(cd.kind, cd.nullable, raw) {
            Ok(v) => v,
            Err(e) => {
                return Err(e);
            },
        };
        let ghost key = (values_view(id@), col as int);
        proof {
            lemma_edit_index_from_bounds(self.edits@, key, 0);
        }
        let e = match self.find_edit(id, col) {
            Some(p) => {
                let prev = self.edits.remove(p);
                StagedEdit {
                    identity: clone_values(id),
                    column: col,
                    original: prev.original,
                    proposed: v,
                }
            },
            None => StagedEdit {
                identity: clone_values(id),
                column: col,
                original: clone_value(&self.rows[ri].cells[col]),
                proposed: v,
            },
        };
        self.edits.push(e);
        proof {
            let edits = self.edits@;
            assert(edits.drop_last() =~= edits.subrange(0, edits.len() - 1));
            assert forall|p: int, q: int|
                0 <= p < q < edits.len() implies edit_key(#[trigger] edits[p]) != edit_key(
                #[trigger] edits[q],
            ) by {
                if q == edits.len() - 1 {
                    lemma_edit_index_from_bounds(old(self).edits@, key, 0);
                    let prior = edit_index_of(old(self).edits@, key);
                    if prior >= 0 {
                        assert(edits[p] == old(self).edits@.remove(prior)[p]);
                    }
                }
            }
            assert forall|p: int|
                0 <= p < edits.len() implies (#[trigger] edits[p]).column
                < self.table.columns@.len() && row_index_of(
                self.rows@,
                values_view(edits[p].identity@),
            ) >= 0 by {
                let prior = edit_index_of(old(self).edits@, key);
                if p < edits.len() - 1 {
                    if prior >= 0 {
                        assert(edits[p] == old(self).edits@.remove(prior)[p]);
                    }
                } else {
                    assert(values_view(edits[p].identity@) == values_view(id@));
                }
            }
        }
        Ok(())
    }

    /// Removes the staged edit addressed by `(id, col)`, if one exists; the
    /// snapshot is untouched.
    pub fn discard_edit(&mut self, id: &Vec<Value>, col: usize) -> (found: bool)
        requires
            old(self).wf(),
        ensures
            final(self).wf(),
            final(self).table == old(self).table,
            final(self).rows == old(self).rows,
            ({
                let prior = edit_index_of(old(self).edits@, (values_view(id@), col as int));
                if prior >= 0 {
                    found && final(self).edits@ == old(self).edits@.remove(prior)
                } else {
                    !found && final(self).edits == old(self).edits
                }
            }),
    {
        proof {
            lemma_edit_index_from_bounds(self.edits@, (values_view(id@), col as int), 0);
        }
        match self.find_edit(id, col) {
            Some(p) => {
                self.edits.remove(p);
                proof {
                    let prior = edit_index_of(old(self).edits@, (values_view(id@), col as int));
                    assert forall|a: int, b: int|
                        0 <= a < b < self.edits@.len() implies edit_key(#[trigger] self.edits@[a])
                        != edit_key(#[trigger] self.edits@[b]) by {
                        assert(self.edits@[a] == old(self).edits@.remove(prior)[a]);
                        assert(self.edits@[b] == old(self).edits@.remove(prior)[b]);
                    }
                    assert forall|a: int|
                        0 <= a < self.edits@.len() implies (#[trigger] self.edits@[a]).column
                        < self.table.columns@.len() && row_index_of(
                        self.rows@,
                        values_view(self.edits@[a].identity@),
                    ) >= 0 by {
                        assert(self.edits@[a] == old(self).edits@.remove(prior)[a]);
                    }
                }
                true
            },
            None => false,
        }
    }

    /// Clears every staged edit; the snapshot is untouched.
    pub fn discard_all(&mut self)
        requires
            old(self).wf(),
        ensures
            final(self).wf(),
            final(self).table == old(self).table,
            final(self).rows == old(self).rows,
            final(self).edits@.len() == 0,
    {
        self.edits.clear();
    }
}

/// Staging a cell that was not staged before and then discarding it leaves
/// the overlay exactly as it was, so every effective cell value and the
/// dirty count return to their pre-edit state.
pub proof fn lemma_stage_then_discard(edits: Seq<StagedEdit>, e: StagedEdit)
    requires
        edit_index_of(edits, edit_key(e)) == -1,
    ensures
        edit_index_of(edits.push(e), edit_key(e)) == edits.len(),
        edits.push(e).remove(edits.len() as int) == edits,
        edits.push(e).len() == edits.len() + 1,
{
    lemma_push_index(edits, e, 0);
    assert(edits.push(e).remove(edits.len() as int) =~= edits);
}

/// The same, said of whole models: a model that staged a fresh cell and
/// then discarded it shows every cell as the untouched model does, and its
/// dirty count is back where it was.
pub proof fn lemma_stage_then_discard_model(
    m1: TableModel,
    m2: TableModel,
    m3: TableModel,
    e: StagedEdit,
)
    requires
        edit_index_of(m1.edits@, edit_key(e)) == -1,
        m2.rows == m1.rows,
        m2.edits@ == m1.edits@.push(e),
        m3.rows == m2.rows,
        m3.edits@ == m2.edits@.remove(edit_index_of(m2.edits@, edit_key(e))),
    ensures
        m3.edits@ == m1.edits@,
        m3.edits@.len() == m1.edits@.len(),
        forall|ri: int, ci: int| #![trigger m3.effective_cell(ri, ci)]
            0 <= ri < m1.rows@.len() ==> m3.effective_cell(ri, ci) == m1.effective_cell(ri, ci),
{
    lemma_stage_then_discard(m1.edits@, e);
}

proof fn lemma_push_index(edits: Seq<StagedEdit>, e: StagedEdit, i: int)
    requires
        0 <= i <= edits.len(),
        edit_index_from(edits, edit_key(e), i) == -1,
    ensures
        edit_index_from(edits.push(e), edit_key(e), i) == edits.len(),
    decreases edits.len() - i,
{
    if i < edits.len() {
        assert(edits.push(e)[i] == edits[i]);
        lemma_push_index(edits, e, i + 1);
    } else {
        assert(edits.push(e)[i] == e);
    }
}

// ---------------------------------------------------------------------------
// Page loading.
// ---------------------------------------------------------------------------

/// One row as the engine returned it: identity values, then cell values.
pub struct RawRow {
    pub identity: Vec<NativeValue>,
    pub cells: Vec<NativeValue>,
}

/// Why a page could not be materialized.
#[derive(Clone, Copy, PartialEq, Eq, Structural, Debug)]
pub enum PageError {
    /// Some row's cell count differs from the table's column count.
    ColumnCountMismatch,
    /// Some row's identity value count differs from what the table's
    /// row-identity strategy demands.
    IdentityShapeMismatch,
    /// Two rows carry the same identity although the table is editable.
    DuplicateRowIdentity,
}

/// How many identity values each row must carry for a strategy.
pub open spec fn identity_width(t: TableDescriptor) -> int {
    match t.identity {
        IdentityStrategy::PrimaryKey(ks) => ks@.len() as int,
        IdentityStrategy::RowId => 1,
        IdentityStrategy::ReadOnly => 0,
    }
}

/// The kind the identity value at position `p` is read under.
pub open spec fn identity_kind(t: TableDescriptor, p: int) -> crate::value::ValueKind {
    match t.identity {
        IdentityStrategy::PrimaryKey(ks) => t.columns@[ks@[p] as int].kind,
        _ => crate::value::ValueKind::Integer,
    }
}

pub open spec fn cells_shape_ok(t: TableDescriptor, raws: Seq<RawRow>) -> bool {
    forall|i: int| 0 <= i < raws.len() ==> (#[trigger] raws[i]).cells@.len() == t.columns@.len()
}

pub open spec fn identity_shape_ok(t: TableDescriptor, raws: Seq<RawRow>) -> bool {
    forall|i: int| 0 <= i < raws.len() ==> (#[trigger] raws[i]).identity@.len() == identity_width(t)
}

/// The converted identity of a raw row.
pub open spec fn converted_identity(t: TableDescriptor, r: RawRow) -> Seq<ValueModel> {
    Seq::new(r.identity@.len(), |p: int| spec_from_native(r.identity@[p]@, identity_kind(t, p)))
}

pub open spec fn identities_distinct(t: TableDescriptor, raws: Seq<RawRow>) -> bool {
    forall|i: int, j: int|
        0 <= i < j < raws.len() ==> converted_identity(t, #[trigger] raws[i]) != converted_identity(
            t,
            #[trigger] raws[j],
        )
}

fn convert_cells(vals: Vec<NativeValue>, t: &TableDescriptor) -> (r: Vec<Value>)
    requires
        vals@.len() == t.columns@.len(),
    ensures
        r@.len() == vals@.len(),
        forall|j: int|
            0 <= j < r@.len() ==> (#[trigger] r@[j])@ == spec_from_native(
                vals@[j]@,
                t.columns@[j].kind,
            ),
{
    let ghost vals_view = vals@;
    let mut rest = vals;
    let total = rest.len();
    let mut out: Vec<Value> = Vec::new();
    let mut j: usize = 0;
    while rest.len() > 0
        invariant
            total == vals_view.len(),
            j + rest@.len() == vals_view.len(),
            vals_view.len() == t.columns@.len(),
            out@.len() == j,
            forall|q: int| 0 <= q < rest@.len() ==> rest@[q] == vals_view[j + q],
            forall|q: int|
                0 <= q < j ==> (#[trigger] out@[q])@ == spec_from_native(
                    vals_view[q]@,
                    t.columns@[q].kind,
                ),
        decreases rest@.len(),
    {
        let n = rest.remove(0);
        let k = t.columns[j].kind;
        out.push(from_native(n, k));
        j = j + 1;
    }
    out
}

fn convert_identity(vals: Vec<NativeValue>, t: &TableDescriptor) -> (r: Vec<Value>)
    requires
        t.wf(),
        vals@.len() == identity_width(*t),
    ensures
        r@.len() == vals@.len(),
        forall|p: int|
            0 <= p < r@.len() ==> (#[trigger] r@[p])@ == spec_from_native(
                vals@[p]@,
                identity_kind(*t, p),
            ),
{
    let ghost vals_view = vals@;
    let mut rest = vals;
    let total = rest.len();
    let mut out: Vec<Value> = Vec::new();
    let mut p: usize = 0;
    while rest.len() > 0
        invariant
            t.wf(),
            total == vals_view.len(),
            p + rest@.len() == vals_view.len(),
            vals_view.len() == identity_width(*t),
            out@.len() == p,
            forall|q: int| 0 <= q < rest@.len() ==> rest@[q] == vals_view[p + q],
            forall|q: int|
                0 <= q < p ==> (#[trigger] out@[q])@ == spec_from_native(
                    vals_view[q]@,
                    identity_kind(*t, q),
                ),
        decreases rest@.len(),
    {
        let n = rest.remove(0);
        let k = match &t.identity {
            IdentityStrategy::PrimaryKey(ks) => t.columns[ks[p]].kind,
            _ => crate::value::ValueKind::Integer,
        };
        out.push(from_native(n, k));
        p = p + 1;
    }
    out
}

fn has_duplicate_identity(rows: &Vec<LoadedRow>) -> (r: bool)
    ensures
        r == exists|a: int, b: int|
            0 <= a < b < rows@.len() && values_view((#[trigger] rows@[a]).identity@) == values_view(
                (#[trigger] rows@[b]).identity@,
            ),
{
    let mut i: usize = 0;
    while i < rows.len()
        invariant
            i <= rows@.len(),
            forall|a: int, b: int|
                0 <= a < b < rows@.len() && a < i ==> values_view(
                    (#[trigger] rows@[a]).identity@,
                ) != values_view((#[trigger] rows@[b]).identity@),
        decreases rows@.len() - i,
    {
        let mut j: usize = i + 1;
        while j < rows.len()
            invariant
                i < rows@.len(),
                i < j,
                j <= rows@.len() + 1,
                forall|b: int|
                    i < b < j ==> values_view((#[trigger] rows@[b]).identity@) != values_view(
                        rows@[i as int].identity@,
                    ),
            decreases rows@.len() - j,
        {
            if values_eq(&rows[i].identity, &rows[j].identity) {
                return true;
            }
            j = j + 1;
        }
        i = i + 1;
    }
    false
}

/// Materializes a page: every cell and identity value is read through
/// `from_native` under its column's kind, rows keep the engine's order, and
/// an editable page's row identities are pairwise distinct.  The staged
/// overlay starts empty.
pub fn load_page(table: TableDescriptor, raws: Vec<RawRow>) -> (r: Result<TableModel, PageError>)
    requires
        table.wf(),
    ensures
        match r {
            Ok(m) => {
                &&& m.wf()
                &&& m.table == table
                &&& m.edits@.len() == 0
                &&& m.rows@.len() == raws@.len()
                &&& cells_shape_ok(table, raws@)
                &&& identity_shape_ok(table, raws@)
                &&& table.editable() ==> identities_distinct(table, raws@)
                &&& forall|i: int, j: int|
                    0 <= i < raws@.len() && 0 <= j < table.columns@.len()
                        ==> (#[trigger] m.rows@[i].cells@[j])@ == spec_from_native(
                        raws@[i].cells@[j]@,
                        table.columns@[j].kind,
                    )
                &&& forall|i: int|
                    0 <= i < raws@.len() ==> values_view((#[trigger] m.rows@[i]).identity@)
                        == converted_identity(table, raws@[i])
            },
            Err(e) => {
                &&& (e == PageError::ColumnCountMismatch <==> !cells_shape_ok(table, raws@))
                &&& (e == PageError::IdentityShapeMismatch <==> cells_shape_ok(table, raws@)
                    && !identity_shape_ok(table, raws@))
                &&& (e == PageError::DuplicateRowIdentity <==> cells_shape_ok(table, raws@)
                    && identity_shape_ok(table, raws@) && table.editable()
                    && !identities_distinct(table, raws@))
            },
        },
{
    let ncols = table.columns.len();
    let width: usize = match &table.identity {
        IdentityStrategy::PrimaryKey(ks) => ks.len(),
        IdentityStrategy::RowId => 1,
        IdentityStrategy::ReadOnly => 0,
    };
    let mut i: usize = 0;
    while i < raws.len()
        invariant
            i <= raws@.len(),
            ncols == table.columns@.len(),
            forall|q: int| 0 <= q < i ==> (#[trigger] raws@[q]).cells@.len() == ncols,
        decreases raws@.len() - i,
    {
        if raws[i].cells.len() != ncols {
            return Err(PageError::ColumnCountMismatch);
        }
        i = i + 1;
    }
    let mut i: usize = 0;
    while i < raws.len()
        invariant
            i <= raws@.len(),
            width as int == identity_width(table),
            cells_shape_ok(table, raws@),
            forall|q: int| 0 <= q < i ==> (#[trigger] raws@[q]).identity@.len() == width,
        decreases raws@.len() - i,
    {
        if raws[i].identity.len() != width {
            return Err(PageError::IdentityShapeMismatch);
        }
        i = i + 1;
    }
    let editable = match &table.identity {
        IdentityStrategy::ReadOnly => false,
        _ => true,
    };
    let ghost raws_view = raws@;
    let mut rows: Vec<LoadedRow> = Vec::new();
    let mut rest = raws;
    let total = rest.len();
    while rest.len() > 0
        invariant
            table.wf(),
            total == raws_view.len(),
            ncols == table.columns@.len(),
            width as int == identity_width(table),
            rows@.len() + rest@.len() == raws_view.len(),
            forall|q: int| 0 <= q < rest@.len() ==> rest@[q] == raws_view[rows@.len() + q],
            cells_shape_ok(table, raws_view),
            identity_shape_ok(table, raws_view),
            forall|q: int|
                0 <= q < rows@.len() ==> (#[trigger] rows@[q]).cells@.len() == ncols,
            forall|q: int, j: int|
                0 <= q < rows@.len() && 0 <= j < ncols ==> (#[trigger] rows@[q].cells@[j])@
                    == spec_from_native(raws_view[q].cells@[j]@, table.columns@[j].kind),
            forall|q: int|
                0 <= q < rows@.len() ==> values_view((#[trigger] rows@[q]).identity@)
                    == converted_identity(table, raws_view[q]),
        decreases rest@.len(),
    {
        let raw = rest.remove(0);
        let ghost q = rows@.len();
        let row = LoadedRow {
            identity: convert_identity(raw.identity, &table),
            cells: convert_cells(raw.cells, &table),
        };
        proof {
            assert(values_view(row.identity@) =~= converted_identity(table, raws_view[q as int]));
        }
        rows.push(row);
    }
    if editable {
        if has_duplicate_identity(&rows) {
            proof {
                let (a, b): (int, int) = choose|a: int, b: int|
                    0 <= a < b < rows@.len() && values_view(rows@[a].identity@) == values_view(
                        rows@[b].identity@,
                    );
                assert(converted_identity(table, raws_view[a]) == converted_identity(
                    table,
                    raws_view[b],
                ));
                assert(!identities_distinct(table, raws_view));
            }
            return Err(PageError::DuplicateRowIdentity);
        }
        proof {
            assert forall|a: int, b: int| 0 <= a < b < raws_view.len() implies converted_identity(
                table,
                #[trigger] raws_view[a],
            ) != converted_identity(table, #[trigger] raws_view[b]) by {
                assert(values_view(rows@[a].identity@) != values_view(rows@[b].identity@));
            }
        }
    }
    let m = TableModel { table, rows, edits: Vec::new() };
    Ok(m)
}

} // verus!
