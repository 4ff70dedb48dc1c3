//! Query execution state: the single-connection guard and the paginated,
//! cancellable result session.
//!
//! The host performs the engine calls; these types decide what may happen
//! next.  All access to one open database is serialized through the guard:
//! a second caller is refused with a busy error, never interleaved.  A read
//! query's rows arrive in bounded batches; cancellation is cooperative and
//! takes effect between batches, leaving the rows already delivered intact
//! and the connection free for the next request.

use vstd::prelude::*;
use crate::value::{Value, ValueModel};
use crate::mapper::{NativeModel, NativeValue};

verus! {

/// A failure reported by the engine for one statement, with the position of
/// the offending fragment when the engine gives one.
#[derive(Debug)]
pub struct QueryError {
    pub message: String,
    pub position: Option<usize>,
}

/// What running one statement produced: result rows to page through, or the
/// count of affected rows for a write.
pub enum StatementKind {
    Rows,
    Affected(u64),
}

// ---------------------------------------------------------------------------
// The single-connection guard.
// ---------------------------------------------------------------------------

/// Where the one connection of an open database stands.
#[derive(Clone, Copy, PartialEq, Eq, Structural, Debug)]
pub enum ConnState {
    /// Free for the next request.
    Idle,
    /// A query holds the cursor.
    Querying,
    /// An explicit transaction is open.
    InTransaction,
    /// The manager was closed.
    Closed,
}

/// Why the guard refused a request.
#[derive(Clone, Copy, PartialEq, Eq, Structural, Debug)]
pub enum AccessError {
    /// Another query or transaction holds the connection.
    ConnectionBusy,
    /// The manager was closed.
    ConnectionClosed,
}

pub open spec fn spec_acquire(st: ConnState, to: ConnState) -> (ConnState, Result<
    (),
    AccessError,
>) {
    match st {
        ConnState::Idle => (to, Ok(())),
        ConnState::Closed => (st, Err(AccessError::ConnectionClosed)),
        _ => (st, Err(AccessError::ConnectionBusy)),
    }
}

/// The exclusive-access discipline over one connection: callers are refused
/// while another holds it, and never interleaved.
pub struct ConnectionGuard {
    pub state: ConnState,
}

impl ConnectionGuard {
    /// A freshly opened connection is free.
    pub fn new() -> (g: ConnectionGuard)
        ensures
            g.state == ConnState::Idle,
    {
        ConnectionGuard { state: ConnState::Idle }
    }

    /// Takes the connection for a query: allowed exactly when it is free.
    pub fn begin_query(&mut self) -> (r: Result<(), AccessError>)
        ensures
            (final(self).state, r) == spec_acquire(old(self).state, ConnState::Querying),
    {
        match self.state {
            ConnState::Idle => {
                self.state = ConnState::Querying;
                Ok(())
            },
            ConnState::Closed => Err(AccessError::ConnectionClosed),
            _ => Err(AccessError::ConnectionBusy),
        }
    }

    /// Hands the connection back after a query's cursor is dropped.
    pub fn end_query(&mut self)
        requires
            old(self).state == ConnState::Querying,
        ensures
            final(self).state == ConnState::Idle,
    {
        self.state = ConnState::Idle;
    }

    /// Takes the connection for an explicit transaction: allowed exactly
    /// when it is free, so only one transaction is ever active.
    pub fn begin_transaction(&mut self) -> (r: Result<(), AccessError>)
        ensures
            (final(self).state, r) == spec_acquire(old(self).state, ConnState::InTransaction),
    {
        match self.state {
            ConnState::Idle => {
                self.state = ConnState::InTransaction;
                Ok(())
            },
            ConnState::Closed => Err(AccessError::ConnectionClosed),
            _ => Err(AccessError::ConnectionBusy),
        }
    }

    /// Hands the connection back once the transaction committed or rolled
    /// back.
    pub fn end_transaction(&mut self)
        requires
            old(self).state == ConnState::InTransaction,
        ensures
            final(self).state == ConnState::Idle,
    {
        self.state = ConnState::Idle;
    }

    /// Closes the manager.  When a transaction is still open the host must
    /// roll it back first; the result says whether that is owed.
    pub fn close(&mut self) -> (needs_rollback: bool)
        ensures
            final(self).state == ConnState::Closed,
            needs_rollback == (old(self).state == ConnState::InTransaction),
    {
        let needs_rollback = matches!(self.state, ConnState::InTransaction);
        self.state = ConnState::Closed;
        needs_rollback
    }
}

/// Releasing a query's cursor leaves the connection usable: the very next
/// request acquires it.
pub proof fn lemma_release_leaves_connection_usable(to: ConnState)
    ensures
        spec_acquire(ConnState::Idle, to) == (to, Ok::<(), AccessError>(())),
{
}

// ---------------------------------------------------------------------------
// The paginated result session.
// ---------------------------------------------------------------------------

/// A native value carried into the editor's value space without a column
/// kind: query results have no declared types.
pub open spec fn embed_native(n: NativeModel) -> ValueModel {
    match n {
        NativeModel::Null => ValueModel::Null,
        NativeModel::Integer(i) => ValueModel::Integer(i),
        NativeModel::Real(bits) => ValueModel::Real(bits),
        NativeModel::Text(s) => ValueModel::Text(s),
        NativeModel::Blob(b) => ValueModel::Blob(b),
    }
}

fn embed_native_exec(n: NativeValue) -> (r: Value)
    ensures
        r@ == embed_native(n@),
{
    match n {
        NativeValue::Null => Value::Null,
        NativeValue::Integer(i) => Value::Integer(i),
        NativeValue::Real(bits) => Value::Real(bits),
        NativeValue::Text(s) => Value::Text(s),
        NativeValue::Blob(b) => Value::Blob(b),
    }
}

/// What the session asks the host to do next.
#[derive(Clone, Copy, PartialEq, Eq, Structural, Debug)]
pub enum QueryAction {
    /// Fetch up to `batch_size` further rows from the cursor.
    FetchBatch,
    /// Drop the cursor and hand the connection back.
    Release,
    /// The session is over.
    Done,
}

/// A restartable, paginated result set: rows arrive in bounded batches and
/// the full result is never demanded at once.
pub struct QuerySession {
    pub columns: Vec<String>,
    pub batch_size: usize,
    pub rows: Vec<Vec<Value>>,
    pub cancelled: bool,
    pub exhausted: bool,
    pub released: bool,
}

impl QuerySession {
    /// Every delivered row is well-formed: one value per result column.
    pub open spec fn wf(self) -> bool {
        &&& self.batch_size > 0
        &&& forall|i: int|
            0 <= i < self.rows@.len() ==> (#[trigger] self.rows@[i])@.len()
                == self.columns@.len()
    }

    /// No further batch will be asked for.
    pub open spec fn finished(self) -> bool {
        self.cancelled || self.exhausted
    }

    /// Opens a session over a statement's result columns.
    pub fn new(columns: Vec<String>, batch_size: usize) -> (s: QuerySession)
        requires
            batch_size > 0,
        ensures
            s.wf(),
            s.columns == columns,
            s.batch_size == batch_size,
            s.rows@.len() == 0,
            !s.cancelled,
            !s.exhausted,
            !s.released,
    {
        QuerySession {
            columns,
            batch_size,
            rows: Vec::new(),
            cancelled: false,
            exhausted: false,
            released: false,
        }
    }

    /// What the host must do next: fetch while rows may remain, release the
    /// cursor once the session finished, then nothing.
    pub fn next_action(&self) -> (a: QueryAction)
        ensures
            a == (if !self.finished() {
                QueryAction::FetchBatch
            } else if !self.released {
                QueryAction::Release
            } else {
                QueryAction::Done
            }),
    {
        if !self.cancelled && !self.exhausted {
            QueryAction::FetchBatch
        } else if !self.released {
            QueryAction::Release
        } else {
            QueryAction::Done
        }
    }

    /// Takes one fetched batch: rows are appended in order, each checked to
    /// carry one value per column, and a short batch ends the result set.
    /// A malformed row is refused and nothing changes.
    pub fn push_batch(&mut self, batch: Vec<Vec<NativeValue>>) -> (r: Result<(), QueryError>)
        requires
            old(self).wf(),
            !old(self).finished(),
            !old(self).released,
            batch@.len() <= old(self).batch_size,
        ensures
            final(self).wf(),
            final(self).columns == old(self).columns,
            final(self).batch_size == old(self).batch_size,
            final(self).cancelled == old(self).cancelled,
            final(self).released == old(self).released,
            (r is Ok) <==> (forall|q: int|
                0 <= q < batch@.len() ==> (#[trigger] batch@[q])@.len()
                    == old(self).columns@.len()),
            r is Ok ==> {
                &&& final(self).rows@.len() == old(self).rows@.len() + batch@.len()
                &&& final(self).rows@.subrange(0, old(self).rows@.len() as int) == old(
                    self,
                ).rows@
                &&& forall|q: int, j: int|
                    0 <= q < batch@.len() && 0 <= j < batch@[q]@.len()
                        ==> (#[trigger] final(self).rows@[old(self).rows@.len() + q]@[j])@
                        == embed_native(batch@[q]@[j]@)
                &&& final(self).exhausted == (batch@.len() < old(self).batch_size)
            },
            r is Err ==> final(self).rows == old(self).rows && final(self).exhausted == old(
                self,
            ).exhausted,
    {
        let ncols = self.columns.len();
        let mut i: usize = 0;
        while i < batch.len()
            invariant
                i <= batch@.len(),
                ncols == self.columns@.len(),
                self == old(self),
                self.wf(),
                forall|q: int| 0 <= q < i ==> (#[trigger] batch@[q])@.len() == ncols,
            decreases batch@.len() - i,
        {
            if batch[i].len() != ncols {
                return Err(
                    QueryError { message: String::new(), position: Option::None },
                );
            }
            i = i + 1;
        }
        let short = batch.len() < self.batch_size;
        let ghost batch_view = batch@;
        let ghost old_rows = self.rows@;
        let mut rest = batch;
        let total = rest.len();
        let mut done: usize = 0;
        while rest.len() > 0
            invariant
                total == batch_view.len(),
                done + rest@.len() == batch_view.len(),
                ncols == self.columns@.len(),
                self.columns == old(self).columns,
                self.batch_size == old(self).batch_size,
                self.cancelled == old(self).cancelled,
                self.exhausted == old(self).exhausted,
                self.released == old(self).released,
                self.batch_size > 0,
                forall|q: int| 0 <= q < rest@.len() ==> rest@[q] == batch_view[done + q],
                forall|q: int| 0 <= q < batch_view.len() ==> (#[trigger] batch_view[q])@.len() == ncols,
                self.rows@.len() == old_rows.len() + done,
                self.rows@.subrange(0, old_rows.len() as int) == old_rows,
                forall|i2: int|
                    0 <= i2 < self.rows@.len() ==> (#[trigger] self.rows@[i2])@.len() == ncols,
                forall|q: int, j: int|
                    0 <= q < done && 0 <= j < ncols
                        ==> (#[trigger] self.rows@[old_rows.len() + q]@[j])@ == embed_native(
                        batch_view[q]@[j]@,
                    ),
            decreases rest@.len(),
        {
            let raw = rest.remove(0);
            let ghost raw_view = raw@;
            let mut row: Vec<Value> = Vec::new();
            let mut rest_vals = raw;
            let total_vals = rest_vals.len();
            let mut j: usize = 0;
            while rest_vals.len() > 0
                invariant
                    total_vals == raw_view.len(),
                    j + rest_vals@.len() == raw_view.len(),
                    row@.len() == j,
                    forall|q: int| 0 <= q < rest_vals@.len() ==> rest_vals@[q] == raw_view[j + q],
                    forall|q: int| 0 <= q < j ==> (#[trigger] row@[q])@ == embed_native(raw_view[q]@),
                decreases rest_vals@.len(),
            {
                let n = rest_vals.remove(0);
                row.push(embed_native_exec(n));
                j = j + 1;
            }
            let ghost pre_rows = self.rows@;
            self.rows.push(row);
            proof {
                assert(self.rows@.subrange(0, old_rows.len() as int) =~= old_rows);
            }
            done = done + 1;
        }
        if short {
            self.exhausted = true;
        }
        Ok(())
    }

    /// Requests cooperative cancellation: observed between batches, it never
    /// touches the rows already delivered, so the partial result stays
    /// well-formed and the cursor is released next.
    pub fn request_cancel(&mut self)
        requires
            old(self).wf(),
        ensures
            final(self).wf(),
            final(self).cancelled,
            final(self).rows == old(self).rows,
            final(self).columns == old(self).columns,
            final(self).batch_size == old(self).batch_size,
            final(self).exhausted == old(self).exhausted,
            final(self).released == old(self).released,
            final(self).finished(),
    {
        self.cancelled = true;
    }

    /// Drops the cursor and hands the connection back to the guard: the very
    /// next request may take it.
    pub fn release(&mut self, guard: &mut ConnectionGuard)
        requires
            old(self).wf(),
            old(self).finished(),
            !old(self).released,
            old(guard).state == ConnState::Querying,
        ensures
            final(self).wf(),
            final(self).released,
            final(self).rows == old(self).rows,
            final(self).columns == old(self).columns,
            final(self).cancelled == old(self).cancelled,
            final(self).exhausted == old(self).exhausted,
            final(guard).state == ConnState::Idle,
    {
        guard.end_query();
        self.released = true;
    }
}

} // verus!
