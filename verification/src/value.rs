//! Editable cell values and their mathematical models.

use vstd::prelude::*;
use vstd::std_specs::cmp::PartialEqSpec;

verus! {

/// The canonical editable kind a column is mapped to by type affinity.
#[derive(Clone, Copy, PartialEq, Eq, Structural, Debug)]
pub enum ValueKind {
    Integer,
    Real,
    Text,
    Blob,
    Boolean,
    DateTime,
}

/// A calendar timestamp in the editor's single canonical format
/// `YYYY-MM-DD HH:MM:SS`.
#[derive(Clone, Copy, PartialEq, Eq, Structural, Debug)]
pub struct DateTime {
    pub year: u32,
    pub month: u32,
    pub day: u32,
    pub hour: u32,
    pub minute: u32,
    pub second: u32,
}

impl DateTime {
    /// Field ranges the canonical format can carry.
    pub open spec fn wf(self) -> bool {
        &&& self.year <= 9999
        &&& 1 <= self.month <= 12
        &&& 1 <= self.day <= 31
        &&& self.hour <= 23
        &&& self.minute <= 59
        &&& self.second <= 59
    }
}

/// An editable cell value.  A real number is carried as the bit pattern of
/// its 64-bit IEEE-754 encoding, so that storing and reloading it is exact;
/// the host converts between the bits and its own floating-point values.
#[derive(Debug)]
pub enum Value {
    Null,
    Integer(i64),
    Real(u64),
    Text(String),
    Blob(Vec<u8>),
    Boolean(bool),
    DateTime(DateTime),
}

/// Mathematical model of a `Value`.
pub enum ValueModel {
    Null,
    Integer(int),
    Real(u64),
    Text(Seq<char>),
    Blob(Seq<u8>),
    Boolean(bool),
    DateTime(DateTime),
}

impl View for Value {
    type V = ValueModel;

    open spec fn view(&self) -> ValueModel {
        match *self {
            Value::Null => ValueModel::Null,
            Value::Integer(i) => ValueModel::Integer(i as int),
            Value::Real(bits) => ValueModel::Real(bits),
            Value::Text(s) => ValueModel::Text(s@),
            Value::Blob(b) => ValueModel::Blob(b@),
            Value::Boolean(b) => ValueModel::Boolean(b),
            Value::DateTime(dt) => ValueModel::DateTime(dt),
        }
    }
}

/// A value's tag is consistent with a column kind when it is `Null` (legal
/// for any nullable column) or matches the kind exactly.
pub open spec fn fits_kind(v: ValueModel, k: ValueKind) -> bool {
    match v {
        ValueModel::Null => true,
        ValueModel::Integer(_) => k == ValueKind::Integer,
        ValueModel::Real(_) => k == ValueKind::Real,
        ValueModel::Text(_) => k == ValueKind::Text,
        ValueModel::Blob(_) => k == ValueKind::Blob,
        ValueModel::Boolean(_) => k == ValueKind::Boolean,
        ValueModel::DateTime(_) => k == ValueKind::DateTime,
    }
}

/// Structural well-formedness of a value model.
pub open spec fn wf_value(v: ValueModel) -> bool {
    match v {
        ValueModel::DateTime(dt) => dt.wf(),
        _ => true,
    }
}

/// The models of a sequence of values.
pub open spec fn values_view(s: Seq<Value>) -> Seq<ValueModel> {
    s.map_values(|v: Value| v@)
}

/// Deep equality of two values, decided on their models.
pub fn value_eq(a: &Value, b: &Value) -> (r: bool)
    ensures
        r == (a@ == b@),
{
    match a {
        Value::Null => match b {
            Value::Null => true,
            _ => false,
        },
        Value::Integer(x) => match b {
            Value::Integer(y) => *x == *y,
            _ => false,
        },
        Value::Real(x) => match b {
            Value::Real(y) => *x == *y,
            _ => false,
        },
        Value::Text(x) => match b {
            Value::Text(y) => *x == *y,
            _ => false,
        },
        Value::Blob(x) => match b {
            Value::Blob(y) => {
                let r = *x == *y;
                proof {
                    if r {
                        assert(x@ =~= y@);
                    }
                    if x@ == y@ {
                        assert(x.eq_spec(y));
                    }
                }
                r
            },
            _ => false,
        },
        Value::Boolean(x) => match b {
            Value::Boolean(y) => *x == *y,
            _ => false,
        },
        Value::DateTime(x) => match b {
            Value::DateTime(y) => *x == *y,
            _ => false,
        },
    }
}

/// A copy of a value whose model is the same.
pub fn clone_value(v: &Value) -> (r: Value)
    ensures
        r@ == v@,
{
    match v {
        Value::Null => Value::Null,
        Value::Integer(i) => Value::Integer(*i),
        Value::Real(bits) => Value::Real(*bits),
        Value::Text(s) => Value::Text(s.clone()),
        Value::Blob(b) => Value::Blob(b.clone()),
        Value::Boolean(b) => Value::Boolean(*b),
        Value::DateTime(dt) => Value::DateTime(*dt),
    }
}

/// Deep equality of two rows of values, decided on their models.
pub fn values_eq(a: &Vec<Value>, b: &Vec<Value>) -> (r: bool)
    ensures
        r == (values_view(a@) == values_view(b@)),
{
    if a.len() != b.len() {
        proof {
            assert(values_view(a@).len() != values_view(b@).len());
        }
        return false;
    }
    let n = a.len();
    let mut i: usize = 0;
    while i < n
        invariant
            n == a.len() == b.len(),
            i <= n,
            forall|j: int| 0 <= j < i ==> a@[j]@ == b@[j]@,
        decreases n - i,
    {
        if !value_eq(&a[i], &b[i]) {
            proof {
                assert(values_view(a@)[i as int] == a@[i as int]@);
                assert(values_view(b@)[i as int] == b@[i as int]@);
            }
            return false;
        }
        i = i + 1;
    }
    proof {
        assert(values_view(a@) =~= values_view(b@));
    }
    true
}

/// A copy of a row of values whose models are the same.
pub fn clone_values(vs: &Vec<Value>) -> (r: Vec<Value>)
    ensures
        values_view(r@) == values_view(vs@),
{
    let mut out: Vec<Value> = Vec::new();
    let mut i: usize = 0;
    while i < vs.len()
        invariant
            i <= vs.len(),
            out@.len() == i,
            forall|j: int| 0 <= j < i ==> out@[j]@ == vs@[j]@,
        decreases vs.len() - i,
    {
        out.push(clone_value(&vs[i]));
        i = i + 1;
    }
    proof {
        assert(values_view(out@) =~= values_view(vs@));
    }
    out
}

} // verus!
