//! Mapping between declared column types, editable values, and the engine's
//! native storage classes.
//!
//! The engine is loosely typed: a declared column type is reduced to a
//! `ValueKind` by substring matching against canonical keywords, and a stored
//! value of any storage class is legal in any column.  Conversion keeps
//! mismatched values as they are rather than rejecting them.

use vstd::prelude::*;
use crate::value::{DateTime, Value, ValueKind, ValueModel, fits_kind, wf_value};

verus! {

/// A value as the engine stores it: one of its five storage classes.
/// A real is carried as its 64-bit IEEE-754 bit pattern.
pub enum NativeValue {
    Null,
    Integer(i64),
    Real(u64),
    Text(String),
    Blob(Vec<u8>),
}

/// Mathematical model of a `NativeValue`.
pub enum NativeModel {
    Null,
    Integer(int),
    Real(u64),
    Text(Seq<char>),
    Blob(Seq<u8>),
}

impl View for NativeValue {
    type V = NativeModel;

    open spec fn view(&self) -> NativeModel {
        match *self {
            NativeValue::Null => NativeModel::Null,
            NativeValue::Integer(i) => NativeModel::Integer(i as int),
            NativeValue::Real(bits) => NativeModel::Real(bits),
            NativeValue::Text(s) => NativeModel::Text(s@),
            NativeValue::Blob(b) => NativeModel::Blob(b@),
        }
    }
}

// ---------------------------------------------------------------------------
// Decimal digits and the canonical date/time format.
// ---------------------------------------------------------------------------

pub open spec fn is_digit(c: char) -> bool {
    48 <= c as int <= 57
}

pub open spec fn digit_val(c: char) -> int {
    c as int - 48
}

pub open spec fn digit_char(d: int) -> char {
    if d == 0 {
        '0'
    } else if d == 1 {
        '1'
    } else if d == 2 {
        '2'
    } else if d == 3 {
        '3'
    } else if d == 4 {
        '4'
    } else if d == 5 {
        '5'
    } else if d == 6 {
        '6'
    } else if d == 7 {
        '7'
    } else if d == 8 {
        '8'
    } else {
        '9'
    }
}

/// The canonical rendering `YYYY-MM-DD HH:MM:SS` of a timestamp.
pub open spec fn render_dt(dt: DateTime) -> Seq<char> {
    seq![
        digit_char(dt.year as int / 1000),
        digit_char(dt.year as int / 100 % 10),
        digit_char(dt.year as int / 10 % 10),
        digit_char(dt.year as int % 10),
        '-',
        digit_char(dt.month as int / 10),
        digit_char(dt.month as int % 10),
        '-',
        digit_char(dt.day as int / 10),
        digit_char(dt.day as int % 10),
        ' ',
        digit_char(dt.hour as int / 10),
        digit_char(dt.hour as int % 10),
        ':',
        digit_char(dt.minute as int / 10),
        digit_char(dt.minute as int % 10),
        ':',
        digit_char(dt.second as int / 10),
        digit_char(dt.second as int % 10),
    ]
}

pub open spec fn num2(s: Seq<char>, i: int) -> int {
    digit_val(s[i]) * 10 + digit_val(s[i + 1])
}

pub open spec fn num4(s: Seq<char>, i: int) -> int {
    digit_val(s[i]) * 1000 + digit_val(s[i + 1]) * 100 + digit_val(s[i + 2]) * 10 + digit_val(
        s[i + 3],
    )
}

pub open spec fn dt_shape(s: Seq<char>) -> bool {
    &&& s.len() == 19
    &&& is_digit(s[0]) && is_digit(s[1]) && is_digit(s[2]) && is_digit(s[3])
    &&& s[4] == '-'
    &&& is_digit(s[5]) && is_digit(s[6])
    &&& s[7] == '-'
    &&& is_digit(s[8]) && is_digit(s[9])
    &&& s[10] == ' '
    &&& is_digit(s[11]) && is_digit(s[12])
    &&& s[13] == ':'
    &&& is_digit(s[14]) && is_digit(s[15])
    &&& s[16] == ':'
    &&& is_digit(s[17]) && is_digit(s[18])
}

/// Parsing of the single canonical timestamp format; any other text is `None`.
pub open spec fn parse_dt(s: Seq<char>) -> Option<DateTime> {
    if dt_shape(s) {
        let dt = DateTime {
            year: num4(s, 0) as u32,
            month: num2(s, 5) as u32,
            day: num2(s, 8) as u32,
            hour: num2(s, 11) as u32,
            minute: num2(s, 14) as u32,
            second: num2(s, 17) as u32,
        };
        if dt.wf() {
            Some(dt)
        } else {
            None
        }
    } else {
        None
    }
}

proof fn lemma_digit_round_trip(d: int)
    requires
        0 <= d < 10,
    ensures
        is_digit(digit_char(d)),
        digit_val(digit_char(d)) == d,
{
}

/// Rendering a well-formed timestamp and parsing the text yields it back.
pub proof fn lemma_dt_round_trip(dt: DateTime)
    requires
        dt.wf(),
    ensures
        parse_dt(render_dt(dt)) == Some(dt),
{
    let s = render_dt(dt);
    let y = dt.year as int;
    let mo = dt.month as int;
    let dd = dt.day as int;
    let h = dt.hour as int;
    let mi = dt.minute as int;
    let sec = dt.second as int;
    assert forall|d: int| 0 <= d < 10 implies is_digit(digit_char(d)) && digit_val(
        digit_char(d),
    ) == d by {
        lemma_digit_round_trip(d);
    }
    assert(y / 1000 < 10 && y / 100 % 10 < 10 && y / 10 % 10 < 10 && y % 10 < 10);
    assert(dt_shape(s));
    assert(num4(s, 0) == (y / 1000) * 1000 + (y / 100 % 10) * 100 + (y / 10 % 10) * 10 + y % 10);
    assert((y / 1000) * 1000 + (y / 100 % 10) * 100 + (y / 10 % 10) * 10 + y % 10 == y) by (nonlinear_arith)
        requires
            0 <= y < 10000,
    ;
    assert(num2(s, 5) == (mo / 10) * 10 + mo % 10);
    assert((mo / 10) * 10 + mo % 10 == mo) by (nonlinear_arith)
        requires
            0 <= mo < 100,
    ;
    assert((dd / 10) * 10 + dd % 10 == dd) by (nonlinear_arith)
        requires
            0 <= dd < 100,
    ;
    assert((h / 10) * 10 + h % 10 == h) by (nonlinear_arith)
        requires
            0 <= h < 100,
    ;
    assert((mi / 10) * 10 + mi % 10 == mi) by (nonlinear_arith)
        requires
            0 <= mi < 100,
    ;
    assert((sec / 10) * 10 + sec % 10 == sec) by (nonlinear_arith)
        requires
            0 <= sec < 100,
    ;
    assert(parse_dt(s) == Some(dt));
}

// ---------------------------------------------------------------------------
// Conversion between editable values and native values.
// ---------------------------------------------------------------------------

/// What the engine is handed for each editable value.
pub open spec fn spec_to_native(v: ValueModel) -> NativeModel {
    match v {
        ValueModel::Null => NativeModel::Null,
        ValueModel::Integer(i) => NativeModel::Integer(i),
        ValueModel::Real(bits) => NativeModel::Real(bits),
        ValueModel::Text(s) => NativeModel::Text(s),
        ValueModel::Blob(b) => NativeModel::Blob(b),
        ValueModel::Boolean(b) => NativeModel::Integer(
            if b {
                1
            } else {
                0
            },
        ),
        ValueModel::DateTime(dt) => NativeModel::Text(render_dt(dt)),
    }
}

/// The editable value read back from a native value under a column kind.
/// A stored value whose storage class does not suit the kind is kept as it
/// is: mismatches are legitimate values in the loosely typed engine.
pub open spec fn spec_from_native(n: NativeModel, k: ValueKind) -> ValueModel {
    match n {
        NativeModel::Null => ValueModel::Null,
        NativeModel::Integer(i) => {
            if k == ValueKind::Boolean && i == 0 {
                ValueModel::Boolean(false)
            } else if k == ValueKind::Boolean && i == 1 {
                ValueModel::Boolean(true)
            } else {
                ValueModel::Integer(i)
            }
        },
        NativeModel::Real(bits) => ValueModel::Real(bits),
        NativeModel::Text(s) => {
            if k == ValueKind::DateTime {
                match parse_dt(s) {
                    Some(dt) => ValueModel::DateTime(dt),
                    None => ValueModel::Text(s),
                }
            } else {
                ValueModel::Text(s)
            }
        },
        NativeModel::Blob(b) => ValueModel::Blob(b),
    }
}

/// Round-trip fidelity: every well-formed value whose tag suits its column's
/// kind is read back unchanged after being handed to the engine.
pub proof fn lemma_value_round_trip(v: ValueModel, k: ValueKind)
    requires
        fits_kind(v, k),
        wf_value(v),
    ensures
        spec_from_native(spec_to_native(v), k) == v,
{
    match v {
        ValueModel::DateTime(dt) => {
            lemma_dt_round_trip(dt);
        },
        _ => {},
    }
}

/// Relies on `String::push`: appends exactly one character.
#[verifier::external_body]
pub(crate) fn push_char(s: &mut String, c: char)
    ensures
        final(s)@ == old(s)@.push(c),
{
    s.push(c);
}

pub(crate) fn digit_char_exec(d: u32) -> (c: char)
    requires
        d < 10,
    ensures
        c == digit_char(d as int),
{
    if d == 0 {
        '0'
    } else if d == 1 {
        '1'
    } else if d == 2 {
        '2'
    } else if d == 3 {
        '3'
    } else if d == 4 {
        '4'
    } else if d == 5 {
        '5'
    } else if d == 6 {
        '6'
    } else if d == 7 {
        '7'
    } else if d == 8 {
        '8'
    } else {
        '9'
    }
}

fn push_two_digits(s: &mut String, n: u32)
    requires
        n < 100,
    ensures
        final(s)@ == old(s)@.push(digit_char(n as int / 10)).push(digit_char(n as int % 10)),
{
    let c1 = digit_char_exec(n / 10);
    let c2 = digit_char_exec(n % 10);
    push_char(s, c1);
    push_char(s, c2);
}

/// The canonical text of a timestamp.
pub fn render_datetime(dt: &DateTime) -> (r: String)
    requires
        dt.wf(),
    ensures
        r@ == render_dt(*dt),
{
    let mut s = String::new();
    let y = dt.year;
    let c1 = digit_char_exec(y / 1000);
    let c2 = digit_char_exec(y / 100 % 10);
    let c3 = digit_char_exec(y / 10 % 10);
    let c4 = digit_char_exec(y % 10);
    push_char(&mut s, c1);
    push_char(&mut s, c2);
    push_char(&mut s, c3);
    push_char(&mut s, c4);
    push_char(&mut s, '-');
    push_two_digits(&mut s, dt.month);
    push_char(&mut s, '-');
    push_two_digits(&mut s, dt.day);
    push_char(&mut s, ' ');
    push_two_digits(&mut s, dt.hour);
    push_char(&mut s, ':');
    push_two_digits(&mut s, dt.minute);
    push_char(&mut s, ':');
    push_two_digits(&mut s, dt.second);
    proof {
        assert(s@ =~= render_dt(*dt));
    }
    s
}

fn read_digit(s: &str, i: usize) -> (r: Option<u32>)
    requires
        i < s@.len(),
    ensures
        match r {
            Some(d) => is_digit(s@[i as int]) && d == digit_val(s@[i as int]) && d < 10,
            None => !is_digit(s@[i as int]),
        },
{
    let c = s.get_char(i);
    let u = c as u32;
    if 48 <= u && u <= 57 {
        Some(u - 48)
    } else {
        None
    }
}

fn read_two(s: &str, i: usize) -> (r: Option<u32>)
    requires
        s@.len() == 19,
        i <= 17,
    ensures
        match r {
            Some(n) => is_digit(s@[i as int]) && is_digit(s@[i as int + 1]) && n == num2(
                s@,
                i as int,
            ) && n < 100,
            None => !(is_digit(s@[i as int]) && is_digit(s@[i as int + 1])),
        },
{
    match (read_digit(s, i), read_digit(s, i + 1)) {
        (Some(d1), Some(d2)) => Some(d1 * 10 + d2),
        _ => None,
    }
}

/// Parses the single canonical timestamp format `YYYY-MM-DD HH:MM:SS`.
pub fn parse_datetime(s: &str) -> (r: Option<DateTime>)
    ensures
        r == parse_dt(s@),
{
    let n = s.unicode_len();
    if n != 19 {
        return None;
    }
    if !(s.get_char(4) == '-' && s.get_char(7) == '-' && s.get_char(10) == ' ' && s.get_char(13)
        == ':' && s.get_char(16) == ':') {
        return None;
    }
    let y = match read_two(s, 0) {
        Some(v) => v,
        None => {
            return None;
        },
    };
    let y2 = match read_two(s, 2) {
        Some(v) => v,
        None => {
            return None;
        },
    };
    let mo = match read_two(s, 5) {
        Some(v) => v,
        None => {
            return None;
        },
    };
    let dd = match read_two(s, 8) {
        Some(v) => v,
        None => {
            return None;
        },
    };
    let h = match read_two(s, 11) {
        Some(v) => v,
        None => {
            return None;
        },
    };
    let mi = match read_two(s, 14) {
        Some(v) => v,
        None => {
            return None;
        },
    };
    let sec = match read_two(s, 17) {
        Some(v) => v,
        None => {
            return None;
        },
    };
    let dt = DateTime {
        year: y * 100 + y2,
        month: mo,
        day: dd,
        hour: h,
        minute: mi,
        second: sec,
    };
    proof {
        assert(dt_shape(s@));
        assert(dt.year as int == num4(s@, 0));
    }
    if 1 <= dt.month && dt.month <= 12 && 1 <= dt.day && dt.day <= 31 && dt.hour <= 23 && dt.minute
        <= 59 && dt.second <= 59 {
        Some(dt)
    } else {
        None
    }
}

/// Hands an editable value to the engine's value space.
pub fn to_native(v: Value) -> (r: NativeValue)
    requires
        wf_value(v@),
    ensures
        r@ == spec_to_native(v@),
{
    match v {
        Value::Null => NativeValue::Null,
        Value::Integer(i) => NativeValue::Integer(i),
        Value::Real(bits) => NativeValue::Real(bits),
        Value::Text(s) => NativeValue::Text(s),
        Value::Blob(b) => NativeValue::Blob(b),
        Value::Boolean(b) => NativeValue::Integer(
            if b {
                1
            } else {
                0
            },
        ),
        Value::DateTime(dt) => NativeValue::Text(render_datetime(&dt)),
    }
}

/// Reads a native value back as the editable value of a column kind.
pub fn from_native(n: NativeValue, k: ValueKind) -> (r: Value)
    ensures
        r@ == spec_from_native(n@, k),
{
    match n {
        NativeValue::Null => Value::Null,
        NativeValue::Integer(i) => {
            if k == ValueKind::Boolean && i == 0 {
                Value::Boolean(false)
            } else if k == ValueKind::Boolean && i == 1 {
                Value::Boolean(true)
            } else {
                Value::Integer(i)
            }
        },
        NativeValue::Real(bits) => Value::Real(bits),
        NativeValue::Text(s) => {
            if k == ValueKind::DateTime {
                match parse_datetime(s.as_str()) {
                    Some(dt) => Value::DateTime(dt),
                    None => Value::Text(s),
                }
            } else {
                Value::Text(s)
            }
        },
        NativeValue::Blob(b) => Value::Blob(b),
    }
}

// ---------------------------------------------------------------------------
// Type affinity: declared column type to value kind.
// ---------------------------------------------------------------------------

/// ASCII upper-casing of one character.
pub open spec fn upper_char(c: char) -> char {
    if 97 <= c as int <= 122 {
        ((c as int - 32) as u8) as char
    } else {
        c
    }
}

pub open spec fn upper_seq(s: Seq<char>) -> Seq<char> {
    s.map_values(|c: char| upper_char(c))
}

/// Whether `kw` occurs as a contiguous run inside `s`.
pub open spec fn contains_kw(s: Seq<char>, kw: Seq<char>) -> bool {
    exists|i: int| 0 <= i && i + kw.len() <= s.len() && #[trigger] s.subrange(i, i + kw.len()) == kw
}

/// The engine's type-affinity rules over the upper-cased declared type.
/// Unrecognized declared types default to text affinity.
pub open spec fn spec_kind_of(decl: Seq<char>) -> ValueKind {
    let u = upper_seq(decl);
    if contains_kw(u, seq!['I', 'N', 'T']) {
        ValueKind::Integer
    } else if contains_kw(u, seq!['B', 'O', 'O', 'L']) {
        ValueKind::Boolean
    } else if contains_kw(u, seq!['D', 'A', 'T', 'E']) || contains_kw(
        u,
        seq!['T', 'I', 'M', 'E'],
    ) {
        ValueKind::DateTime
    } else if contains_kw(u, seq!['C', 'H', 'A', 'R']) || contains_kw(
        u,
        seq!['C', 'L', 'O', 'B'],
    ) || contains_kw(u, seq!['T', 'E', 'X', 'T']) {
        ValueKind::Text
    } else if contains_kw(u, seq!['B', 'L', 'O', 'B']) {
        ValueKind::Blob
    } else if contains_kw(u, seq!['R', 'E', 'A', 'L']) || contains_kw(
        u,
        seq!['F', 'L', 'O', 'A'],
    ) || contains_kw(u, seq!['D', 'O', 'U', 'B']) {
        ValueKind::Real
    } else {
        ValueKind::Text
    }
}

fn upper_char_exec(c: char) -> (r: char)
    ensures
        r == upper_char(c),
{
    let u = c as u32;
    if 97 <= u && u <= 122 {
        ((u - 32) as u8) as char
    } else {
        c
    }
}

pub(crate) fn upper_chars(s: &str) -> (r: Vec<char>)
    ensures
        r@ == upper_seq(s@),
{
    let n = s.unicode_len();
    let mut out: Vec<char> = Vec::new();
    let mut i: usize = 0;
    while i < n
        invariant
            n == s@.len(),
            i <= n,
            out@.len() == i,
            forall|j: int| 0 <= j < i ==> out@[j] == upper_char(s@[j]),
        decreases n - i,
    {
        let c = s.get_char(i);
        out.push(upper_char_exec(c));
        i = i + 1;
    }
    proof {
        assert(out@ =~= upper_seq(s@));
    }
    out
}

fn contains_sub(hay: &Vec<char>, needle: &Vec<char>) -> (r: bool)
    ensures
        r == contains_kw(hay@, needle@),
{
    let m = needle.len();
    let n = hay.len();
    if m > n {
        proof {
            assert(!contains_kw(hay@, needle@));
        }
        return false;
    }
    if m == 0 {
        proof {
            let l = needle@.len() as int;
            assert(hay@.subrange(0, 0 + l) =~= needle@);
            assert(contains_kw(hay@, needle@));
        }
        return true;
    }
    let mut i: usize = 0;
    while i <= n - m
        invariant
            m == needle@.len(),
            n == hay@.len(),
            m <= n,
            i <= n - m + 1,
            1 <= m,
            forall|p: int|
                0 <= p < i ==> #[trigger] hay@.subrange(p, p + needle@.len()) != needle@,
        decreases n + 1 - i,
    {
        let mut j: usize = 0;
        let mut ok = true;
        while j < m
            invariant
                m == needle@.len(),
                n == hay@.len(),
                i + m <= n,
                j <= m,
                ok ==> forall|q: int| 0 <= q < j ==> hay@[i + q] == needle@[q],
                !ok ==> hay@.subrange(i as int, i + needle@.len()) != needle@,
            decreases m - j,
        {
            if hay[i + j] != needle[j] {
                proof {
                    assert(hay@.subrange(i as int, i + needle@.len())[j as int] != needle@[j as int]);
                }
                ok = false;
                j = m;
            } else {
                j = j + 1;
            }
        }
        if ok {
            proof {
                assert(hay@.subrange(i as int, i + needle@.len()) =~= needle@);
            }
            return true;
        }
        i = i + 1;
    }
    proof {
        assert forall|p: int| 0 <= p && p + needle@.len() <= hay@.len() implies #[trigger] hay@.subrange(
            p,
            p + needle@.len(),
        ) != needle@ by {
            assert(p < i);
        }
    }
    false
}

/// Maps a declared column type to its value kind by the affinity rules.
pub fn kind_of(decl: &str) -> (k: ValueKind)
    ensures
        k == spec_kind_of(decl@),
{
    let u = upper_chars(decl);
    let kw_int: Vec<char> = vec!['I', 'N', 'T'];
    let kw_bool: Vec<char> = vec!['B', 'O', 'O', 'L'];
    let kw_date: Vec<char> = vec!['D', 'A', 'T', 'E'];
    let kw_time: Vec<char> = vec!['T', 'I', 'M', 'E'];
    let kw_char: Vec<char> = vec!['C', 'H', 'A', 'R'];
    let kw_clob: Vec<char> = vec!['C', 'L', 'O', 'B'];
    let kw_text: Vec<char> = vec!['T', 'E', 'X', 'T'];
    let kw_blob: Vec<char> = vec!['B', 'L', 'O', 'B'];
    let kw_real: Vec<char> = vec!['R', 'E', 'A', 'L'];
    let kw_floa: Vec<char> = vec!['F', 'L', 'O', 'A'];
    let kw_doub: Vec<char> = vec!['D', 'O', 'U', 'B'];
    proof {
        assert(kw_int@ =~= seq!['I', 'N', 'T']);
        assert(kw_bool@ =~= seq!['B', 'O', 'O', 'L']);
        assert(kw_date@ =~= seq!['D', 'A', 'T', 'E']);
        assert(kw_time@ =~= seq!['T', 'I', 'M', 'E']);
        assert(kw_char@ =~= seq!['C', 'H', 'A', 'R']);
        assert(kw_clob@ =~= seq!['C', 'L', 'O', 'B']);
        assert(kw_text@ =~= seq!['T', 'E', 'X', 'T']);
        assert(kw_blob@ =~= seq!['B', 'L', 'O', 'B']);
        assert(kw_real@ =~= seq!['R', 'E', 'A', 'L']);
        assert(kw_floa@ =~= seq!['F', 'L', 'O', 'A']);
        assert(kw_doub@ =~= seq!['D', 'O', 'U', 'B']);
    }
    if contains_sub(&u, &kw_int) {
        ValueKind::Integer
    } else if contains_sub(&u, &kw_bool) {
        ValueKind::Boolean
    } else if contains_sub(&u, &kw_date) || contains_sub(&u, &kw_time) {
        ValueKind::DateTime
    } else if contains_sub(&u, &kw_char) || contains_sub(&u, &kw_clob) || contains_sub(
        &u,
        &kw_text,
    ) {
        ValueKind::Text
    } else if contains_sub(&u, &kw_blob) {
        ValueKind::Blob
    } else if contains_sub(&u, &kw_real) || contains_sub(&u, &kw_floa) || contains_sub(
        &u,
        &kw_doub,
    ) {
        ValueKind::Real
    } else {
        ValueKind::Text
    }
}

} // verus!
