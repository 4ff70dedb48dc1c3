//! The validation and display registry for cell editing: one validate/format
//! pair per value kind, purely functional.
//!
//! Raw user input is text.  Validation converts it to a canonical `Value` for
//! the column's kind, or says exactly why it cannot.  Formatting renders a
//! value back as display text; a real number has no text of its own here (its
//! decimal rendering is the host's floating-point concern), so formatting
//! returns nothing for it.

use vstd::prelude::*;
use crate::value::{DateTime, Value, ValueKind, ValueModel};
use crate::mapper::{
    digit_char, digit_char_exec, digit_val, is_digit, parse_datetime, parse_dt, push_char,
    render_dt, render_datetime, upper_chars, upper_seq,
};

verus! {

/// Why a raw input was rejected for a column.
#[derive(Clone, Copy, PartialEq, Eq, Structural, Debug)]
pub enum ValidationError {
    /// The null literal was given for a column that does not accept null.
    NotNullable,
    /// The input is not an optionally signed run of decimal digits, or it
    /// does not fit a 64-bit signed integer.
    NotAnInteger,
    /// The input is not a well-formed numeric literal.
    NotANumber,
    /// The input is not a recognized boolean literal.
    NotABoolean,
    /// The input is not a well-formed hexadecimal byte string.
    MalformedBlob,
    /// Empty input for a date/time column is rejected rather than kept.
    EmptyDateTime,
    /// The table has no usable row identity and is read-only.
    ReadOnlyTable,
    /// The addressed column does not exist in the table.
    UnknownColumn,
    /// The addressed row is not part of the loaded page.
    UnknownRow,
}

// ---------------------------------------------------------------------------
// Integer literals.
// ---------------------------------------------------------------------------

/// The value of a run of decimal digits, most significant first.
pub open spec fn digits_val(s: Seq<char>) -> int
    decreases s.len(),
{
    if s.len() == 0 {
        0
    } else {
        digits_val(s.drop_last()) * 10 + digit_val(s.last())
    }
}

pub open spec fn all_digits(s: Seq<char>) -> bool {
    forall|j: int| 0 <= j < s.len() ==> is_digit(#[trigger] s[j])
}

/// An optionally signed, non-empty run of decimal digits.
pub open spec fn int_grammar(s: Seq<char>) -> bool {
    if s.len() == 0 {
        false
    } else if s[0] == '-' || s[0] == '+' {
        s.len() >= 2 && all_digits(s.subrange(1, s.len() as int))
    } else {
        all_digits(s)
    }
}

/// The signed value of an integer literal, before any range check.
pub open spec fn int_lit_val(s: Seq<char>) -> int {
    if s[0] == '-' {
        -digits_val(s.subrange(1, s.len() as int))
    } else if s[0] == '+' {
        digits_val(s.subrange(1, s.len() as int))
    } else {
        digits_val(s)
    }
}

/// What integer-kind validation accepts: a well-formed literal whose value
/// fits a 64-bit signed integer, and nothing else.
pub open spec fn parse_int_spec(s: Seq<char>) -> Option<i64> {
    if int_grammar(s) && i64::MIN <= int_lit_val(s) <= i64::MAX {
        Some(int_lit_val(s) as i64)
    } else {
        None
    }
}

proof fn lemma_digits_val_nonneg(s: Seq<char>)
    requires
        all_digits(s),
    ensures
        digits_val(s) >= 0,
    decreases s.len(),
{
    if s.len() > 0 {
        assert(all_digits(s.drop_last()));
        lemma_digits_val_nonneg(s.drop_last());
    }
}

/// More digits never shrink the magnitude.
proof fn lemma_digits_val_mono(s: Seq<char>, i: int)
    requires
        all_digits(s),
        0 <= i <= s.len(),
    ensures
        digits_val(s.subrange(0, i)) <= digits_val(s),
    decreases s.len() - i,
{
    if i == s.len() {
        assert(s.subrange(0, i) =~= s);
    } else {
        let t = s.subrange(0, i + 1);
        assert(t.drop_last() =~= s.subrange(0, i));
        assert(all_digits(t));
        lemma_digits_val_nonneg(t.drop_last());
        assert(digits_val(t.drop_last()) * 10 >= digits_val(t.drop_last()));
        assert(is_digit(s[i]));
        assert(digits_val(s.subrange(0, i)) <= digits_val(t));
        lemma_digits_val_mono(s, i + 1);
    }
}

/// Accumulates the value of `s[from..to]`, or reports that the digits exceed
/// the largest magnitude a 64-bit signed integer can carry.
fn digits_value(s: &Vec<char>, from: usize, to: usize) -> (r: Option<u64>)
    requires
        from <= to <= s@.len(),
        all_digits(s@.subrange(from as int, to as int)),
    ensures
        match r {
            Some(m) => m == digits_val(s@.subrange(from as int, to as int)) && m
                <= 9223372036854775808u64,
            None => digits_val(s@.subrange(from as int, to as int)) > 9223372036854775808u64,
        },
{
    let ghost whole = s@.subrange(from as int, to as int);
    let mut acc: u64 = 0;
    let mut i: usize = from;
    while i < to
        invariant
            from <= i <= to <= s@.len(),
            all_digits(whole),
            whole == s@.subrange(from as int, to as int),
            acc == digits_val(s@.subrange(from as int, i as int)),
            acc <= 9223372036854775808u64,
        decreases to - i,
    {
        proof {
            assert(whole[i - from] == s@[i as int]);
            assert(is_digit(s@[i as int]));
        }
        let c = s[i];
        let d: u64 = (c as u32 - 48) as u64;
        proof {
            assert(s@.subrange(from as int, i as int + 1).drop_last() =~= s@.subrange(
                from as int,
                i as int,
            ));
            assert(s@.subrange(from as int, i as int + 1).last() == s@[i as int]);
        }
        if acc > 922337203685477580u64 || (acc == 922337203685477580u64 && d > 8) {
            proof {
                let pre = s@.subrange(from as int, i as int + 1);
                assert(digits_val(pre) == acc * 10 + d);
                assert(digits_val(pre) > 9223372036854775808u64);
                assert(pre =~= whole.subrange(0, i - from + 1));
                lemma_digits_val_mono(whole, i - from + 1);
            }
            return None;
        }
        acc = acc * 10 + d;
        i = i + 1;
    }
    proof {
        assert(s@.subrange(from as int, to as int) =~= whole);
    }
    Some(acc)
}

/// The characters of a text, one by one.
fn str_chars(s: &str) -> (r: Vec<char>)
    ensures
        r@ == s@,
{
    let n = s.unicode_len();
    let mut out: Vec<char> = Vec::new();
    let mut i: usize = 0;
    while i < n
        invariant
            n == s@.len(),
            i <= n,
            out@.len() == i,
            forall|j: int| 0 <= j < i ==> out@[j] == s@[j],
        decreases n - i,
    {
        out.push(s.get_char(i));
        i = i + 1;
    }
    proof {
        assert(out@ =~= s@);
    }
    out
}

/// Parses an optionally signed decimal integer literal with an exact range
/// check against 64-bit signed bounds.
pub fn parse_integer(raw: &str) -> (r: Option<i64>)
    ensures
        r == parse_int_spec(raw@),
{
    let chars = str_chars(raw);
    let n = chars.len();
    if n == 0 {
        return None;
    }
    let first = chars[0];
    let neg = first == '-';
    let signed = neg || first == '+';
    let start: usize = if signed {
        1
    } else {
        0
    };
    if n == start {
        return None;
    }
    // Scan the digit run; any non-digit rejects the literal.
    let mut i: usize = start;
    while i < n
        invariant
            start <= i <= n,
            0 < n == chars@.len(),
            chars@ == raw@,
            start == 1 || start == 0,
            (start == 1) == (raw@[0] == '-' || raw@[0] == '+'),
            start < n,
            forall|j: int| start <= j < i ==> is_digit(#[trigger] chars@[j]),
        decreases n - i,
    {
        let c = raw.get_char(i);
        let u = c as u32;
        proof {
            assert(u as int == c as int);
        }
        if !(48 <= u && u <= 57) {
            proof {
                assert(!is_digit(raw@[i as int]));
                if start == 1 {
                    assert(raw@[0] == '-' || raw@[0] == '+');
                    assert(raw@.subrange(1, raw@.len() as int)[i - 1] == raw@[i as int]);
                    assert(!is_digit(raw@.subrange(1, raw@.len() as int)[i - 1]));
                    assert(!all_digits(raw@.subrange(1, raw@.len() as int)));
                } else {
                    assert(!all_digits(raw@));
                }
                assert(!int_grammar(raw@));
            }
            return None;
        }
        proof {
            assert(is_digit(chars@[i as int]));
        }
        i = i + 1;
    }
    proof {
        assert forall|j: int| 0 <= j < raw@.subrange(start as int, n as int).len() implies is_digit(
            #[trigger] raw@.subrange(start as int, n as int)[j],
        ) by {
            assert(raw@.subrange(start as int, n as int)[j] == raw@[start + j]);
        }
        if start == 0 {
            assert(raw@.subrange(0, n as int) =~= raw@);
        }
        assert(int_grammar(raw@));
    }
    let mag = match digits_value(&chars, start, n) {
        Some(m) => m,
        None => {
            proof {
                lemma_digits_val_nonneg(raw@.subrange(start as int, n as int));
                if neg {
                    assert(int_lit_val(raw@) < i64::MIN);
                } else {
                    assert(int_lit_val(raw@) > i64::MAX);
                }
            }
            return None;
        },
    };
    if neg {
        if mag == 9223372036854775808u64 {
            Some(i64::MIN)
        } else {
            Some(-(mag as i64))
        }
    } else {
        if mag <= 9223372036854775807u64 {
            Some(mag as i64)
        } else {
            proof {
                assert(int_lit_val(raw@) > i64::MAX);
            }
            None
        }
    }
}

// ---------------------------------------------------------------------------
// Decimal rendering of integers.
// ---------------------------------------------------------------------------

/// The decimal digits of a non-negative number, most significant first.
pub open spec fn dec_str(n: int) -> Seq<char>
    decreases n,
{
    if n < 10 {
        seq![digit_char(n)]
    } else {
        dec_str(n / 10).push(digit_char(n % 10))
    }
}

/// The display text of an integer.
pub open spec fn int_str(i: int) -> Seq<char> {
    if i < 0 {
        seq!['-'] + dec_str(-i)
    } else {
        dec_str(i)
    }
}

fn push_dec(s: &mut String, n: u64)
    ensures
        final(s)@ == old(s)@ + dec_str(n as int),
    decreases n,
{
    if n < 10 {
        let c = digit_char_exec(n as u32);
        push_char(s, c);
        proof {
            assert(s@ =~= old(s)@ + dec_str(n as int));
        }
    } else {
        push_dec(s, n / 10);
        let c = digit_char_exec((n % 10) as u32);
        push_char(s, c);
        proof {
            assert(s@ =~= old(s)@ + dec_str(n as int));
        }
    }
}

/// The decimal display text of a 64-bit signed integer.
pub fn format_integer(i: i64) -> (r: String)
    ensures
        r@ == int_str(i as int),
{
    let mut s = String::new();
    if i < 0 {
        push_char(&mut s, '-');
        let mag: u64 = if i == i64::MIN {
            9223372036854775808u64
        } else {
            (-i) as u64
        };
        push_dec(&mut s, mag);
        proof {
            assert(s@ =~= int_str(i as int));
        }
    } else {
        push_dec(&mut s, i as u64);
    }
    s
}

// ---------------------------------------------------------------------------
// Boolean and null literals.
// ---------------------------------------------------------------------------

/// The recognized boolean literals, matched without regard to case:
/// `1`/`true` and `0`/`false`.
pub open spec fn bool_lit(s: Seq<char>) -> Option<bool> {
    let u = upper_seq(s);
    if u == seq!['1'] || u == seq!['T', 'R', 'U', 'E'] {
        Some(true)
    } else if u == seq!['0'] || u == seq!['F', 'A', 'L', 'S', 'E'] {
        Some(false)
    } else {
        None
    }
}

/// The null literal, matched without regard to case.
pub open spec fn is_null_literal(s: Seq<char>) -> bool {
    upper_seq(s) == seq!['N', 'U', 'L', 'L']
}

fn chars_match(u: &Vec<char>, lit: &Vec<char>) -> (r: bool)
    ensures
        r == (u@ == lit@),
{
    if u.len() != lit.len() {
        return false;
    }
    let mut i: usize = 0;
    while i < u.len()
        invariant
            u@.len() == lit@.len(),
            i <= u@.len(),
            forall|j: int| 0 <= j < i ==> u@[j] == lit@[j],
        decreases u@.len() - i,
    {
        if u[i] != lit[i] {
            return false;
        }
        i = i + 1;
    }
    proof {
        assert(u@ =~= lit@);
    }
    true
}

// ---------------------------------------------------------------------------
// Hexadecimal blobs.
// ---------------------------------------------------------------------------

pub open spec fn is_hex_digit(c: char) -> bool {
    48 <= c as int <= 57 || 65 <= c as int <= 70 || 97 <= c as int <= 102
}

pub open spec fn hex_val(c: char) -> int {
    if 48 <= c as int <= 57 {
        c as int - 48
    } else if 65 <= c as int <= 70 {
        c as int - 55
    } else {
        c as int - 87
    }
}

pub open spec fn hex_grammar(s: Seq<char>) -> bool {
    s.len() % 2 == 0 && forall|j: int| 0 <= j < s.len() ==> is_hex_digit(#[trigger] s[j])
}

/// The bytes a well-formed hexadecimal string denotes.
pub open spec fn hex_bytes(s: Seq<char>) -> Seq<u8> {
    Seq::new((s.len() / 2) as nat, |i: int| (hex_val(s[2 * i]) * 16 + hex_val(s[2 * i + 1])) as u8)
}

fn read_hex_digit(c: char) -> (r: Option<u8>)
    ensures
        match r {
            Some(d) => is_hex_digit(c) && d == hex_val(c),
            None => !is_hex_digit(c),
        },
{
    let u = c as u32;
    if 48 <= u && u <= 57 {
        Some((u - 48) as u8)
    } else if 65 <= u && u <= 70 {
        Some((u - 55) as u8)
    } else if 97 <= u && u <= 102 {
        Some((u - 87) as u8)
    } else {
        None
    }
}

/// Decodes a hexadecimal byte string; `None` on any malformed encoding.
pub fn decode_hex(raw: &str) -> (r: Option<Vec<u8>>)
    ensures
        match r {
            Some(b) => hex_grammar(raw@) && b@ == hex_bytes(raw@),
            None => !hex_grammar(raw@),
        },
{
    let n = raw.unicode_len();
    if n % 2 != 0 {
        return None;
    }
    let mut out: Vec<u8> = Vec::new();
    let mut i: usize = 0;
    while i < n
        invariant
            n == raw@.len(),
            n % 2 == 0,
            i <= n,
            i % 2 == 0,
            out@.len() == i / 2,
            forall|j: int| 0 <= j < i ==> is_hex_digit(#[trigger] raw@[j]),
            forall|p: int| 0 <= p < i / 2 ==> out@[p] == (hex_val(raw@[2 * p]) * 16 + hex_val(
                raw@[2 * p + 1],
            )) as u8,
        decreases n - i,
    {
        let hi = match read_hex_digit(raw.get_char(i)) {
            Some(d) => d,
            None => {
                return None;
            },
        };
        let lo = match read_hex_digit(raw.get_char(i + 1)) {
            Some(d) => d,
            None => {
                return None;
            },
        };
        out.push(hi * 16 + lo);
        i = i + 2;
    }
    proof {
        assert(hex_grammar(raw@));
        assert(out@ =~= hex_bytes(raw@));
    }
    Some(out)
}

/// The hexadecimal display text of a byte string, two lower-case digits per
/// byte.
pub open spec fn hex_char(d: int) -> char {
    if d < 10 {
        digit_char(d)
    } else if d == 10 {
        'a'
    } else if d == 11 {
        'b'
    } else if d == 12 {
        'c'
    } else if d == 13 {
        'd'
    } else if d == 14 {
        'e'
    } else {
        'f'
    }
}

pub open spec fn hex_str(b: Seq<u8>) -> Seq<char> {
    Seq::new(
        (b.len() * 2) as nat,
        |i: int|
            if i % 2 == 0 {
                hex_char(b[i / 2] as int / 16)
            } else {
                hex_char(b[i / 2] as int % 16)
            },
    )
}

fn hex_char_exec(d: u8) -> (c: char)
    requires
        d < 16,
    ensures
        c == hex_char(d as int),
{
    if d < 10 {
        digit_char_exec(d as u32)
    } else if d == 10 {
        'a'
    } else if d == 11 {
        'b'
    } else if d == 12 {
        'c'
    } else if d == 13 {
        'd'
    } else if d == 14 {
        'e'
    } else {
        'f'
    }
}

/// Renders bytes as hexadecimal text.
pub fn encode_hex(b: &Vec<u8>) -> (r: String)
    ensures
        r@ == hex_str(b@),
{
    let mut s = String::new();
    let mut i: usize = 0;
    while i < b.len()
        invariant
            i <= b@.len(),
            s@.len() == 2 * i,
            forall|j: int| 0 <= j < 2 * i ==> s@[j] == hex_str(b@)[j],
        decreases b@.len() - i,
    {
        let hi = hex_char_exec(b[i] / 16);
        let lo = hex_char_exec(b[i] % 16);
        push_char(&mut s, hi);
        push_char(&mut s, lo);
        i = i + 1;
    }
    proof {
        assert(s@ =~= hex_str(b@));
    }
    s
}

// ---------------------------------------------------------------------------
// Real literals, through the engine's JSON number grammar.
// ---------------------------------------------------------------------------

/// The IEEE-754 bit pattern a numeric literal denotes, or `None` where the
/// text is not a well-formed literal.  The result is a function of the
/// characters alone.
pub uninterp spec fn real_bits_of(s: Seq<char>) -> Option<u64>;

/// Relies on `serde_json::Number`'s `FromStr` and `as_f64`: parsing a numeric
/// literal and taking its 64-bit encoding depend on the characters alone, and
/// an empty string is never a well-formed literal.
#[verifier::external_body]
fn parse_real_bits(s: &str) -> (r: Option<u64>)
    ensures
        r == real_bits_of(s@),
        s@.len() == 0 ==> r is None,
{
    match s.parse::<serde_json::Number>() {
        Ok(n) => match n.as_f64() {
            Some(x) => Some(x.to_bits()),
            None => None,
        },
        Err(_) => None,
    }
}

// ---------------------------------------------------------------------------
// The registry: validate and format.
// ---------------------------------------------------------------------------

/// What validation yields for each kind and raw input.
pub open spec fn spec_validate(k: ValueKind, nullable: bool, raw: Seq<char>) -> Result<
    ValueModel,
    ValidationError,
> {
    if is_null_literal(raw) {
        if nullable {
            Ok(ValueModel::Null)
        } else {
            Err(ValidationError::NotNullable)
        }
    } else {
        match k {
            ValueKind::Integer => match parse_int_spec(raw) {
                Some(i) => Ok(ValueModel::Integer(i as int)),
                None => Err(ValidationError::NotAnInteger),
            },
            ValueKind::Real => match real_bits_of(raw) {
                Some(bits) => Ok(ValueModel::Real(bits)),
                None => Err(ValidationError::NotANumber),
            },
            ValueKind::Text => Ok(ValueModel::Text(raw)),
            ValueKind::Blob => {
                if hex_grammar(raw) {
                    Ok(ValueModel::Blob(hex_bytes(raw)))
                } else {
                    Err(ValidationError::MalformedBlob)
                }
            },
            ValueKind::Boolean => match bool_lit(raw) {
                Some(b) => Ok(ValueModel::Boolean(b)),
                None => Err(ValidationError::NotABoolean),
            },
            ValueKind::DateTime => {
                if raw.len() == 0 {
                    Err(ValidationError::EmptyDateTime)
                } else {
                    match parse_dt(raw) {
                        // The canonical format becomes a timestamp; any other
                        // non-empty text is kept as text rather than lost.
                        Some(dt) => Ok(ValueModel::DateTime(dt)),
                        None => Ok(ValueModel::Text(raw)),
                    }
                }
            },
        }
    }
}

/// Validates raw user input against a column's kind and nullability.
pub fn validate(k: ValueKind, nullable: bool, raw: &str) -> (r: Result<Value, ValidationError>)
    ensures
        match r {
            Ok(v) => spec_validate(k, nullable, raw@) == Ok::<ValueModel, ValidationError>(v@),
            Err(e) => spec_validate(k, nullable, raw@) == Err::<ValueModel, ValidationError>(e),
        },
{
    let u = upper_chars(raw);
    let null_lit: Vec<char> = vec!['N', 'U', 'L', 'L'];
    proof {
        assert(null_lit@ =~= seq!['N', 'U', 'L', 'L']);
    }
    if chars_match(&u, &null_lit) {
        if nullable {
            return Ok(Value::Null);
        } else {
            return Err(ValidationError::NotNullable);
        }
    }
    match k {
        ValueKind::Integer => match parse_integer(raw) {
            Some(i) => Ok(Value::Integer(i)),
            None => Err(ValidationError::NotAnInteger),
        },
        ValueKind::Real => match parse_real_bits(raw) {
            Some(bits) => Ok(Value::Real(bits)),
            None => Err(ValidationError::NotANumber),
        },
        ValueKind::Text => Ok(Value::Text(raw.to_owned())),
        ValueKind::Blob => match decode_hex(raw) {
            Some(b) => Ok(Value::Blob(b)),
            None => Err(ValidationError::MalformedBlob),
        },
        ValueKind::Boolean => {
            let one: Vec<char> = vec!['1'];
            let tru: Vec<char> = vec!['T', 'R', 'U', 'E'];
            let zero: Vec<char> = vec!['0'];
            let fal: Vec<char> = vec!['F', 'A', 'L', 'S', 'E'];
            proof {
                assert(one@ =~= seq!['1']);
                assert(tru@ =~= seq!['T', 'R', 'U', 'E']);
                assert(zero@ =~= seq!['0']);
                assert(fal@ =~= seq!['F', 'A', 'L', 'S', 'E']);
            }
            if chars_match(&u, &one) || chars_match(&u, &tru) {
                Ok(Value::Boolean(true))
            } else if chars_match(&u, &zero) || chars_match(&u, &fal) {
                Ok(Value::Boolean(false))
            } else {
                Err(ValidationError::NotABoolean)
            }
        },
        ValueKind::DateTime => {
            if raw.unicode_len() == 0 {
                Err(ValidationError::EmptyDateTime)
            } else {
                match parse_datetime(raw) {
                    Some(dt) => Ok(Value::DateTime(dt)),
                    None => Ok(Value::Text(raw.to_owned())),
                }
            }
        },
    }
}

/// What formatting yields for each value: display text, except for a real
/// number, whose decimal rendering belongs to the host's floating point.
pub open spec fn spec_format(v: ValueModel) -> Option<Seq<char>> {
    match v {
        ValueModel::Null => Some(seq!['N', 'U', 'L', 'L']),
        ValueModel::Integer(i) => Some(int_str(i)),
        ValueModel::Real(_) => None,
        ValueModel::Text(s) => Some(s),
        ValueModel::Blob(b) => Some(hex_str(b)),
        ValueModel::Boolean(b) => Some(
            if b {
                seq!['t', 'r', 'u', 'e']
            } else {
                seq!['f', 'a', 'l', 's', 'e']
            },
        ),
        ValueModel::DateTime(dt) => Some(render_dt(dt)),
    }
}

/// Display text of a value; a real number's rendering is left to the host.
pub fn format_value(v: &Value) -> (r: Option<String>)
    requires
        crate::value::wf_value(v@),
    ensures
        match r {
            Some(s) => spec_format(v@) == Some(s@),
            None => spec_format(v@) is None,
        },
{
    match v {
        Value::Null => {
            let mut s = String::new();
            push_char(&mut s, 'N');
            push_char(&mut s, 'U');
            push_char(&mut s, 'L');
            push_char(&mut s, 'L');
            proof {
                assert(s@ =~= seq!['N', 'U', 'L', 'L']);
            }
            Some(s)
        },
        Value::Integer(i) => Some(format_integer(*i)),
        Value::Real(_) => None,
        Value::Text(s) => Some(s.clone()),
        Value::Blob(b) => Some(encode_hex(b)),
        Value::Boolean(b) => {
            let mut s = String::new();
            if *b {
                push_char(&mut s, 't');
                push_char(&mut s, 'r');
                push_char(&mut s, 'u');
                push_char(&mut s, 'e');
                proof {
                    assert(s@ =~= seq!['t', 'r', 'u', 'e']);
                }
            } else {
                push_char(&mut s, 'f');
                push_char(&mut s, 'a');
                push_char(&mut s, 'l');
                push_char(&mut s, 's');
                push_char(&mut s, 'e');
                proof {
                    assert(s@ =~= seq!['f', 'a', 'l', 's', 'e']);
                }
            }
            Some(s)
        },
        Value::DateTime(dt) => Some(render_datetime(dt)),
    }
}

} // verus!
