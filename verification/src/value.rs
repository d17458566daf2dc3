//! The scalar values a record's fields may hold, and their rendering as the
//! text that replaces a placeholder.

use vstd::prelude::*;
use vstd::string::StringExecFns;

verus! {

/// A field's serialized value, the flat tagged union the formatter reads.
///
/// A `Str` value is inserted verbatim, without quoting. The other variants
/// render as canonical JSON text: `Null` as `null`, booleans as `true` or
/// `false`, integers as decimal literals. `Raw` carries text that is already
/// the canonical rendering of a value outside these scalars (an array, an
/// object, or a non-integral number), as produced by the caller's
/// serialization layer.
pub enum Value {
    /// The JSON null value.
    Null,
    /// A boolean field.
    Bool(bool),
    /// A non-negative integer field.
    UInt(u64),
    /// A signed integer field.
    Int(i64),
    /// A string field; its content is inserted without quoting.
    Str(String),
    /// Pre-rendered canonical text of any other serialized value.
    Raw(String),
}

/// The decimal digit character for `d`.
pub open spec fn digit_char(d: nat) -> char
    recommends
        d < 10,
{
    if d == 0 {
        '0'
    } else if d == 1 {
        '1'
    } else if d == 2 {
        '2'
    } else if d == 3 {
        '3'
    } else if d == 4 {
        '4'
    } else if d == 5 {
        '5'
    } else if d == 6 {
        '6'
    } else if d == 7 {
        '7'
    } else if d == 8 {
        '8'
    } else {
        '9'
    }
}

/// Whether `c` is a decimal digit character.
pub open spec fn is_digit(c: char) -> bool {
    c == '0' || c == '1' || c == '2' || c == '3' || c == '4' || c == '5' || c == '6' || c == '7'
        || c == '8' || c == '9'
}

/// The numeric value of a digit character.
pub open spec fn digit_val(c: char) -> nat
    recommends
        is_digit(c),
{
    if c == '0' {
        0
    } else if c == '1' {
        1
    } else if c == '2' {
        2
    } else if c == '3' {
        3
    } else if c == '4' {
        4
    } else if c == '5' {
        5
    } else if c == '6' {
        6
    } else if c == '7' {
        7
    } else if c == '8' {
        8
    } else {
        9
    }
}

/// The canonical decimal representation of `n`: most significant digit
/// first, no sign, no leading zero except for `0` itself.
pub open spec fn dec_rep(n: nat) -> Seq<char>
    decreases n,
{
    if n < 10 {
        seq![digit_char(n)]
    } else {
        dec_rep(n / 10).push(digit_char(n % 10))
    }
}

/// The number a sequence of digit characters denotes.
pub open spec fn dec_value(s: Seq<char>) -> nat
    decreases s.len(),
{
    if s.len() == 0 {
        0
    } else {
        dec_value(s.drop_last()) * 10 + digit_val(s.last())
    }
}

/// The text a value renders to when substituted for its placeholder.
pub open spec fn rendered_of(v: Value) -> Seq<char> {
    match v {
        Value::Null => "null"@,
        Value::Bool(b) => if b {
            "true"@
        } else {
            "false"@
        },
        Value::UInt(n) => dec_rep(n as nat),
        Value::Int(i) => if i >= 0 {
            dec_rep(i as nat)
        } else {
            seq!['-'] + dec_rep((-(i as int)) as nat)
        },
        Value::Str(s) => s@,
        Value::Raw(s) => s@,
    }
}

/// The one-character string for the digit `d`.
fn digit_str(d: u64) -> (s: &'static str)
    requires
        d < 10,
    ensures
        s@ == seq![digit_char(d as nat)],
{
    let s: &'static str = match d {
        0 => "0",
        1 => "1",
        2 => "2",
        3 => "3",
        4 => "4",
        5 => "5",
        6 => "6",
        7 => "7",
        8 => "8",
        _ => "9",
    };
    proof {
        reveal_strlit("0");
        reveal_strlit("1");
        reveal_strlit("2");
        reveal_strlit("3");
        reveal_strlit("4");
        reveal_strlit("5");
        reveal_strlit("6");
        reveal_strlit("7");
        reveal_strlit("8");
        reveal_strlit("9");
        assert(s@ =~= seq![digit_char(d as nat)]);
    }
    s
}

/// Appends the decimal representation of `n` to `out`.
fn push_dec(n: u64, out: &mut String)
    ensures
        final (out)@ == old(out)@ + dec_rep(n as nat),
    decreases n,
{
    if n >= 10 {
        proof {
            assert(n / 10 < n) by (nonlinear_arith)
                requires
                    n >= 10,
            ;
        }
        push_dec(n / 10, out);
        out.append(digit_str(n % 10));
        proof {
            assert(final (out)@ =~= old(out)@ + dec_rep(n as nat));
        }
    } else {
        out.append(digit_str(n));
        proof {
            assert(final (out)@ =~= old(out)@ + dec_rep(n as nat));
        }
    }
}

/// Renders `v` to the text that replaces its placeholder.
pub fn render(v: &Value) -> (r: String)
    ensures
        r@ == rendered_of(*v),
{
    match v {
        Value::Null => String::from_str("null"),
        Value::Bool(b) => if *b {
            String::from_str("true")
        } else {
            String::from_str("false")
        },
        Value::UInt(n) => {
            let mut s = String::new();
            push_dec(*n, &mut s);
            proof {
                assert(s@ =~= dec_rep(*n as nat));
            }
            s
        },
        Value::Int(i) => {
            let mut s = String::new();
            if *i >= 0 {
                push_dec(*i as u64, &mut s);
                proof {
                    assert(s@ =~= dec_rep(*i as nat));
                }
            } else {
                s.append("-");
                let m: i128 = -(*i as i128);
                let mag: u64 = m as u64;
                proof {
                    assert(mag as nat == (-(*i as int)) as nat);
                }
                push_dec(mag, &mut s);
                proof {
                    reveal_strlit("-");
                    assert("-"@ =~= seq!['-']);
                    assert(s@ =~= seq!['-'] + dec_rep((-(*i as int)) as nat));
                }
            }
            s
        },
        Value::Str(s) => s.clone(),
        Value::Raw(s) => s.clone(),
    }
}

} // verus!
