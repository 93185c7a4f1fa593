//! Rendering of JSON values and validation errors as text.
use vstd::prelude::*;
use vstd::string::*;
use crate::json::{Json, JsonModel, Number, lemma_array_view, lemma_object_view};
use crate::resolver::push_char;

verus! {

/// The decimal digit for `d < 10`.
pub open spec fn digit_char(d: nat) -> char {
    if d == 0 { '0' } else if d == 1 { '1' } else if d == 2 { '2' } else if d == 3 { '3' } else if d == 4 { '4' }
    else if d == 5 { '5' } else if d == 6 { '6' } else if d == 7 { '7' } else if d == 8 { '8' } else { '9' }
}

/// The decimal digits of `n`.
pub open spec fn decimal(n: nat) -> Seq<char>
    decreases n,
{
    if n < 10 {
        seq![digit_char(n)]
    } else {
        decimal(n / 10).push(digit_char(n % 10))
    }
}

/// A number as text; a number held as `mantissa * 2^exponent` is written in that form.
pub open spec fn number_text(n: Number) -> Seq<char> {
    match n {
        Number::Unsigned(u) => decimal(u as nat),
        Number::Signed(s) => if s < 0 { seq!['-'] + decimal((-s) as nat) } else { decimal(s as nat) },
        Number::Float { mantissa, exponent } => (if mantissa < 0 { seq!['-'] + decimal((-mantissa) as nat) } else {
            decimal(mantissa as nat)
        }) + "*2^"@ + (if exponent < 0 { seq!['-'] + decimal((-exponent) as nat) } else { decimal(exponent as nat) }),
    }
}

/// One character of a string literal, escaped as JSON requires.
pub open spec fn escape_char(c: char) -> Seq<char> {
    if c == '"' {
        seq!['\\', '"']
    } else if c == '\\' {
        seq!['\\', '\\']
    } else if c == '\n' {
        seq!['\\', 'n']
    } else if c == '\r' {
        seq!['\\', 'r']
    } else if c == '\t' {
        seq!['\\', 't']
    } else {
        seq![c]
    }
}

/// The characters `s[i..]`, escaped.
pub open spec fn escaped_from(s: Seq<char>, i: nat) -> Seq<char>
    decreases s.len() - i,
{
    if i >= s.len() {
        Seq::empty()
    } else {
        escape_char(s[i as int]) + escaped_from(s, i + 1)
    }
}

/// A string literal.
pub open spec fn quoted(s: Seq<char>) -> Seq<char> {
    seq!['"'] + escaped_from(s, 0) + seq!['"']
}

/// The compact JSON text of a value.
pub open spec fn json_text(j: JsonModel) -> Seq<char>
    decreases j, 1nat, 0nat,
{
    match j {
        JsonModel::Null => "null"@,
        JsonModel::Bool(b) => if b { "true"@ } else { "false"@ },
        JsonModel::Number(n) => number_text(n),
        JsonModel::String(s) => quoted(s),
        JsonModel::Array(items) => seq!['['] + items_text(j, 0) + seq![']'],
        JsonModel::Object(es) => seq!['{'] + members_text(j, 0) + seq!['}'],
    }
}

/// The items `i..` of an array, comma-separated.
pub open spec fn items_text(j: JsonModel, i: nat) -> Seq<char>
    decreases j, 0nat, (match j { JsonModel::Array(items) => items.len(), _ => 0 }) - i,
{
    match j {
        JsonModel::Array(items) => if i >= items.len() {
            Seq::empty()
        } else {
            (if i > 0 { seq![','] } else { Seq::empty() }) + json_text(items[i as int]) + items_text(j, i + 1)
        },
        _ => Seq::empty(),
    }
}

/// The members `i..` of an object, comma-separated.
pub open spec fn members_text(j: JsonModel, i: nat) -> Seq<char>
    decreases j, 0nat, (match j { JsonModel::Object(es) => es.len(), _ => 0 }) - i,
{
    match j {
        JsonModel::Object(es) => if i >= es.len() {
            Seq::empty()
        } else {
            (if i > 0 { seq![','] } else { Seq::empty() }) + quoted(es[i as int].0) + seq![':'] + json_text(es[i as int].1)
                + members_text(j, i + 1)
        },
        _ => Seq::empty(),
    }
}

/// Appends the characters of `s`.
pub fn push_str(out: &mut String, s: &str)
    ensures
        final(out)@ == old(out)@ + s@,
{
    let n = s.unicode_len();
    let mut i: usize = 0;
    while i < n
        invariant
            i <= n,
            n == s@.len(),
            out@ == old(out)@ + s@.subrange(0, i as int),
        decreases n - i,
    {
        push_char(out, s.get_char(i));
        assert(s@.subrange(0, i + 1) =~= s@.subrange(0, i as int).push(s@[i as int]));
        i = i + 1;
    }
    assert(s@.subrange(0, n as int) =~= s@);
}

/// Appends the decimal digits of `n`.
pub fn push_decimal(out: &mut String, n: u64)
    ensures
        final(out)@ == old(out)@ + decimal(n as nat),
    decreases n,
{
    if n >= 10 {
        push_decimal(out, n / 10);
    }
    let d = n % 10;
    let c = if d == 0 { '0' } else if d == 1 { '1' } else if d == 2 { '2' } else if d == 3 { '3' } else if d == 4 { '4' }
        else if d == 5 { '5' } else if d == 6 { '6' } else if d == 7 { '7' } else if d == 8 { '8' } else { '9' };
    push_char(out, c);
    assert(out@ =~= old(out)@ + decimal(n as nat));
}

/// Appends a signed integer: a minus sign for a negative one, then its digits.
fn push_signed(out: &mut String, v: i64)
    ensures
        final(out)@ == old(out)@ + (if v < 0 { seq!['-'] + decimal((-v) as nat) } else { decimal(v as nat) }),
{
    if v < 0 {
        push_char(out, '-');
        let m: u64 = if v == i64::MIN { 0x8000_0000_0000_0000u64 } else { (-v) as u64 };
        push_decimal(out, m);
        assert(out@ =~= old(out)@ + (seq!['-'] + decimal((-v) as nat)));
    } else {
        push_decimal(out, v as u64);
    }
}

/// Appends a number as text.
pub fn push_number(out: &mut String, n: Number)
    ensures
        final(out)@ == old(out)@ + number_text(n),
{
    proof {
        reveal_strlit("*2^");
    }
    match n {
        Number::Unsigned(u) => push_decimal(out, u),
        Number::Signed(v) => push_signed(out, v),
        Number::Float { mantissa, exponent } => {
            let ghost start = out@;
            push_signed(out, mantissa);
            let ghost mid = out@;
            push_str(out, "*2^");
            push_signed(out, exponent as i64);
            assert(out@ =~= start + number_text(n));
        },
    }
}

/// Appends `s` as a string literal.
pub fn push_quoted(out: &mut String, s: &str)
    ensures
        final(out)@ == old(out)@ + quoted(s@),
{
    let ghost start = out@;
    push_char(out, '"');
    let n = s.unicode_len();
    let mut i: usize = 0;
    while i < n
        invariant
            i <= n,
            n == s@.len(),
            out@ + escaped_from(s@, i as nat) == start + seq!['"'] + escaped_from(s@, 0),
        decreases n - i,
    {
        let c = s.get_char(i);
        let ghost before = out@;
        if c == '"' {
            push_char(out, '\\');
            push_char(out, '"');
        } else if c == '\\' {
            push_char(out, '\\');
            push_char(out, '\\');
        } else if c == '\n' {
            push_char(out, '\\');
            push_char(out, 'n');
        } else if c == '\r' {
            push_char(out, '\\');
            push_char(out, 'r');
        } else if c == '\t' {
            push_char(out, '\\');
            push_char(out, 't');
        } else {
            push_char(out, c);
        }
        assert(out@ =~= before + escape_char(c));
        assert(before + escaped_from(s@, i as nat) =~= out@ + escaped_from(s@, (i + 1) as nat));
        i = i + 1;
    }
    push_char(out, '"');
    assert(out@ =~= start + quoted(s@));
}

/// Appends the compact JSON text of `j`.
pub fn push_json(out: &mut String, j: &Json)
    ensures
        final(out)@ == old(out)@ + json_text(j@),
    decreases j@,
{
    proof {
        reveal_strlit("null");
        reveal_strlit("true");
        reveal_strlit("false");
    }
    match j {
        Json::Null => push_str(out, "null"),
        Json::Bool(b) => if *b { push_str(out, "true") } else { push_str(out, "false") },
        Json::Number(n) => push_number(out, *n),
        Json::String(s) => push_quoted(out, s.as_str()),
        Json::Array(items) => {
            proof {
                lemma_array_view(j);
            }
            let ghost start = out@;
            let ghost m = j@;
            push_char(out, '[');
            let mut i: usize = 0;
            while i < items.len()
                invariant
                    i <= items@.len(),
                    m == j@,
                    m is Array,
                    m->Array_0.len() == items@.len(),
                    forall|k: int| 0 <= k < items@.len() ==> #[trigger] m->Array_0[k] == items@[k]@,
                    out@ + items_text(m, i as nat) == start + seq!['['] + items_text(m, 0),
                decreases items.len() - i,
            {
                let ghost before = out@;
                if i > 0 {
                    push_char(out, ',');
                }
                let ghost after_sep = out@;
                assert(m->Array_0[i as int] == items@[i as int]@);
                proof {
                    assert(decreases_to!(m => m->Array_0));
                    assert(decreases_to!(m->Array_0 => m->Array_0[i as int]));
                }
                push_json(out, &items[i]);
                assert(before + items_text(m, i as nat) =~= out@ + items_text(m, (i + 1) as nat));
                i = i + 1;
            }
            push_char(out, ']');
            assert(out@ =~= start + json_text(m));
        },
        Json::Object(es) => {
            proof {
                lemma_object_view(j);
            }
            let ghost start = out@;
            let ghost m = j@;
            push_char(out, '{');
            let mut i: usize = 0;
            while i < es.len()
                invariant
                    i <= es@.len(),
                    m == j@,
                    m is Object,
                    m->Object_0.len() == es@.len(),
                    forall|k: int| 0 <= k < es@.len() ==> #[trigger] m->Object_0[k] == (es@[k].0@, es@[k].1@),
                    out@ + members_text(m, i as nat) == start + seq!['{'] + members_text(m, 0),
                decreases es.len() - i,
            {
                let ghost before = out@;
                if i > 0 {
                    push_char(out, ',');
                }
                assert(m->Object_0[i as int] == (es@[i as int].0@, es@[i as int].1@));
                push_quoted(out, es[i].0.as_str());
                push_char(out, ':');
                proof {
                    assert(decreases_to!(m => m->Object_0));
                    assert(decreases_to!(m->Object_0 => m->Object_0[i as int]));
                    assert(decreases_to!(m->Object_0[i as int] => m->Object_0[i as int].1));
                }
                push_json(out, &es[i].1);
                assert(before + members_text(m, i as nat) =~= out@ + members_text(m, (i + 1) as nat));
                i = i + 1;
            }
            push_char(out, '}');
            assert(out@ =~= start + json_text(m));
        },
    }
}

/// The compact JSON text of `j`.
pub fn to_json_string(j: &Json) -> (r: String)
    ensures
        r@ == json_text(j@),
{
    let mut out = String::new();
    push_json(&mut out, j);
    assert(out@ =~= json_text(j@));
    out
}

} // verus!
