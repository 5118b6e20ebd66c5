//! The verified JSON writer: the exact texts this crate persists for
//! the configuration and the note-order files, together with the
//! decimal reading of an opacity value.

use vstd::prelude::*;
use vstd::string::*;

use crate::models::WindowBounds;
use crate::strutil::{
    chars_to_string,
    dec_rep,
    dec_rep_signed,
    digit_char,
    push_chars,
    push_i64_dec,
    push_u64_dec,
};

verus! {

/// The character for the hex digit `d`.
pub open spec fn hex_digit_char(d: int) -> char {
    if d < 10 {
        digit_char(d)
    } else if d == 10 {
        'a'
    } else if d == 11 {
        'b'
    } else if d == 12 {
        'c'
    } else if d == 13 {
        'd'
    } else {
        if d == 14 {
            'e'
        } else {
            'f'
        }
    }
}

/// How one character is written inside a JSON string: quotes and
/// backslashes escaped, the common control characters by letter, any
/// other control character as `\u00XX`, everything else as itself.
pub open spec fn escape_char(c: char) -> Seq<char> {
    if c == '"' {
        seq!['\\', '"']
    } else if c == '\\' {
        seq!['\\', '\\']
    } else if c == '\n' {
        seq!['\\', 'n']
    } else if c == '\r' {
        seq!['\\', 'r']
    } else if c == '\t' {
        seq!['\\', 't']
    } else if (c as u32) < 32 {
        seq!['\\', 'u', '0', '0', hex_digit_char((c as u32 / 16) as int), hex_digit_char(
            (c as u32 % 16) as int,
        )]
    } else {
        seq![c]
    }
}

/// A text with every character escaped for a JSON string.
pub open spec fn json_escaped(s: Seq<char>) -> Seq<char>
    decreases s.len(),
{
    if s.len() == 0 {
        Seq::empty()
    } else {
        escape_char(s[0]) + json_escaped(s.drop_first())
    }
}

/// Escaping goes prefix by prefix.
proof fn lemma_json_escaped_push(s: Seq<char>, c: char)
    ensures
        json_escaped(s.push(c)) == json_escaped(s) + escape_char(c),
    decreases s.len(),
{
    let p = s.push(c);
    if s.len() == 0 {
        assert(p.drop_first() =~= Seq::<char>::empty());
        assert(p[0] == c);
        assert(json_escaped(p) == escape_char(c) + json_escaped(p.drop_first()));
        assert(json_escaped(p) =~= json_escaped(s) + escape_char(c));
    } else {
        assert(p.drop_first() =~= s.drop_first().push(c));
        lemma_json_escaped_push(s.drop_first(), c);
        assert(escape_char(s[0]) + (json_escaped(s.drop_first()) + escape_char(c))
            =~= json_escaped(s) + escape_char(c));
    }
}

/// A JSON string: the escaped text between quotes.
pub open spec fn json_string(s: Seq<char>) -> Seq<char> {
    seq!['"'] + json_escaped(s) + seq!['"']
}

/// An optional JSON string: `null` when absent.
pub open spec fn json_opt_string(s: Option<Seq<char>>) -> Seq<char> {
    match s {
        Some(x) => json_string(x),
        None => "null"@,
    }
}

/// A JSON boolean.
pub open spec fn json_bool(b: bool) -> Seq<char> {
    if b {
        "true"@
    } else {
        "false"@
    }
}

/// An optional JSON integer: `null` when absent.
pub open spec fn json_opt_i32(v: Option<i32>) -> Seq<char> {
    match v {
        Some(x) => dec_rep_signed(x as int),
        None => "null"@,
    }
}

/// The tail of a JSON string array from element `i` on: a comma and
/// an element each, then the closing bracket.
pub open spec fn json_array_from(items: Seq<Seq<char>>, i: int) -> Seq<char>
    decreases items.len() - i,
{
    if i < 0 || i >= items.len() {
        seq![']']
    } else {
        seq![','] + json_string(items[i]) + json_array_from(items, i + 1)
    }
}

/// A JSON array of strings.
pub open spec fn json_string_array(items: Seq<Seq<char>>) -> Seq<char> {
    if items.len() == 0 {
        "[]"@
    } else {
        seq!['['] + json_string(items[0]) + json_array_from(items, 1)
    }
}

/// Window bounds as one JSON object line, position written as `null`
/// when unset.
pub open spec fn json_bounds(b: WindowBounds) -> Seq<char> {
    "{ \"width\": "@ + dec_rep(b.width as nat) + ", \"height\": "@ + dec_rep(b.height as nat)
        + ", \"x\": "@ + json_opt_i32(b.x) + ", \"y\": "@ + json_opt_i32(b.y) + " }"@
}

/// The fractional digits of an opacity in thousandths: three decimal
/// places with trailing zeros dropped, at least one digit.
pub open spec fn opacity_frac_digits(f: int) -> Seq<char> {
    let d1 = f / 100;
    let d2 = (f / 10) % 10;
    let d3 = f % 10;
    if d3 != 0 {
        seq![digit_char(d1), digit_char(d2), digit_char(d3)]
    } else if d2 != 0 {
        seq![digit_char(d1), digit_char(d2)]
    } else {
        seq![digit_char(d1)]
    }
}

/// An opacity in thousandths as a JSON decimal (`1000` prints as
/// `1.0`, `850` as `0.85`).
pub open spec fn json_opacity(milli: u32) -> Seq<char> {
    dec_rep((milli / 1000) as nat) + seq!['.'] + opacity_frac_digits((milli % 1000) as int)
}

/// Appends a JSON string for `s`.
pub fn push_json_string(out: &mut Vec<char>, s: &str)
    ensures
        final(out)@ == old(out)@ + json_string(s@),
{
    out.push('"');
    let n = s.unicode_len();
    let mut i: usize = 0;
    while i < n
        invariant
            n == s@.len(),
            i <= n,
            out@ == old(out)@.push('"') + json_escaped(s@.take(i as int)),
        decreases n - i,
    {
        let ghost prefix = s@.take(i as int);
        let c = s.get_char(i);
        let code = c as u32;
        if c == '"' {
            out.push('\\');
            out.push('"');
        } else if c == '\\' {
            out.push('\\');
            out.push('\\');
        } else if c == '\n' {
            out.push('\\');
            out.push('n');
        } else if c == '\r' {
            out.push('\\');
            out.push('r');
        } else if c == '\t' {
            out.push('\\');
            out.push('t');
        } else if code < 32 {
            out.push('\\');
            out.push('u');
            out.push('0');
            out.push('0');
            out.push(hex_digit_exec(code / 16));
            out.push(hex_digit_exec(code % 16));
        } else {
            out.push(c);
        }
        proof {
            lemma_json_escaped_push(prefix, c);
            assert(prefix.push(c) =~= s@.take(i + 1));
            assert(out@ =~= old(out)@.push('"') + json_escaped(s@.take(i + 1)));
        }
        i = i + 1;
    }
    out.push('"');
    proof {
        assert(s@.take(n as int) =~= s@);
        assert(out@ =~= old(out)@ + json_string(s@));
    }
}

/// The hex digit character for `d`.
fn hex_digit_exec(d: u32) -> (r: char)
    requires
        d < 16,
    ensures
        r == hex_digit_char(d as int),
{
    if d == 0 {
        '0'
    } else if d == 1 {
        '1'
    } else if d == 2 {
        '2'
    } else if d == 3 {
        '3'
    } else if d == 4 {
        '4'
    } else if d == 5 {
        '5'
    } else if d == 6 {
        '6'
    } else if d == 7 {
        '7'
    } else if d == 8 {
        '8'
    } else if d == 9 {
        '9'
    } else if d == 10 {
        'a'
    } else if d == 11 {
        'b'
    } else if d == 12 {
        'c'
    } else if d == 13 {
        'd'
    } else if d == 14 {
        'e'
    } else {
        'f'
    }
}

/// Appends `null` or a JSON string.
pub fn push_json_opt_string(out: &mut Vec<char>, s: &Option<String>)
    ensures
        final(out)@ == old(out)@ + json_opt_string(match s {
            Some(x) => Some(x@),
            None => None,
        }),
{
    match s {
        Some(x) => push_json_string(out, x.as_str()),
        None => push_chars(out, "null"),
    }
}

/// Appends a JSON array of the given strings.
pub fn push_json_string_array(out: &mut Vec<char>, items: &Vec<String>)
    ensures
        final(out)@ == old(out)@ + json_string_array(crate::store::ids_view(items@)),
{
    let ghost ids = crate::store::ids_view(items@);
    if items.len() == 0 {
        push_chars(out, "[]");
        return ;
    }
    out.push('[');
    push_json_string(out, items[0].as_str());
    let n = items.len();
    let mut i: usize = 1;
    while i < n
        invariant
            n == items@.len(),
            ids == crate::store::ids_view(items@),
            ids.len() == n,
            1 <= i <= n,
            out@ + json_array_from(ids, i as int) == old(out)@ + json_string_array(ids),
        decreases n - i,
    {
        out.push(',');
        push_json_string(out, items[i].as_str());
        proof {
            assert(out@ + json_array_from(ids, i + 1) =~= old(out)@ + json_string_array(
                ids,
            ));
        }
        i = i + 1;
    }
    out.push(']');
    proof {
        assert(json_array_from(ids, n as int) =~= seq![']']);
        assert(out@ =~= old(out)@ + json_string_array(ids));
    }
}

/// Appends `null` or a decimal integer.
pub fn push_json_opt_i32(out: &mut Vec<char>, v: Option<i32>)
    ensures
        final(out)@ == old(out)@ + json_opt_i32(v),
{
    match v {
        Some(x) => push_i64_dec(out, x as i64),
        None => push_chars(out, "null"),
    }
}

/// Appends the JSON object for window bounds.
pub fn push_json_bounds(out: &mut Vec<char>, b: &WindowBounds)
    ensures
        final(out)@ == old(out)@ + json_bounds(*b),
{
    push_chars(out, "{ \"width\": ");
    push_u64_dec(out, b.width as u64);
    push_chars(out, ", \"height\": ");
    push_u64_dec(out, b.height as u64);
    push_chars(out, ", \"x\": ");
    push_json_opt_i32(out, b.x);
    push_chars(out, ", \"y\": ");
    push_json_opt_i32(out, b.y);
    push_chars(out, " }");
    proof {
        assert(out@ =~= old(out)@ + json_bounds(*b));
    }
}

/// Appends the JSON decimal for an opacity in thousandths.
pub fn push_json_opacity(out: &mut Vec<char>, milli: u32)
    ensures
        final(out)@ == old(out)@ + json_opacity(milli),
{
    push_u64_dec(out, (milli / 1000) as u64);
    out.push('.');
    let f = milli % 1000;
    let d1 = f / 100;
    let d2 = (f / 10) % 10;
    let d3 = f % 10;
    if d3 != 0 {
        push_digit_u32(out, d1);
        push_digit_u32(out, d2);
        push_digit_u32(out, d3);
    } else if d2 != 0 {
        push_digit_u32(out, d1);
        push_digit_u32(out, d2);
    } else {
        push_digit_u32(out, d1);
    }
    proof {
        assert(out@ =~= old(out)@ + json_opacity(milli));
    }
}

/// Appends the character for digit `d`.
fn push_digit_u32(out: &mut Vec<char>, d: u32)
    requires
        d < 10,
    ensures
        final(out)@ == old(out)@.push(digit_char(d as int)),
{
    let c = if d == 0 {
        '0'
    } else if d == 1 {
        '1'
    } else if d == 2 {
        '2'
    } else if d == 3 {
        '3'
    } else if d == 4 {
        '4'
    } else if d == 5 {
        '5'
    } else if d == 6 {
        '6'
    } else if d == 7 {
        '7'
    } else if d == 8 {
        '8'
    } else {
        '9'
    };
    out.push(c);
}

} // verus!
