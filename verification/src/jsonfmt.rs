//! Rendering of the service's JSON response bodies. The structured verdict
//! and the coverage object are framed here character by character, with the
//! same string escaping that JSON requires: quote, backslash and control
//! characters are escaped, everything else passes through.
use vstd::prelude::*;

verus! {

use vstd::std_specs::iter::IteratorSpec;
use vstd::string::StringExecFns;

use crate::decimal::int_seq;
use crate::decimal::push_i8;
use crate::text::push_char;

/// The character for one hexadecimal digit, lower case.
pub open spec fn hex_digit(d: int) -> char
    recommends
        0 <= d < 16,
{
    if d < 10 {
        ((48 + d) as u8) as char
    } else {
        ((87 + d) as u8) as char
    }
}

/// How one character appears inside a JSON string literal.
pub open spec fn escape_char(c: char) -> Seq<char> {
    let v = c as u32;
    if v == 34 {
        seq!['\\', '"']
    } else if v == 92 {
        seq!['\\', '\\']
    } else if v == 8 {
        seq!['\\', 'b']
    } else if v == 9 {
        seq!['\\', 't']
    } else if v == 10 {
        seq!['\\', 'n']
    } else if v == 12 {
        seq!['\\', 'f']
    } else if v == 13 {
        seq!['\\', 'r']
    } else if v < 32 {
        seq!['\\', 'u', '0', '0', hex_digit(v as int / 16), hex_digit(v as int % 16)]
    } else {
        seq![c]
    }
}

/// How a whole text appears inside a JSON string literal.
pub open spec fn json_escaped(s: Seq<char>) -> Seq<char>
    decreases s.len(),
{
    if s.len() == 0 {
        Seq::empty()
    } else {
        escape_char(s[0]) + json_escaped(s.drop_first())
    }
}

/// Escaping distributes over concatenation.
pub proof fn lemma_json_escaped_concat(a: Seq<char>, b: Seq<char>)
    ensures
        json_escaped(a + b) == json_escaped(a) + json_escaped(b),
    decreases a.len(),
{
    if a.len() == 0 {
        assert(a + b =~= b);
        assert(json_escaped(a) + json_escaped(b) =~= json_escaped(b));
    } else {
        assert((a + b).drop_first() =~= a.drop_first() + b);
        lemma_json_escaped_concat(a.drop_first(), b);
        assert(json_escaped(a + b) =~= json_escaped(a) + json_escaped(b));
    }
}

/// Appends the hexadecimal digit character for `d`.
fn push_hex(out: &mut String, d: u32)
    requires
        d < 16,
    ensures
        final(out)@ == old(out)@.push(hex_digit(d as int)),
{
    if d < 10 {
        push_char(out, (48 + d as u8) as char);
    } else {
        push_char(out, (87 + d as u8) as char);
    }
}

/// Appends one character in its JSON-escaped form.
fn push_escaped(out: &mut String, c: char)
    ensures
        final(out)@ == old(out)@ + escape_char(c),
{
    let v = c as u32;
    if v == 34 {
        push_char(out, '\\');
        push_char(out, '"');
    } else if v == 92 {
        push_char(out, '\\');
        push_char(out, '\\');
    } else if v == 8 {
        push_char(out, '\\');
        push_char(out, 'b');
    } else if v == 9 {
        push_char(out, '\\');
        push_char(out, 't');
    } else if v == 10 {
        push_char(out, '\\');
        push_char(out, 'n');
    } else if v == 12 {
        push_char(out, '\\');
        push_char(out, 'f');
    } else if v == 13 {
        push_char(out, '\\');
        push_char(out, 'r');
    } else if v < 32 {
        push_char(out, '\\');
        push_char(out, 'u');
        push_char(out, '0');
        push_char(out, '0');
        push_hex(out, v / 16);
        push_hex(out, v % 16);
    } else {
        push_char(out, c);
    }
    proof {
        assert(final(out)@ =~= old(out)@ + escape_char(c));
    }
}

/// Appends a whole text in its JSON-escaped form.
pub fn push_json_escaped(out: &mut String, s: &str)
    ensures
        final(out)@ == old(out)@ + json_escaped(s@),
{
    broadcast use vstd::string::group_string_axioms;

    let ghost orig = old(out)@;
    let ghost mut done: Seq<char> = Seq::empty();
    let mut it = s.chars();
    proof {
        assert(done + it.remaining() =~= s@);
        assert(orig + json_escaped(done) =~= orig);
    }
    loop
        invariant_except_break
            s@ == done + it.remaining(),
            out@ == orig + json_escaped(done),
            IteratorSpec::decrease(&it) is Some,
        ensures
            out@ == orig + json_escaped(s@),
        decreases IteratorSpec::decrease(&it)->0,
    {
        let c_opt = it.next();
        match c_opt {
            Some(c) => {
                push_escaped(out, c);
                proof {
                    let stepped = done + seq![c];
                    let single = seq![c];
                    lemma_json_escaped_concat(done, single);
                    assert(single.len() == 1);
                    assert(single[0] == c);
                    assert(single.drop_first() =~= Seq::<char>::empty());
                    assert(json_escaped(single.drop_first()) =~= Seq::<char>::empty());
                    assert(json_escaped(single) =~= escape_char(c));
                    assert(json_escaped(stepped) =~= json_escaped(done) + escape_char(c));
                    assert(stepped + it.remaining() =~= s@);
                    assert(out@ =~= orig + json_escaped(stepped));
                    done = stepped;
                }
            },
            None => {
                proof {
                    assert(done =~= s@);
                }
                break;
            },
        }
    }
}

/// The structured verdict body: a JSON object with the status and the output.
pub open spec fn json_verdict(status: int, payload: Seq<char>) -> Seq<char> {
    "{\"status\":"@ + int_seq(status) + ",\"output\":\""@ + json_escaped(payload) + "\"}"@
}

/// Renders the structured verdict body.
pub fn render_json_verdict(status: i8, payload: &str) -> (r: String)
    ensures
        r@ == json_verdict(status as int, payload@),
{
    let mut out = String::from_str("{\"status\":");
    push_i8(&mut out, status);
    out.append(",\"output\":\"");
    push_json_escaped(&mut out, payload);
    out.append("\"}");
    proof {
        assert(out@ =~= json_verdict(status as int, payload@));
    }
    out
}

/// The coverage response body: a JSON object with the one percentage field.
pub open spec fn coverage_body(value: int) -> Seq<char> {
    "{\"coverage\":"@ + int_seq(value) + "}"@
}

/// Renders the coverage response body.
pub fn render_coverage_body(value: i8) -> (r: String)
    ensures
        r@ == coverage_body(value as int),
{
    let mut out = String::from_str("{\"coverage\":");
    push_i8(&mut out, value);
    out.append("}");
    proof {
        assert(out@ =~= coverage_body(value as int));
    }
    out
}

} // verus!
