//! The coverage-report parser. The report is scanned line by line; the first
//! line opening with nine dashes marks the divider, the next non-empty line
//! is the totals row, and its fourth whitespace-separated field, with any
//! trailing percent signs removed, is the coverage percentage.
use vstd::prelude::*;

verus! {

use vstd::std_specs::iter::IteratorSpec;

use crate::decimal::spec_parse_i8;
use crate::decimal::parse_i8;

/// The index of the newline that ends the line beginning at `i`, or the end
/// of the text.
pub open spec fn line_end(s: Seq<char>, i: int) -> int
    recommends
        0 <= i <= s.len(),
    decreases s.len() - i,
{
    if i < 0 || i >= s.len() {
        s.len() as int
    } else if s[i] == '\n' {
        i
    } else {
        line_end(s, i + 1)
    }
}

/// The end of a line lies between its start and the end of the text.
pub proof fn lemma_line_end_bounds(s: Seq<char>, i: int)
    requires
        0 <= i <= s.len(),
    ensures
        i <= line_end(s, i) <= s.len(),
    decreases s.len() - i,
{
    if i < s.len() && s[i] != '\n' {
        lemma_line_end_bounds(s, i + 1);
    }
}

/// The lines of the text from position `i` on, split at newlines. A trailing
/// newline yields a final empty line, and an empty text is one empty line.
pub open spec fn lines_from(s: Seq<char>, i: int) -> Seq<Seq<char>>
    recommends
        0 <= i <= s.len(),
    decreases s.len() - i + 1,
        via lines_from_decreases
{
    let e = line_end(s, i);
    if e >= s.len() {
        seq![s.subrange(i, s.len() as int)]
    } else {
        seq![s.subrange(i, e)] + lines_from(s, e + 1)
    }
}

#[via_fn]
proof fn lines_from_decreases(s: Seq<char>, i: int) {
    if 0 <= i <= s.len() {
        lemma_line_end_bounds(s, i);
    }
}

/// Whether a line opens with at least nine dashes.
pub open spec fn is_divider(line: Seq<char>) -> bool {
    line.len() >= 9 && forall|k: int| 0 <= k < 9 ==> #[trigger] line[k] == '-'
}

/// The first divider line at or after position `i`, or -1.
pub open spec fn find_divider(ls: Seq<Seq<char>>, i: int) -> int
    decreases ls.len() - i,
{
    if i < 0 || i >= ls.len() {
        -1
    } else if is_divider(ls[i]) {
        i
    } else {
        find_divider(ls, i + 1)
    }
}

/// The first non-empty line at or after position `i`, or -1.
pub open spec fn find_nonempty(ls: Seq<Seq<char>>, i: int) -> int
    decreases ls.len() - i,
{
    if i < 0 || i >= ls.len() {
        -1
    } else if ls[i].len() > 0 {
        i
    } else {
        find_nonempty(ls, i + 1)
    }
}

/// Whether a character separates fields of the totals row.
pub open spec fn is_space(c: char) -> bool {
    c == ' ' || c == '\t' || c == '\r'
}

/// The index of the first separator at or after `i`, or the end of the line.
pub open spec fn token_end(s: Seq<char>, i: int) -> int
    recommends
        0 <= i <= s.len(),
    decreases s.len() - i,
{
    if i < 0 || i >= s.len() {
        s.len() as int
    } else if is_space(s[i]) {
        i
    } else {
        token_end(s, i + 1)
    }
}

/// The end of a token lies between its start and the end of the line.
pub proof fn lemma_token_end_bounds(s: Seq<char>, i: int)
    requires
        0 <= i <= s.len(),
    ensures
        i <= token_end(s, i) <= s.len(),
    decreases s.len() - i,
{
    if i < s.len() && !is_space(s[i]) {
        lemma_token_end_bounds(s, i + 1);
    }
}

/// The whitespace-separated fields of the line from position `i` on.
pub open spec fn fields_from(s: Seq<char>, i: int) -> Seq<Seq<char>>
    recommends
        0 <= i <= s.len(),
    decreases s.len() - i + 1,
        via fields_from_decreases
{
    if i < 0 || i >= s.len() {
        Seq::empty()
    } else if is_space(s[i]) {
        fields_from(s, i + 1)
    } else {
        let e = token_end(s, i);
        seq![s.subrange(i, e)] + fields_from(s, e)
    }
}

#[via_fn]
proof fn fields_from_decreases(s: Seq<char>, i: int) {
    if 0 <= i < s.len() && !is_space(s[i]) {
        lemma_token_end_bounds(s, i + 1);
    }
}

/// The field with its trailing percent signs removed.
pub open spec fn trim_pct(f: Seq<char>) -> Seq<char>
    decreases f.len(),
{
    if f.len() > 0 && f.last() == '%' {
        trim_pct(f.drop_last())
    } else {
        f
    }
}

/// What the whole report yields: the value of the fourth field of the totals
/// row, or nothing when the divider, the row, the field or the number is
/// missing.
pub open spec fn coverage_of(report: Seq<char>) -> Option<i8> {
    let ls = lines_from(report, 0);
    let d = find_divider(ls, 0);
    if d < 0 {
        None
    } else {
        let t = find_nonempty(ls, d + 1);
        if t < 0 {
            None
        } else {
            let fs = fields_from(ls[t], 0);
            if fs.len() <= 3 {
                None
            } else {
                spec_parse_i8(trim_pct(fs[3]))
            }
        }
    }
}

/// The characters of a text, one by one.
pub fn str_to_chars(s: &str) -> (r: Vec<char>)
    ensures
        r@ == s@,
{
    broadcast use vstd::string::group_string_axioms;

    let mut out: Vec<char> = Vec::new();
    let mut it = s.chars();
    loop
        invariant_except_break
            s@ == out@ + it.remaining(),
            IteratorSpec::decrease(&it) is Some,
        ensures
            out@ == s@,
        decreases IteratorSpec::decrease(&it)->0,
    {
        let c_opt = it.next();
        match c_opt {
            Some(c) => {
                out.push(c);
                proof {
                    assert(out@ + it.remaining() =~= s@);
                }
            },
            None => {
                proof {
                    assert(out@ =~= s@);
                }
                break;
            },
        }
    }
    out
}

/// Whether `line` opens with at least nine dashes.
#[verifier::loop_isolation(false)]
fn is_divider_exec(line: &Vec<char>) -> (r: bool)
    ensures
        r == is_divider(line@),
{
    if line.len() < 9 {
        return false;
    }
    let mut k: usize = 0;
    while k < 9
        invariant
            k <= 9,
            forall|m: int| 0 <= m < k ==> #[trigger] line@[m] == '-',
        decreases 9 - k,
    {
        if line[k] != '-' {
            return false;
        }
        k = k + 1;
    }
    true
}

/// Splits the text into its lines.
fn split_lines_exec(chars: &Vec<char>) -> (r: Vec<Vec<char>>)
    ensures
        r@.len() == lines_from(chars@, 0).len(),
        forall|k: int| 0 <= k < r@.len() ==> #[trigger] r@[k]@ == lines_from(chars@, 0)[k],
{
    let ghost s = chars@;
    let n = chars.len();
    let mut lines: Vec<Vec<char>> = Vec::new();
    let mut i: usize = 0;
    loop
        invariant_except_break
            s == chars@,
            n == s.len(),
            i <= n,
            lines_from(s, 0) == lines.deep_view() + lines_from(s, i as int),
        ensures
            lines.deep_view() == lines_from(s, 0),
            lines@.len() == lines_from(s, 0).len(),
            forall|k: int| 0 <= k < lines@.len() ==> #[trigger] lines@[k]@ == lines_from(s, 0)[k],
        decreases n + 1 - i,
    {
        let mut e: usize = i;
        while e < n && chars[e] != '\n'
            invariant
                s == chars@,
                n == s.len(),
                i <= e <= n,
                line_end(s, i as int) == line_end(s, e as int),
            decreases n - e,
        {
            e = e + 1;
        }
        proof {
            assert(line_end(s, e as int) == e as int || line_end(s, e as int) == n as int);
            assert(line_end(s, i as int) == e as int);
        }
        let mut line: Vec<char> = Vec::new();
        let mut j: usize = i;
        while j < e
            invariant
                s == chars@,
                n == s.len(),
                i <= j <= e <= n,
                line@ == s.subrange(i as int, j as int),
            decreases e - j,
        {
            line.push(chars[j]);
            proof {
                assert(line@ =~= s.subrange(i as int, j + 1));
            }
            j = j + 1;
        }
        let ghost prior = lines.deep_view();
        lines.push(line);
        proof {
            assert(line.deep_view() =~= line@);
            assert(lines.deep_view() =~~= prior.push(line@));
            if e < n {
                assert(lines_from(s, i as int) == seq![s.subrange(i as int, e as int)]
                    + lines_from(s, e + 1));
                assert(lines_from(s, 0) =~~= lines.deep_view() + lines_from(s, e + 1));
            } else {
                assert(lines_from(s, i as int) == seq![s.subrange(i as int, n as int)]);
                assert(lines_from(s, 0) =~~= lines.deep_view() + Seq::<Seq<char>>::empty());
            }
        }
        if e >= n {
            proof {
                assert(lines.deep_view() =~~= lines_from(s, 0));
                assert forall|k: int| 0 <= k < lines@.len() implies #[trigger] lines@[k]@
                    == lines_from(s, 0)[k] by {
                    assert(lines.deep_view()[k] == lines@[k].deep_view());
                    assert(lines@[k].deep_view() =~= lines@[k]@);
                }
            }
            break;
        }
        i = e + 1;
    }
    lines
}

/// The whitespace-separated fields of one line.
fn fields_exec(row: &Vec<char>) -> (r: Vec<Vec<char>>)
    ensures
        r.deep_view() == fields_from(row@, 0),
        r@.len() == fields_from(row@, 0).len(),
        forall|k: int| 0 <= k < r@.len() ==> #[trigger] r@[k]@ == fields_from(row@, 0)[k],
{
    let ghost s = row@;
    let n = row.len();
    let mut fields: Vec<Vec<char>> = Vec::new();
    let mut i: usize = 0;
    loop
        invariant_except_break
            s == row@,
            n == s.len(),
            i <= n,
            fields_from(s, 0) == fields.deep_view() + fields_from(s, i as int),
        ensures
            fields.deep_view() == fields_from(s, 0),
        decreases n - i,
    {
        if i >= n {
            proof {
                assert(fields.deep_view() + fields_from(s, i as int) =~= fields.deep_view());
                assert forall|k: int| 0 <= k < fields@.len() implies #[trigger] fields@[k]@
                    == fields_from(s, 0)[k] by {
                    assert(fields.deep_view()[k] == fields@[k].deep_view());
                    assert(fields@[k].deep_view() =~= fields@[k]@);
                }
            }
            break;
        }
        let c = row[i];
        if c == ' ' || c == '\t' || c == '\r' {
            i = i + 1;
        } else {
            let mut e: usize = i;
            while e < n && !(row[e] == ' ' || row[e] == '\t' || row[e] == '\r')
                invariant
                    s == row@,
                    n == s.len(),
                    i <= e <= n,
                    token_end(s, i as int) == token_end(s, e as int),
                decreases n - e,
            {
                e = e + 1;
            }
            proof {
                assert(token_end(s, i as int) == e as int);
            }
            let mut field: Vec<char> = Vec::new();
            let mut j: usize = i;
            while j < e
                invariant
                    s == row@,
                    n == s.len(),
                    i <= j <= e <= n,
                    field@ == s.subrange(i as int, j as int),
                decreases e - j,
            {
                field.push(row[j]);
                proof {
                    assert(field@ =~= s.subrange(i as int, j + 1));
                }
                j = j + 1;
            }
            let ghost prior = fields.deep_view();
            fields.push(field);
            proof {
                assert(field.deep_view() =~= field@);
                assert(fields.deep_view() =~~= prior.push(field@));
                assert(fields_from(s, i as int) == seq![s.subrange(i as int, e as int)]
                    + fields_from(s, e as int));
                assert(fields_from(s, 0) =~~= fields.deep_view() + fields_from(s, e as int));
            }
            i = e;
        }
    }
    fields
}

/// The field with its trailing percent signs removed.
#[verifier::loop_isolation(false)]
fn trim_pct_exec(field: &Vec<char>) -> (r: Vec<char>)
    ensures
        r@ == trim_pct(field@),
{
    let ghost s = field@;
    let mut e: usize = field.len();
    proof {
        assert(s.take(s.len() as int) =~= s);
    }
    while e > 0 && field[e - 1] == '%'
        invariant
            e <= s.len(),
            trim_pct(s) == trim_pct(s.take(e as int)),
        decreases e,
    {
        proof {
            assert(s.take(e as int).drop_last() =~= s.take(e - 1));
        }
        e = e - 1;
    }
    let mut out: Vec<char> = Vec::new();
    let mut j: usize = 0;
    while j < e
        invariant
            j <= e <= s.len(),
            out@ == s.take(e as int).take(j as int),
        decreases e - j,
    {
        out.push(field[j]);
        proof {
            assert(out@ =~= s.take(e as int).take(j + 1));
        }
        j = j + 1;
    }
    proof {
        assert(s.take(e as int).take(e as int) =~= s.take(e as int));
        assert(trim_pct(s.take(e as int)) =~= s.take(e as int));
    }
    out
}

/// Parses a whole coverage report to its percentage, exactly as
/// `coverage_of` describes.
#[verifier::loop_isolation(false)]
pub fn parse_coverage_report(report: &str) -> (r: Option<i8>)
    ensures
        r == coverage_of(report@),
{
    let chars = str_to_chars(report);
    let lines = split_lines_exec(&chars);
    let ghost ls = lines_from(report@, 0);
    let mut d: usize = 0;
    while d < lines.len() && !is_divider_exec(&lines[d])
        invariant
            d <= lines@.len(),
            find_divider(ls, 0) == find_divider(ls, d as int),
        decreases lines@.len() - d,
    {
        d = d + 1;
    }
    if d >= lines.len() {
        return None;
    }
    proof {
        assert(find_divider(ls, 0) == d as int);
    }
    let mut t: usize = d + 1;
    while t < lines.len() && lines[t].len() == 0
        invariant
            d + 1 <= t <= lines@.len(),
            find_nonempty(ls, d + 1) == find_nonempty(ls, t as int),
        decreases lines@.len() - t,
    {
        t = t + 1;
    }
    if t >= lines.len() {
        return None;
    }
    proof {
        assert(find_nonempty(ls, d + 1) == t as int);
    }
    let fields = fields_exec(&lines[t]);
    if fields.len() <= 3 {
        return None;
    }
    let trimmed = trim_pct_exec(&fields[3]);
    parse_i8(&trimmed)
}

} // verus!
