//! Rendering hits as `"<line number>: <line text>"`.

use vstd::prelude::*;
use vstd::string::StringExecFns;

use crate::matcher::MatchRecord;

verus! {

/// The decimal digit character for `d`.
pub open spec fn digit_char(d: int) -> char {
    if d == 0 {
        '0'
    } else if d == 1 {
        '1'
    } else if d == 2 {
        '2'
    } else if d == 3 {
        '3'
    } else if d == 4 {
        '4'
    } else if d == 5 {
        '5'
    } else if d == 6 {
        '6'
    } else if d == 7 {
        '7'
    } else if d == 8 {
        '8'
    } else {
        '9'
    }
}

/// The decimal digits of `n`, most significant first, with no leading
/// zero (zero itself is a single `'0'`).
pub open spec fn dec_digits(n: int) -> Seq<char>
    decreases n,
{
    if n < 10 {
        seq![digit_char(n)]
    } else {
        dec_digits(n / 10) + seq![digit_char(n % 10)]
    }
}

/// The one-character string for the digit `d`.
fn digit_str(d: usize) -> (r: &'static str)
    requires
        d < 10,
    ensures
        r@ == seq![digit_char(d as int)],
{
    let r: &'static str = if d == 0 {
        "0"
    } else if d == 1 {
        "1"
    } else if d == 2 {
        "2"
    } else if d == 3 {
        "3"
    } else if d == 4 {
        "4"
    } else if d == 5 {
        "5"
    } else if d == 6 {
        "6"
    } else if d == 7 {
        "7"
    } else if d == 8 {
        "8"
    } else {
        "9"
    };
    proof {
        reveal_strlit("0");
        reveal_strlit("1");
        reveal_strlit("2");
        reveal_strlit("3");
        reveal_strlit("4");
        reveal_strlit("5");
        reveal_strlit("6");
        reveal_strlit("7");
        reveal_strlit("8");
        reveal_strlit("9");
        assert(r@ =~= seq![digit_char(d as int)]);
    }
    r
}

/// The decimal rendering of `n`.
fn usize_to_string(n: usize) -> (r: String)
    ensures
        r@ == dec_digits(n as int),
    decreases n,
{
    if n < 10 {
        digit_str(n).to_owned()
    } else {
        let mut r = usize_to_string(n / 10);
        r.append(digit_str(n % 10));
        r
    }
}

/// The rendering of a hit: the line number in decimal, a colon and a
/// space, then the line text.
pub open spec fn render_spec(m: (int, Seq<char>)) -> Seq<char> {
    dec_digits(m.0) + seq![':', ' '] + m.1
}

impl MatchRecord {
    /// This hit as `"<line number>: <line text>"`.
    pub fn render(&self) -> (r: String)
        ensures
            r@ == render_spec(self@),
    {
        let mut r = usize_to_string(self.line_number);
        r.append(": ");
        r.append(self.line_text.as_str());
        proof {
            reveal_strlit(": ");
            assert(": "@ =~= seq![':', ' ']);
            assert(r@ =~= render_spec(self@));
        }
        r
    }
}

/// Every hit rendered, in the order given.
pub fn render_matches(records: &Vec<MatchRecord>) -> (r: Vec<String>)
    ensures
        r@.map_values(|s: String| s@) == records@.map_values(|m: MatchRecord| render_spec(m@)),
{
    let mut out: Vec<String> = Vec::new();
    let mut i: usize = 0;
    while i < records.len()
        invariant
            i <= records@.len(),
            out@.len() == i,
            forall|j: int| 0 <= j < i ==> out@[j]@ == render_spec(records@[j]@),
        decreases records@.len() - i,
    {
        out.push(records[i].render());
        i += 1;
    }
    proof {
        assert(out@.map_values(|s: String| s@) =~= records@.map_values(
            |m: MatchRecord| render_spec(m@),
        ));
    }
    out
}

} // verus!
