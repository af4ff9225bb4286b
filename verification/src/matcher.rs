//! The matcher: which lines of a buffer contain the needle, in file order,
//! with 1-based line numbers.

use vstd::prelude::*;

use crate::config::Config;
use crate::fold::{lower_of, lowercase};
use crate::text::{
    contains_at, contains_seq, contains_substring, lemma_contains_empty, split_into_lines,
    split_lines,
};

verus! {

/// One hit: the 1-based number of a line and the line's text.
#[derive(Debug, PartialEq, Eq)]
pub struct MatchRecord {
    pub line_number: usize,
    pub line_text: String,
}

impl View for MatchRecord {
    type V = (int, Seq<char>);

    open spec fn view(&self) -> (int, Seq<char>) {
        (self.line_number as int, self.line_text@)
    }
}

/// Whether a line is a hit for `needle`: literal containment in
/// case-sensitive mode, containment after lowercasing both the line and
/// the needle in case-insensitive mode.
pub open spec fn line_matches(line: Seq<char>, needle: Seq<char>, case_sensitive: bool) -> bool {
    if case_sensitive {
        contains_seq(line, needle)
    } else {
        contains_seq(lower_of(line), lower_of(needle))
    }
}

/// The hits among `lines` for `needle`, in order, the first line bearing
/// the number `first`.
pub open spec fn match_records_from(
    lines: Seq<Seq<char>>,
    needle: Seq<char>,
    case_sensitive: bool,
    first: int,
) -> Seq<(int, Seq<char>)>
    decreases lines.len(),
{
    if lines.len() == 0 {
        Seq::empty()
    } else {
        let rest = match_records_from(lines.drop_first(), needle, case_sensitive, first + 1);
        if line_matches(lines[0], needle, case_sensitive) {
            seq![(first, lines[0])] + rest
        } else {
            rest
        }
    }
}

/// All hits for `needle` in `content` split into lines, numbered from 1.
pub open spec fn search_spec(
    content: Seq<char>,
    needle: Seq<char>,
    case_sensitive: bool,
) -> Seq<(int, Seq<char>)> {
    match_records_from(split_lines(content), needle, case_sensitive, 1)
}

/// Unfolding one step of `match_records_from` at position `i` of `lines`.
proof fn lemma_match_records_step(
    lines: Seq<Seq<char>>,
    needle: Seq<char>,
    case_sensitive: bool,
    first: int,
    i: int,
)
    requires
        0 <= i < lines.len(),
    ensures
        match_records_from(lines.skip(i), needle, case_sensitive, first + i) == (if line_matches(
            lines[i],
            needle,
            case_sensitive,
        ) {
            seq![(first + i, lines[i])] + match_records_from(
                lines.skip(i + 1),
                needle,
                case_sensitive,
                first + i + 1,
            )
        } else {
            match_records_from(lines.skip(i + 1), needle, case_sensitive, first + i + 1)
        }),
{
    assert(lines.skip(i).len() == lines.len() - i);
    assert(lines.skip(i)[0] == lines[i]);
    assert(lines.skip(i).drop_first() =~= lines.skip(i + 1));
}

/// If every line is a hit, the hits are all the lines, in order.
proof fn lemma_match_records_all(
    lines: Seq<Seq<char>>,
    needle: Seq<char>,
    case_sensitive: bool,
    first: int,
)
    requires
        forall|k: int| 0 <= k < lines.len() ==> line_matches(#[trigger] lines[k], needle, case_sensitive),
    ensures
        match_records_from(lines, needle, case_sensitive, first) == Seq::new(
            lines.len(),
            |k: int| (first + k, lines[k]),
        ),
    decreases lines.len(),
{
    if lines.len() == 0 {
        assert(match_records_from(lines, needle, case_sensitive, first) =~= Seq::new(
            lines.len(),
            |k: int| (first + k, lines[k]),
        ));
    } else {
        lemma_match_records_all(lines.drop_first(), needle, case_sensitive, first + 1);
        assert(match_records_from(lines, needle, case_sensitive, first) =~= Seq::new(
            lines.len(),
            |k: int| (first + k, lines[k]),
        ));
    }
}

/// A sequence still contains an element after something is put in front.
proof fn lemma_contains_after_prepend<A>(h: A, rest: Seq<A>, x: A)
    requires
        rest.contains(x),
    ensures
        (seq![h] + rest).contains(x),
{
    let i = choose|i: int| 0 <= i < rest.len() && rest[i] == x;
    assert((seq![h] + rest)[i + 1] == x);
}

/// Every record of `match_records_from` names a line in range, carries
/// that line's text, and reports a line that matches; the numbers
/// strictly increase.
proof fn lemma_match_records_sound(
    lines: Seq<Seq<char>>,
    needle: Seq<char>,
    case_sensitive: bool,
    first: int,
)
    ensures
        forall|k: int|
            0 <= k < match_records_from(lines, needle, case_sensitive, first).len() ==> ({
                let rec = #[trigger] match_records_from(lines, needle, case_sensitive, first)[k];
                &&& first <= rec.0 < first + lines.len()
                &&& rec.1 == lines[rec.0 - first]
                &&& line_matches(rec.1, needle, case_sensitive)
            }),
        forall|k1: int, k2: int|
            0 <= k1 < k2 < match_records_from(lines, needle, case_sensitive, first).len()
                ==> match_records_from(lines, needle, case_sensitive, first)[k1].0
                < match_records_from(lines, needle, case_sensitive, first)[k2].0,
    decreases lines.len(),
{
    if lines.len() != 0 {
        lemma_match_records_sound(lines.drop_first(), needle, case_sensitive, first + 1);
        let r = match_records_from(lines, needle, case_sensitive, first);
        let rest = match_records_from(lines.drop_first(), needle, case_sensitive, first + 1);
        if line_matches(lines[0], needle, case_sensitive) {
            assert(r == seq![(first, lines[0])] + rest);
            assert forall|k: int| 0 < k < r.len() implies r[k] == rest[k - 1] by {}
        }
    }
}

/// Every line that matches appears among the records, under its number.
proof fn lemma_match_records_complete(
    lines: Seq<Seq<char>>,
    needle: Seq<char>,
    case_sensitive: bool,
    first: int,
)
    ensures
        forall|j: int|
            0 <= j < lines.len() && line_matches(#[trigger] lines[j], needle, case_sensitive)
                ==> match_records_from(lines, needle, case_sensitive, first).contains(
                (first + j, lines[j]),
            ),
    decreases lines.len(),
{
    if lines.len() != 0 {
        lemma_match_records_complete(lines.drop_first(), needle, case_sensitive, first + 1);
        let r = match_records_from(lines, needle, case_sensitive, first);
        let rest = match_records_from(lines.drop_first(), needle, case_sensitive, first + 1);
        assert forall|j: int|
            0 <= j < lines.len() && line_matches(#[trigger] lines[j], needle, case_sensitive)
            implies r.contains((first + j, lines[j])) by {
            if j == 0 {
                assert(r[0] == (first, lines[0]));
            } else {
                assert(lines.drop_first()[j - 1] == lines[j]);
                assert(rest.contains((first + j, lines[j])));
                if line_matches(lines[0], needle, case_sensitive) {
                    lemma_contains_after_prepend((first, lines[0]), rest, (first + j, lines[j]));
                }
            }
        }
    }
}

/// Where a line that contains the needle still contains it after both are
/// lowercased, every case-sensitive record is among the case-insensitive
/// ones.
proof fn lemma_match_records_superset(lines: Seq<Seq<char>>, needle: Seq<char>, first: int)
    requires
        forall|k: int|
            0 <= k < lines.len() && contains_seq(#[trigger] lines[k], needle) ==> contains_seq(
                lower_of(lines[k]),
                lower_of(needle),
            ),
    ensures
        forall|k: int|
            0 <= k < match_records_from(lines, needle, true, first).len()
                ==> match_records_from(lines, needle, false, first).contains(
                #[trigger] match_records_from(lines, needle, true, first)[k],
            ),
    decreases lines.len(),
{
    if lines.len() != 0 {
        assert forall|k: int|
            0 <= k < lines.drop_first().len() && contains_seq(
                #[trigger] lines.drop_first()[k],
                needle,
            ) implies contains_seq(lower_of(lines.drop_first()[k]), lower_of(needle)) by {
            assert(lines.drop_first()[k] == lines[k + 1]);
        }
        lemma_match_records_superset(lines.drop_first(), needle, first + 1);
        let s = match_records_from(lines, needle, true, first);
        let ins = match_records_from(lines, needle, false, first);
        let s_rest = match_records_from(lines.drop_first(), needle, true, first + 1);
        let i_rest = match_records_from(lines.drop_first(), needle, false, first + 1);
        assert forall|k: int| 0 <= k < s.len() implies ins.contains(s[k]) by {
            if line_matches(lines[0], needle, true) {
                assert(s == seq![(first, lines[0])] + s_rest);
                assert(line_matches(lines[0], needle, false));
                assert(ins == seq![(first, lines[0])] + i_rest);
                if k == 0 {
                    assert(ins[0] == (first, lines[0]));
                } else {
                    assert(s[k] == s_rest[k - 1]);
                    lemma_contains_after_prepend((first, lines[0]), i_rest, s_rest[k - 1]);
                }
            } else {
                assert(s == s_rest);
                assert(i_rest.contains(s_rest[k]));
                if line_matches(lines[0], needle, false) {
                    lemma_contains_after_prepend((first, lines[0]), i_rest, s_rest[k]);
                }
            }
        }
    }
}

/// Case-sensitive search returns exactly the lines whose literal content
/// contains the needle: every record carries a 1-based number in range,
/// the text of the line it numbers, a line that contains the needle, and
/// the numbers strictly increase; conversely, every line that contains
/// the needle is reported under its number.
pub proof fn lemma_search_sensitive_exact(content: Seq<char>, needle: Seq<char>)
    ensures
        forall|k: int|
            0 <= k < search_spec(content, needle, true).len() ==> ({
                let rec = #[trigger] search_spec(content, needle, true)[k];
                &&& 1 <= rec.0 <= split_lines(content).len()
                &&& rec.1 == split_lines(content)[rec.0 - 1]
                &&& contains_seq(rec.1, needle)
            }),
        forall|k1: int, k2: int|
            0 <= k1 < k2 < search_spec(content, needle, true).len() ==> search_spec(
                content,
                needle,
                true,
            )[k1].0 < search_spec(content, needle, true)[k2].0,
        forall|j: int|
            0 <= j < split_lines(content).len() && contains_seq(
                #[trigger] split_lines(content)[j],
                needle,
            ) ==> search_spec(content, needle, true).contains((j + 1, split_lines(content)[j])),
{
    lemma_match_records_sound(split_lines(content), needle, true, 1);
    lemma_match_records_complete(split_lines(content), needle, true, 1);
    assert forall|j: int|
        0 <= j < split_lines(content).len() && contains_seq(
            #[trigger] split_lines(content)[j],
            needle,
        ) implies search_spec(content, needle, true).contains(
        (j + 1, split_lines(content)[j]),
    ) by {
        assert(line_matches(split_lines(content)[j], needle, true));
        assert((1 + j, split_lines(content)[j]) == (j + 1, split_lines(content)[j]));
    }
}

/// Where lowercasing keeps each literal hit a hit, the case-insensitive
/// search returns every record that the case-sensitive search returns.
/// The side condition cannot be dropped: Unicode lowercasing reads a
/// character's surroundings, so a line can contain the needle literally
/// and yet not contain it once both are lowercased.
pub proof fn lemma_case_insensitive_superset(content: Seq<char>, needle: Seq<char>)
    requires
        forall|k: int|
            0 <= k < split_lines(content).len() && contains_seq(
                #[trigger] split_lines(content)[k],
                needle,
            ) ==> contains_seq(lower_of(split_lines(content)[k]), lower_of(needle)),
    ensures
        forall|k: int|
            0 <= k < search_spec(content, needle, true).len() ==> search_spec(
                content,
                needle,
                false,
            ).contains(#[trigger] search_spec(content, needle, true)[k]),
{
    lemma_match_records_superset(split_lines(content), needle, 1);
}

/// An empty needle matches every line: the case-sensitive search returns
/// every line of the buffer, in order, numbered from 1. The
/// case-insensitive counterpart is stated on `search_case_insensitive`
/// itself, whose result it pins the same way.
pub proof fn lemma_empty_needle_matches_all(content: Seq<char>, needle: Seq<char>)
    requires
        needle.len() == 0,
    ensures
        search_spec(content, needle, true) == Seq::new(
            split_lines(content).len(),
            |k: int| (k + 1, split_lines(content)[k]),
        ),
{
    let lines = split_lines(content);
    assert forall|k: int| 0 <= k < lines.len() implies line_matches(
        #[trigger] lines[k],
        needle,
        true,
    ) by {
        lemma_contains_empty(lines[k], needle);
    }
    lemma_match_records_all(lines, needle, true, 1);
    assert(Seq::new(lines.len(), |k: int| (1 + k, lines[k])) =~= Seq::new(
        lines.len(),
        |k: int| (k + 1, lines[k]),
    ));
}

/// The lines of `content` that contain `needle` literally, in file order,
/// each with its 1-based line number. An empty needle is contained in
/// every line.
pub fn search(content: &str, needle: &str) -> (r: Vec<MatchRecord>)
    ensures
        r@.map_values(|m: MatchRecord| m@) == search_spec(content@, needle@, true),
        needle@.len() == 0 ==> r@.len() == split_lines(content@).len(),
{
    let lines = split_into_lines(content);
    let ghost lseq = lines@.map_values(|l: String| l@);
    let mut out: Vec<MatchRecord> = Vec::new();
    let mut i: usize = 0;
    proof {
        assert(lseq.skip(0) =~= lseq);
        assert(out@.map_values(|m: MatchRecord| m@) + match_records_from(lseq, needle@, true, 1)
            =~= match_records_from(lseq, needle@, true, 1));
    }
    while i < lines.len()
        invariant
            lseq == lines@.map_values(|l: String| l@),
            lseq == split_lines(content@),
            i <= lines@.len(),
            search_spec(content@, needle@, true) == out@.map_values(|m: MatchRecord| m@)
                + match_records_from(lseq.skip(i as int), needle@, true, i + 1),
        decreases lines@.len() - i,
    {
        let hit = contains_substring(lines[i].as_str(), needle);
        proof {
            lemma_match_records_step(lseq, needle@, true, 1, i as int);
        }
        if hit {
            let rec = MatchRecord { line_number: i + 1, line_text: lines[i].clone() };
            proof {
                assert(out@.push(rec).map_values(|m: MatchRecord| m@) =~= out@.map_values(
                    |m: MatchRecord| m@,
                ) + seq![rec@]);
                assert(out@.push(rec).map_values(|m: MatchRecord| m@) + match_records_from(
                    lseq.skip(i + 1),
                    needle@,
                    true,
                    i + 2,
                ) =~= search_spec(content@, needle@, true));
            }
            out.push(rec);
        }
        i += 1;
    }
    proof {
        assert(lseq.skip(lines@.len() as int) =~= Seq::<Seq<char>>::empty());
        assert(out@.map_values(|m: MatchRecord| m@) + Seq::<(int, Seq<char>)>::empty()
            =~= out@.map_values(|m: MatchRecord| m@));
        if needle@.len() == 0 {
            assert forall|k: int| 0 <= k < lseq.len() implies line_matches(
                #[trigger] lseq[k],
                needle@,
                true,
            ) by {
                lemma_contains_empty(lseq[k], needle@);
            }
            lemma_match_records_all(lseq, needle@, true, 1);
        }
    }
    out
}

/// The lines of `content` that contain `needle` once both are lowercased,
/// in file order, each with its 1-based line number; the reported text is
/// the original line, not the lowercased one. An empty needle matches
/// every line.
pub fn search_case_insensitive(content: &str, needle: &str) -> (r: Vec<MatchRecord>)
    ensures
        r@.map_values(|m: MatchRecord| m@) == search_spec(content@, needle@, false),
        needle@.len() == 0 ==> r@.len() == split_lines(content@).len(),
        needle@.len() == 0 ==> search_spec(content@, needle@, false) == Seq::new(
            split_lines(content@).len(),
            |k: int| (k + 1, split_lines(content@)[k]),
        ),
{
    let query = lowercase(needle);
    let lines = split_into_lines(content);
    let ghost lseq = lines@.map_values(|l: String| l@);
    let mut out: Vec<MatchRecord> = Vec::new();
    let mut i: usize = 0;
    proof {
        assert(lseq.skip(0) =~= lseq);
        assert(out@.map_values(|m: MatchRecord| m@) + match_records_from(lseq, needle@, false, 1)
            =~= match_records_from(lseq, needle@, false, 1));
    }
    while i < lines.len()
        invariant
            lseq == lines@.map_values(|l: String| l@),
            lseq == split_lines(content@),
            i <= lines@.len(),
            query@ == lower_of(needle@),
            search_spec(content@, needle@, false) == out@.map_values(|m: MatchRecord| m@)
                + match_records_from(lseq.skip(i as int), needle@, false, i + 1),
        decreases lines@.len() - i,
    {
        let lowered = lowercase(lines[i].as_str());
        let hit = contains_substring(lowered.as_str(), query.as_str());
        proof {
            lemma_match_records_step(lseq, needle@, false, 1, i as int);
        }
        if hit {
            let rec = MatchRecord { line_number: i + 1, line_text: lines[i].clone() };
            proof {
                assert(out@.push(rec).map_values(|m: MatchRecord| m@) =~= out@.map_values(
                    |m: MatchRecord| m@,
                ) + seq![rec@]);
                assert(out@.push(rec).map_values(|m: MatchRecord| m@) + match_records_from(
                    lseq.skip(i + 1),
                    needle@,
                    false,
                    i + 2,
                ) =~= search_spec(content@, needle@, false));
            }
            out.push(rec);
        }
        i += 1;
    }
    proof {
        assert(lseq.skip(lines@.len() as int) =~= Seq::<Seq<char>>::empty());
        assert(out@.map_values(|m: MatchRecord| m@) + Seq::<(int, Seq<char>)>::empty()
            =~= out@.map_values(|m: MatchRecord| m@));
        if needle@.len() == 0 {
            assert(lower_of(needle@).len() == 0);
            assert forall|k: int| 0 <= k < lseq.len() implies line_matches(
                #[trigger] lseq[k],
                needle@,
                false,
            ) by {
                lemma_contains_empty(lower_of(lseq[k]), lower_of(needle@));
            }
            lemma_match_records_all(lseq, needle@, false, 1);
            assert(Seq::new(lseq.len(), |k: int| (1 + k, lseq[k])) =~= Seq::new(
                lseq.len(),
                |k: int| (k + 1, lseq[k]),
            ));
        }
    }
    out
}

/// The hits for the configuration's needle in `content`, under the
/// configuration's case mode.
pub fn run(config: &Config, content: &str) -> (r: Vec<MatchRecord>)
    ensures
        r@.map_values(|m: MatchRecord| m@) == search_spec(
            content@,
            config.needle@,
            config.case_sensitive,
        ),
{
    if config.case_sensitive {
        search(content, config.needle.as_str())
    } else {
        search_case_insensitive(content, config.needle.as_str())
    }
}

} // verus!
