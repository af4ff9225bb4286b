//! The text model: substring containment and splitting a buffer into lines
//! on the line-feed character, with verified executable counterparts.

use vstd::prelude::*;

verus! {

/// `needle` occurs in `hay` starting at position `i`.
pub open spec fn contains_at(hay: Seq<char>, needle: Seq<char>, i: int) -> bool {
    &&& 0 <= i
    &&& i + needle.len() <= hay.len()
    &&& hay.subrange(i, i + needle.len() as int) == needle
}

/// `hay` contains `needle` as a contiguous subsequence.
pub open spec fn contains_seq(hay: Seq<char>, needle: Seq<char>) -> bool {
    exists|i: int| contains_at(hay, needle, i)
}

/// The empty needle occurs in every haystack.
pub proof fn lemma_contains_empty(hay: Seq<char>, needle: Seq<char>)
    requires
        needle.len() == 0,
    ensures
        contains_seq(hay, needle),
{
    assert(hay.subrange(0, 0) =~= needle);
    assert(contains_at(hay, needle, 0));
}

/// The lines of `s`, split on the line-feed character alone: one more
/// line than there are line feeds, so a trailing line feed yields a final
/// empty line, and carriage returns stay part of the line text.
pub open spec fn split_lines(s: Seq<char>) -> Seq<Seq<char>>
    decreases s.len(),
{
    if s.len() == 0 {
        seq![s]
    } else if s[0] == '\n' {
        seq![Seq::<char>::empty()] + split_lines(s.drop_first())
    } else {
        let rest = split_lines(s.drop_first());
        seq![seq![s[0]] + rest[0]] + rest.drop_first()
    }
}

/// A split always produces at least one line.
pub proof fn lemma_split_lines_nonempty(s: Seq<char>)
    ensures
        split_lines(s).len() >= 1,
    decreases s.len(),
{
    if s.len() != 0 {
        lemma_split_lines_nonempty(s.drop_first());
    }
}

/// A text without a line feed is a single line.
pub proof fn lemma_split_lines_whole(s: Seq<char>)
    requires
        forall|j: int| 0 <= j < s.len() ==> s[j] != '\n',
    ensures
        split_lines(s) == seq![s],
    decreases s.len(),
{
    if s.len() == 0 {
    } else {
        lemma_split_lines_whole(s.drop_first());
        assert(seq![s[0]] + s.drop_first() =~= s);
        assert(split_lines(s) =~= seq![s]);
    }
}

/// Splitting at the first line feed: the text before it is the first line,
/// and the rest of the split follows the text after it.
pub proof fn lemma_split_lines_first_newline(s: Seq<char>, k: int)
    requires
        0 <= k < s.len(),
        s[k] == '\n',
        forall|j: int| 0 <= j < k ==> s[j] != '\n',
    ensures
        split_lines(s) == seq![s.take(k)] + split_lines(s.skip(k + 1)),
    decreases k,
{
    if k == 0 {
        assert(s.take(0) =~= Seq::<char>::empty());
        assert(s.skip(1) =~= s.drop_first());
        assert(split_lines(s) =~= seq![s.take(0)] + split_lines(s.skip(1)));
    } else {
        let t = s.drop_first();
        assert(t[k - 1] == '\n');
        assert(forall|j: int| 0 <= j < k - 1 ==> t[j] != '\n');
        lemma_split_lines_first_newline(t, k - 1);
        lemma_split_lines_nonempty(t.skip(k));
        assert(t.take(k - 1) =~= s.subrange(1, k));
        assert(t.skip(k) =~= s.skip(k + 1));
        let rest = split_lines(t);
        assert(rest[0] == s.subrange(1, k));
        assert(rest.drop_first() =~= split_lines(s.skip(k + 1)));
        assert(seq![s[0]] + s.subrange(1, k) =~= s.take(k));
        assert(split_lines(s) =~= seq![s.take(k)] + split_lines(s.skip(k + 1)));
    }
}

/// `needle` occurs in `hay@` starting at character position `i`.
fn matches_at(hay: &str, needle: &str, i: usize) -> (r: bool)
    requires
        i + needle@.len() <= hay@.len(),
    ensures
        r == contains_at(hay@, needle@, i as int),
{
    let n = hay.unicode_len();
    let m = needle.unicode_len();
    let mut k: usize = 0;
    while k < m
        invariant
            n == hay@.len(),
            m == needle@.len(),
            i + m <= n,
            k <= m,
            forall|j: int| 0 <= j < k ==> hay@[i + j] == needle@[j],
        decreases m - k,
    {
        if hay.get_char(i + k) != needle.get_char(k) {
            proof {
                assert(hay@.subrange(i as int, i + m as int)[k as int] != needle@[k as int]);
            }
            return false;
        }
        k += 1;
    }
    proof {
        assert(hay@.subrange(i as int, i + m as int) =~= needle@);
    }
    true
}

/// Whether `hay` contains `needle` as a contiguous substring,
/// compared character by character.
pub fn contains_substring(hay: &str, needle: &str) -> (r: bool)
    ensures
        r == contains_seq(hay@, needle@),
{
    let n = hay.unicode_len();
    let m = needle.unicode_len();
    if m == 0 {
        proof {
            lemma_contains_empty(hay@, needle@);
        }
        return true;
    }
    if m > n {
        proof {
            assert(forall|i: int| !contains_at(hay@, needle@, i));
        }
        return false;
    }
    let mut i: usize = 0;
    while i <= n - m
        invariant
            n == hay@.len(),
            m == needle@.len(),
            1 <= m <= n,
            forall|j: int| 0 <= j < i ==> !contains_at(hay@, needle@, j),
        decreases n - i,
    {
        if matches_at(hay, needle, i) {
            return true;
        }
        i += 1;
    }
    proof {
        assert(forall|j: int| j > n - m ==> !contains_at(hay@, needle@, j));
    }
    false
}

/// The lines of `content`, split on the line-feed character alone,
/// in order and with nothing dropped.
pub fn split_into_lines(content: &str) -> (r: Vec<String>)
    ensures
        r@.map_values(|l: String| l@) == split_lines(content@),
{
    let n = content.unicode_len();
    let mut out: Vec<String> = Vec::new();
    let mut start: usize = 0;
    let mut i: usize = 0;
    proof {
        assert(content@.skip(0) =~= content@);
        assert(out@.map_values(|l: String| l@) =~= Seq::<Seq<char>>::empty());
        assert(Seq::<Seq<char>>::empty() + split_lines(content@) =~= split_lines(content@));
    }
    while i < n
        invariant
            n == content@.len(),
            start <= i <= n,
            split_lines(content@) == out@.map_values(|l: String| l@) + split_lines(
                content@.skip(start as int),
            ),
            forall|j: int| start <= j < i ==> content@[j] != '\n',
        decreases n - i,
    {
        if content.get_char(i) == '\n' {
            let line = content.substring_char(start, i);
            let owned = line.to_owned();
            proof {
                let u = content@.skip(start as int);
                assert(u[i - start] == '\n');
                assert(forall|j: int| 0 <= j < i - start ==> u[j] != '\n');
                lemma_split_lines_first_newline(u, i - start);
                assert(u.take(i - start) =~= content@.subrange(start as int, i as int));
                assert(u.skip(i - start + 1) =~= content@.skip(i + 1));
                assert(out@.push(owned) =~= out@ + seq![owned]);
                assert(out@.push(owned).map_values(|l: String| l@) =~= out@.map_values(
                    |l: String| l@,
                ) + seq![owned@]);
                assert(out@.push(owned).map_values(|l: String| l@) + split_lines(
                    content@.skip(i + 1),
                ) =~= out@.map_values(|l: String| l@) + split_lines(content@.skip(start as int)));
            }
            out.push(owned);
            start = i + 1;
        }
        i += 1;
    }
    let line = content.substring_char(start, n);
    let owned = line.to_owned();
    proof {
        let u = content@.skip(start as int);
        assert(forall|j: int| 0 <= j < u.len() ==> u[j] != '\n');
        lemma_split_lines_whole(u);
        assert(u =~= content@.subrange(start as int, n as int));
        assert((out@ + seq![owned]).map_values(|l: String| l@) =~= out@.map_values(
            |l: String| l@,
        ) + seq![owned@]);
        assert(out@.push(owned) =~= out@ + seq![owned]);
        assert((out@.push(owned)).map_values(|l: String| l@) =~= split_lines(content@));
    }
    out.push(owned);
    out
}

} // verus!
