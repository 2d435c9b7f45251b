//! Character predicates, trimming and line splitting, shared by every stage
//! of the pipeline.

use vstd::prelude::*;

verus! {

/// A character counts as whitespace when it has Unicode's `White_Space`
/// property, the same set that trimming strips.
pub open spec fn is_space_char(c: char) -> bool {
    let u = c as u32;
    u == 0x20 || u == 0x09 || u == 0x0a || u == 0x0b || u == 0x0c || u == 0x0d || u == 0x85
        || u == 0xa0 || u == 0x1680 || (0x2000 <= u && u <= 0x200a) || u == 0x2028 || u == 0x2029
        || u == 0x202f || u == 0x205f || u == 0x3000
}

pub fn is_space(c: char) -> (r: bool)
    ensures
        r == is_space_char(c),
{
    let u = c as u32;
    u == 0x20 || u == 0x09 || u == 0x0a || u == 0x0b || u == 0x0c || u == 0x0d || u == 0x85
        || u == 0xa0 || u == 0x1680 || (0x2000 <= u && u <= 0x200a) || u == 0x2028 || u == 0x2029
        || u == 0x202f || u == 0x205f || u == 0x3000
}

/// A line is blank when trimming it would leave nothing.
pub open spec fn is_blank(s: Seq<char>) -> bool {
    forall|i: int| 0 <= i < s.len() ==> is_space_char(s[i])
}

/// Length of the longest prefix of `s` whose characters all satisfy `p`.
pub open spec fn count_prefix(s: Seq<char>, p: spec_fn(char) -> bool) -> nat
    decreases s.len(),
{
    if s.len() == 0 || !p(s[0]) {
        0
    } else {
        1 + count_prefix(s.drop_first(), p)
    }
}

/// Length of the longest suffix of `s` whose characters all satisfy `p`.
pub open spec fn count_suffix(s: Seq<char>, p: spec_fn(char) -> bool) -> nat
    decreases s.len(),
{
    if s.len() == 0 || !p(s.last()) {
        0
    } else {
        1 + count_suffix(s.drop_last(), p)
    }
}

pub proof fn lemma_count_prefix(s: Seq<char>, p: spec_fn(char) -> bool)
    ensures
        count_prefix(s, p) <= s.len(),
        forall|k: int| 0 <= k < count_prefix(s, p) ==> p(s[k]),
        count_prefix(s, p) < s.len() ==> !p(s[count_prefix(s, p) as int]),
    decreases s.len(),
{
    if s.len() == 0 || !p(s[0]) {
    } else {
        lemma_count_prefix(s.drop_first(), p);
        assert forall|k: int| 0 <= k < count_prefix(s, p) implies p(s[k]) by {
            if k >= 1 {
                assert(s.drop_first()[k - 1] == s[k]);
            }
        }
        if count_prefix(s, p) < s.len() {
            assert(s.drop_first()[count_prefix(s, p) - 1] == s[count_prefix(s, p) as int]);
        }
    }
}

/// The prefix count is the unique cut point: all of `p` before it, and
/// either the end of the string or a failure of `p` at it.
pub proof fn lemma_count_prefix_is(s: Seq<char>, p: spec_fn(char) -> bool, i: int)
    requires
        0 <= i <= s.len(),
        forall|k: int| 0 <= k < i ==> p(s[k]),
        i < s.len() ==> !p(s[i]),
    ensures
        count_prefix(s, p) == i,
{
    lemma_count_prefix(s, p);
    let c = count_prefix(s, p) as int;
    if c < i {
        assert(p(s[c]));
    } else if c > i {
        assert(p(s[i]));
    }
}

pub proof fn lemma_count_suffix(s: Seq<char>, p: spec_fn(char) -> bool)
    ensures
        count_suffix(s, p) <= s.len(),
        forall|k: int| s.len() - count_suffix(s, p) <= k < s.len() ==> p(s[k]),
        count_suffix(s, p) < s.len() ==> !p(s[s.len() - count_suffix(s, p) - 1]),
    decreases s.len(),
{
    if s.len() == 0 || !p(s.last()) {
    } else {
        lemma_count_suffix(s.drop_last(), p);
        assert forall|k: int| s.len() - count_suffix(s, p) <= k < s.len() implies p(s[k]) by {
            if k < s.len() - 1 {
                assert(s.drop_last()[k] == s[k]);
            }
        }
        if count_suffix(s, p) < s.len() {
            assert(s.drop_last()[s.len() - count_suffix(s, p) - 1] == s[s.len() - count_suffix(
                s,
                p,
            ) - 1]);
        }
    }
}

pub proof fn lemma_count_suffix_is(s: Seq<char>, p: spec_fn(char) -> bool, i: int)
    requires
        0 <= i <= s.len(),
        forall|k: int| s.len() - i <= k < s.len() ==> p(s[k]),
        i < s.len() ==> !p(s[s.len() - i - 1]),
    ensures
        count_suffix(s, p) == i,
{
    lemma_count_suffix(s, p);
    let c = count_suffix(s, p) as int;
    if c < i {
        assert(p(s[s.len() - c - 1]));
    } else if c > i {
        assert(p(s[s.len() - i - 1]));
    }
}

/// Count of leading whitespace characters, the classifier's notion of
/// indentation.
pub open spec fn leading_ws(s: Seq<char>) -> nat {
    count_prefix(s, |c: char| is_space_char(c))
}

pub open spec fn trailing_ws(s: Seq<char>) -> nat {
    count_suffix(s, |c: char| is_space_char(c))
}

/// `s` with leading and trailing whitespace removed.
pub open spec fn spec_trim(s: Seq<char>) -> Seq<char> {
    if is_blank(s) {
        Seq::empty()
    } else {
        s.subrange(leading_ws(s) as int, s.len() - trailing_ws(s))
    }
}

pub proof fn lemma_blank_leading_ws(s: Seq<char>)
    ensures
        is_blank(s) <==> leading_ws(s) == s.len(),
{
    let p = |c: char| is_space_char(c);
    lemma_count_prefix(s, p);
    if is_blank(s) {
        lemma_count_prefix_is(s, p, s.len() as int);
    }
}

pub fn is_blank_str(s: &str) -> (r: bool)
    ensures
        r == is_blank(s@),
{
    let n = s.unicode_len();
    let mut i: usize = 0;
    #[verifier::loop_isolation(false)]
    while i < n && is_space(s.get_char(i))
        invariant
            i <= n,
            forall|k: int| 0 <= k < i ==> is_space_char(s@[k]),
        decreases n - i,
    {
        i = i + 1;
    }
    if i == n {
        true
    } else {
        assert(!is_space_char(s@[i as int]));
        false
    }
}

/// `s` with leading and trailing whitespace removed, as `str::trim` does.
pub fn trim_str(s: &str) -> (t: &str)
    ensures
        t@ == spec_trim(s@),
{
    let n = s.unicode_len();
    let mut i: usize = 0;
    #[verifier::loop_isolation(false)]
    while i < n && is_space(s.get_char(i))
        invariant
            i <= n,
            forall|k: int| 0 <= k < i ==> is_space_char(s@[k]),
        decreases n - i,
    {
        i = i + 1;
    }
    if i == n {
        proof {
            lemma_blank_leading_ws(s@);
            lemma_count_prefix_is(s@, |c: char| is_space_char(c), n as int);
        }
        let t = s.substring_char(n, n);
        assert(t@ =~= spec_trim(s@));
        t
    } else {
        let mut j: usize = n;
        #[verifier::loop_isolation(false)]
        while j > i && is_space(s.get_char(j - 1))
            invariant
                i <= j <= n,
                forall|k: int| j <= k < n ==> is_space_char(s@[k]),
            decreases j,
        {
            j = j - 1;
        }
        proof {
            let p = |c: char| is_space_char(c);
            assert(!p(s@[i as int]));
            lemma_count_prefix_is(s@, p, i as int);
            if j == i {
                assert(p(s@[i as int]));
            }
            assert(!p(s@[j - 1]));
            lemma_count_suffix_is(s@, p, n - j);
            assert(!is_blank(s@));
        }
        let t = s.substring_char(i, j);
        assert(t@ =~= spec_trim(s@));
        t
    }
}

/// The lines of a text: pieces between `\n` characters, each piece losing a
/// trailing `\r`, with no empty final line after a terminating `\n`.
pub open spec fn spec_lines(s: Seq<char>) -> Seq<Seq<char>>
    decreases s.len(),
{
    if s.len() == 0 {
        Seq::empty()
    } else {
        let k = count_prefix(s, |c: char| c != '\n') as int;
        if k >= s.len() {
            seq![s]
        } else {
            seq![strip_cr(s.subrange(0, k))] + spec_lines(s.subrange(k + 1, s.len() as int))
        }
    }
}

/// A piece that ended at a `\n` loses one trailing `\r`.
pub open spec fn strip_cr(l: Seq<char>) -> Seq<char> {
    if l.len() > 0 && l.last() == '\r' {
        l.drop_last()
    } else {
        l
    }
}

/// Splits a text into its lines, the segmenter's first step.
pub fn split_lines(s: &str) -> (r: Vec<String>)
    ensures
        r.deep_view() == spec_lines(s@),
{
    let n = s.unicode_len();
    let mut r: Vec<String> = Vec::new();
    let mut pos: usize = 0;
    assert(s@.skip(0) =~= s@);
    assert(r.deep_view() + spec_lines(s@.skip(0)) =~= spec_lines(s@));
    #[verifier::loop_isolation(false)]
    while pos < n
        invariant
            pos <= n,
            r.deep_view() + spec_lines(s@.skip(pos as int)) =~= spec_lines(s@),
        decreases n - pos,
    {
        let ghost prev = r.deep_view();
        let ghost rest = s@.skip(pos as int);
        let mut j: usize = pos;
        #[verifier::loop_isolation(false)]
        while j < n && s.get_char(j) != '\n'
            invariant
                pos <= j <= n,
                forall|k: int| pos <= k < j ==> s@[k] != '\n',
            decreases n - j,
        {
            j = j + 1;
        }
        proof {
            let p = |c: char| c != '\n';
            assert forall|k: int| 0 <= k < j - pos implies p(rest[k]) by {
                assert(rest[k] == s@[pos + k]);
            }
            if j < n {
                assert(rest[j - pos] == s@[j as int]);
            }
            lemma_count_prefix_is(rest, p, j - pos);
        }
        let line: String = if j == n {
            s.substring_char(pos, n).to_owned()
        } else if j > pos && s.get_char(j - 1) == '\r' {
            s.substring_char(pos, j - 1).to_owned()
        } else {
            s.substring_char(pos, j).to_owned()
        };
        proof {
            if j == n {
                assert(line@ =~= rest);
                assert(spec_lines(rest) == seq![rest]);
            } else {
                assert(s@.subrange(pos as int, j as int) =~= rest.subrange(0, j - pos));
                assert(line@ =~= strip_cr(rest.subrange(0, j - pos)));
                assert(rest.subrange(j - pos + 1, rest.len() as int) =~= s@.skip(j + 1));
                assert(spec_lines(rest) == seq![strip_cr(rest.subrange(0, j - pos))] + spec_lines(
                    s@.skip(j + 1),
                ));
            }
        }
        r.push(line);
        proof {
            assert(r.deep_view() =~= prev.push(line@));
            if j == n {
                assert(s@.skip(n as int) =~= Seq::<char>::empty());
                assert(r.deep_view() + spec_lines(s@.skip(n as int)) =~= spec_lines(s@));
            } else {
                assert(r.deep_view() + spec_lines(s@.skip(j + 1)) =~= spec_lines(s@));
            }
        }
        if j == n {
            pos = n;
        } else {
            pos = j + 1;
        }
    }
    proof {
        assert(s@.skip(n as int) =~= Seq::<char>::empty());
        assert(r.deep_view() =~= spec_lines(s@));
    }
    r
}

/// The lines joined into one flowed line, a single space between them.
pub open spec fn join_space(ls: Seq<Seq<char>>) -> Seq<char>
    decreases ls.len(),
{
    if ls.len() == 0 {
        Seq::empty()
    } else if ls.len() == 1 {
        ls[0]
    } else {
        join_space(ls.drop_last()) + seq![' '] + ls.last()
    }
}

pub fn join_with_space(lines: &Vec<String>) -> (r: String)
    ensures
        r@ == join_space(lines.deep_view()),
{
    let ghost all = lines.deep_view();
    let mut r = String::new();
    let mut i: usize = 0;
    #[verifier::loop_isolation(false)]
    while i < lines.len()
        invariant
            i <= lines.len(),
            all == lines.deep_view(),
            r@ == join_space(all.take(i as int)),
        decreases lines.len() - i,
    {
        if i > 0 {
            r.append(" ");
            proof {
                reveal_strlit(" ");
                assert(" "@ =~= seq![' ']);
            }
        }
        r.append(lines[i].as_str());
        proof {
            assert(all.take(i + 1).drop_last() =~= all.take(i as int));
            assert(all.take(i + 1).last() == all[i as int]);
            if i == 0 {
                assert(r@ =~= join_space(all.take(1)));
            } else {
                assert(r@ =~= join_space(all.take(i + 1)));
            }
        }
        i = i + 1;
    }
    proof {
        assert(all.take(lines.len() as int) =~= all);
    }
    r
}

} // verus!
