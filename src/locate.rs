use vstd::prelude::*;
use crate::source::{RandomAccess, string_of_chars};

verus! {

/// First position at or after `p` that holds a newline, or the end of `s`.
/// Past the end, `p` itself.
pub open spec fn line_end(s: Seq<char>, p: int) -> int
    decreases s.len() - p,
{
    if p < 0 || p >= s.len() || s[p] == '\n' {
        p
    } else {
        line_end(s, p + 1)
    }
}

/// Position just after the last newline before `p`, or 0. Past the end,
/// `p` itself.
pub open spec fn line_start(s: Seq<char>, p: int) -> int
    decreases p,
{
    if p <= 0 || p > s.len() || s[p - 1] == '\n' {
        p
    } else {
        line_start(s, p - 1)
    }
}

/// The characters of the line around position `p`, without newlines; empty
/// on an empty line and past the end.
pub open spec fn line_at(s: Seq<char>, p: int) -> Seq<char> {
    if p > s.len() {
        Seq::empty()
    } else {
        s.subrange(line_start(s, p), line_end(s, p))
    }
}

/// `[a, b)` is a whole line of `s`: no newline inside, a newline or an end
/// of `s` on each side.
pub open spec fn is_line_span(s: Seq<char>, a: int, b: int) -> bool {
    &&& 0 <= a <= b <= s.len()
    &&& a == 0 || s[a - 1] == '\n'
    &&& b == s.len() || s[b] == '\n'
    &&& forall|k: int| a <= k < b ==> s[k] != '\n'
}

proof fn lemma_line_end(s: Seq<char>, p: int)
    requires
        0 <= p <= s.len(),
    ensures
        p <= line_end(s, p) <= s.len(),
        line_end(s, p) == s.len() || s[line_end(s, p)] == '\n',
        forall|k: int| p <= k < line_end(s, p) ==> s[k] != '\n',
    decreases s.len() - p,
{
    if p < s.len() && s[p] != '\n' {
        lemma_line_end(s, p + 1);
    }
}

proof fn lemma_line_start(s: Seq<char>, p: int)
    requires
        0 <= p <= s.len(),
    ensures
        0 <= line_start(s, p) <= p,
        line_start(s, p) == 0 || s[line_start(s, p) - 1] == '\n',
        forall|k: int| line_start(s, p) <= k < p ==> s[k] != '\n',
    decreases p,
{
    if p > 0 && s[p - 1] != '\n' {
        lemma_line_start(s, p - 1);
    }
}

/// For a position inside the source, the located line is the one line whose
/// span holds the position: its span is a whole line containing it, and no
/// other whole line contains it.
pub proof fn lemma_locate_encloses(s: Seq<char>, p: int)
    requires
        0 <= p < s.len(),
    ensures
        is_line_span(s, line_start(s, p), line_end(s, p)),
        line_start(s, p) <= p <= line_end(s, p),
        line_at(s, p) == s.subrange(line_start(s, p), line_end(s, p)),
        forall|k: int| 0 <= k < line_at(s, p).len() ==> line_at(s, p)[k] != '\n',
        forall|a: int, b: int|
            is_line_span(s, a, b) && a <= p <= b ==> a == line_start(s, p) && b == line_end(
                s,
                p,
            ),
{
    lemma_line_start(s, p);
    lemma_line_end(s, p);
    let a0 = line_start(s, p);
    let b0 = line_end(s, p);
    assert forall|a: int, b: int| is_line_span(s, a, b) && a <= p <= b implies a == a0 && b
        == b0 by {
        if a < a0 {
            assert(s[a0 - 1] != '\n');
        }
        if a > a0 {
            assert(s[a - 1] != '\n');
        }
        if b < b0 {
            assert(s[b] != '\n');
        }
        if b > b0 {
            assert(s[b0] != '\n');
        }
    }
}

/// No line is located exactly where the position is past the end, or on an
/// empty line (a newline right after the start or after another newline).
pub proof fn lemma_locate_absent(s: Seq<char>, p: int)
    requires
        0 <= p,
    ensures
        p < s.len() ==> (line_at(s, p).len() == 0 <==> (s[p] == '\n' && (p == 0 || s[p - 1]
            == '\n'))),
        p > s.len() ==> line_at(s, p).len() == 0,
{
    if p < s.len() {
        lemma_line_start(s, p);
        lemma_line_end(s, p);
    }
}

/// The line that holds `position`, read outwards from it in both directions;
/// `None` where that line is empty.
pub fn find_line_by_position<T: RandomAccess>(source: &T, position: u64) -> (r: Option<String>)
    requires
        source.content().len() < u64::MAX,
    ensures
        match r {
            Some(line) => line@ == line_at(source.content(), position as int) && line@.len() > 0,
            None => line_at(source.content(), position as int).len() == 0,
        },
{
    let ghost s = source.content();
    let ghost p = position as int;
    let mut forward: Vec<char> = Vec::new();
    let mut i: u64 = position;
    loop
        invariant
            s == source.content(),
            p == position as int,
            s.len() < u64::MAX,
            p <= i,
            p <= s.len() ==> i <= s.len() && forward@ == s.subrange(p, i as int),
            p > s.len() ==> i == position && forward@.len() == 0,
            line_end(s, p) == line_end(s, i as int),
        ensures
            p <= s.len() ==> i == line_end(s, p) && forward@ == s.subrange(p, i as int),
            p > s.len() ==> forward@.len() == 0,
        decreases s.len() - i,
    {
        match source.read_at_position(i) {
            Some(c) => {
                if c == '\n' {
                    break;
                }
                forward.push(c);
                assert(forward@ =~= s.subrange(p, i + 1));
            },
            None => {
                break;
            },
        }
        i = i + 1;
    }

    let mut back: Vec<char> = Vec::new();
    let mut j: u64 = position;
    loop
        invariant
            s == source.content(),
            p == position as int,
            j <= position,
            p <= s.len() ==> back@.len() == p - j && (forall|k: int|
                0 <= k < back@.len() ==> back@[k] == s[p - 1 - k]),
            p > s.len() ==> j == position && back@.len() == 0,
            line_start(s, p) == line_start(s, j as int),
        ensures
            p <= s.len() ==> j == line_start(s, p),
            p <= s.len() ==> back@.len() == p - j && (forall|k: int|
                0 <= k < back@.len() ==> back@[k] == s[p - 1 - k]),
            p > s.len() ==> back@.len() == 0,
        decreases j,
    {
        if j == 0 {
            break;
        }
        match source.read_at_position(j - 1) {
            Some(c) => {
                if c == '\n' {
                    break;
                }
                back.push(c);
            },
            None => {
                break;
            },
        }
        j = j - 1;
    }

    let mut line: Vec<char> = Vec::new();
    let mut k: usize = back.len();
    while k > 0
        invariant
            k <= back@.len(),
            line@.len() == back@.len() - k,
            forall|m: int| 0 <= m < line@.len() ==> line@[m] == back@[back@.len() - 1 - m],
        decreases k,
    {
        k = k - 1;
        line.push(back[k]);
    }
    let mut n: usize = 0;
    while n < forward.len()
        invariant
            n <= forward@.len(),
            line@ == line@.subrange(0, back@.len() as int) + forward@.subrange(0, n as int),
            forall|m: int| 0 <= m < back@.len() ==> line@[m] == back@[back@.len() - 1 - m],
            line@.len() == back@.len() + n,
        decreases forward@.len() - n,
    {
        line.push(forward[n]);
        n = n + 1;
    }
    proof {
        if p <= s.len() {
            lemma_line_start(s, p);
            lemma_line_end(s, p);
            assert(line@ =~= line_at(s, p));
        } else {
            assert(line@.len() == 0);
        }
    }
    if line.len() == 0 {
        None
    } else {
        Some(string_of_chars(&line))
    }
}

} // verus!
