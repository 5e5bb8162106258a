use vstd::prelude::*;
use std::cmp::Ordering;
use crate::source::RandomAccess;
use crate::locate::{find_line_by_position, line_at};

verus! {

/// Why a search stopped without an answer.
#[derive(Debug, PartialEq, Eq)]
pub enum SearchError {
    /// The comparator refused a line; its message.
    Comparator(String),
    /// No line could be recovered at a probed position.
    NoLineAtPosition(u64),
}

/// A comparator, seen as a function from a line's characters to its verdict.
pub type LineOrder = spec_fn(Seq<char>) -> Result<Ordering, String>;

/// The closure `f` answers as `cmp` does on every line it is given.
pub open spec fn agrees<F: Fn(&str) -> Result<Ordering, String>>(f: F, cmp: LineOrder) -> bool {
    forall|l: &str, o: Result<Ordering, String>| #[trigger] f.ensures((l,), o) ==> o == cmp(l@)
}

/// The outcome of the search over the window `[base, base + size)` of `s`.
pub open spec fn search_from(s: Seq<char>, base: nat, size: nat, cmp: LineOrder) -> Result<
    Option<Seq<char>>,
    SearchError,
>
    decreases size,
{
    if size <= 1 {
        Ok(None)
    } else {
        let half = size / 2;
        let mid = base + half;
        let line = line_at(s, mid as int);
        if line.len() == 0 {
            Err(SearchError::NoLineAtPosition(mid as u64))
        } else {
            match cmp(line) {
                Err(e) => Err(SearchError::Comparator(e)),
                Ok(Ordering::Equal) => Ok(Some(line)),
                Ok(Ordering::Less) => search_from(s, mid, (size - half) as nat, cmp),
                Ok(Ordering::Greater) => search_from(s, base, (size - half) as nat, cmp),
            }
        }
    }
}

/// Where a verdict stands among the three orderings.
pub open spec fn order_rank(o: Ordering) -> int {
    match o {
        Ordering::Less => 0,
        Ordering::Equal => 1,
        Ordering::Greater => 2,
    }
}

/// Every position below `n` lies on a line of `s` that `cmp` accepts.
pub open spec fn well_formed_for(s: Seq<char>, n: int, cmp: LineOrder) -> bool {
    forall|p: int|
        0 <= p < n ==> (#[trigger] line_at(s, p)).len() > 0 && cmp(line_at(s, p)) is Ok
}

/// The lines of `s` below position `n` are sorted by the key that `cmp`
/// compares: verdicts never go down from one position to a later one.
pub open spec fn sorted_for(s: Seq<char>, n: int, cmp: LineOrder) -> bool {
    &&& well_formed_for(s, n, cmp)
    &&& forall|p: int, q: int|
        0 <= p <= q < n ==> order_rank(cmp(#[trigger] line_at(s, p))->Ok_0) <= order_rank(
            cmp(#[trigger] line_at(s, q))->Ok_0,
        )
}

proof fn lemma_window_finds(
    s: Seq<char>,
    n: int,
    cmp: LineOrder,
    base: nat,
    size: nat,
    p0: int,
    p1: int,
)
    requires
        sorted_for(s, n, cmp),
        base + size <= n,
        base <= p0 < p1 < base + size,
        cmp(line_at(s, p0)) == Ok::<Ordering, String>(Ordering::Equal),
        cmp(line_at(s, p1)) == Ok::<Ordering, String>(Ordering::Equal),
        forall|p: int|
            0 <= p < n && cmp(#[trigger] line_at(s, p)) == Ok::<Ordering, String>(Ordering::Equal)
                ==> line_at(s, p) == line_at(s, p0),
    ensures
        search_from(s, base, size, cmp) == Ok::<Option<Seq<char>>, SearchError>(
            Some(line_at(s, p0)),
        ),
    decreases size,
{
    let half = size / 2;
    let mid = base + half;
    assert(0 <= mid < n);
    assert(line_at(s, mid as int).len() > 0 && cmp(line_at(s, mid as int)) is Ok);
    match cmp(line_at(s, mid as int)) {
        Ok(Ordering::Less) => {
            if p0 <= mid {
                assert(order_rank(cmp(line_at(s, p0))->Ok_0) <= order_rank(
                    cmp(line_at(s, mid as int))->Ok_0,
                ));
            }
            lemma_window_finds(s, n, cmp, mid, (size - half) as nat, p0, p1);
        },
        Ok(Ordering::Greater) => {
            if p1 >= mid {
                assert(order_rank(cmp(line_at(s, mid as int))->Ok_0) <= order_rank(
                    cmp(line_at(s, p1))->Ok_0,
                ));
            }
            lemma_window_finds(s, n, cmp, base, (size - half) as nat, p0, p1);
        },
        _ => {},
    }
}

/// On a source sorted for the comparator, where exactly one line compares
/// `Equal` and it covers at least two of the searched positions, the search
/// returns that line.
pub proof fn lemma_search_finds_unique_match(
    s: Seq<char>,
    n: nat,
    cmp: LineOrder,
    p0: int,
    p1: int,
)
    requires
        sorted_for(s, n as int, cmp),
        0 <= p0 < p1 < n,
        line_at(s, p0) == line_at(s, p1),
        cmp(line_at(s, p0)) == Ok::<Ordering, String>(Ordering::Equal),
        forall|p: int|
            0 <= p < n && cmp(#[trigger] line_at(s, p)) == Ok::<Ordering, String>(Ordering::Equal)
                ==> line_at(s, p) == line_at(s, p0),
    ensures
        search_from(s, 0, n, cmp) == Ok::<Option<Seq<char>>, SearchError>(Some(line_at(s, p0))),
{
    lemma_window_finds(s, n as int, cmp, 0, n, p0, p1);
}

proof fn lemma_window_absent(s: Seq<char>, n: int, cmp: LineOrder, base: nat, size: nat)
    requires
        well_formed_for(s, n, cmp),
        base + size <= n,
        forall|p: int|
            0 <= p < n ==> cmp(#[trigger] line_at(s, p)) != Ok::<Ordering, String>(
                Ordering::Equal,
            ),
    ensures
        search_from(s, base, size, cmp) == Ok::<Option<Seq<char>>, SearchError>(None),
    decreases size,
{
    if size > 1 {
        let half = size / 2;
        let mid = base + half;
        assert(line_at(s, mid as int).len() > 0 && cmp(line_at(s, mid as int)) is Ok);
        if cmp(line_at(s, mid as int)) == Ok::<Ordering, String>(Ordering::Less) {
            lemma_window_absent(s, n, cmp, mid, (size - half) as nat);
        } else {
            lemma_window_absent(s, n, cmp, base, (size - half) as nat);
        }
    }
}

/// Where every searched position lies on a line that the comparator accepts
/// and none compares `Equal`, the search reports that nothing was found, after
/// at most one comparator call per halving step: `2^calls <= 2 * n`.
pub proof fn lemma_search_absent(s: Seq<char>, n: nat, cmp: LineOrder)
    requires
        well_formed_for(s, n as int, cmp),
        forall|p: int|
            0 <= p < n ==> cmp(#[trigger] line_at(s, p)) != Ok::<Ordering, String>(
                Ordering::Equal,
            ),
    ensures
        search_from(s, 0, n, cmp) == Ok::<Option<Seq<char>>, SearchError>(None),
        search_probes(s, 0, n, cmp) <= probe_count(n),
        n >= 1 ==> vstd::arithmetic::power2::pow2(probe_count(n)) <= 2 * n,
{
    lemma_window_absent(s, n as int, cmp, 0, n);
    lemma_search_probes_bounded(s, 0, n, cmp);
    if n >= 1 {
        lemma_probe_count_logarithmic(n);
    }
}

/// The number of halving steps from a window of `size` positions down to a
/// single one.
pub open spec fn probe_count(size: nat) -> nat
    decreases size,
{
    if size <= 1 {
        0
    } else {
        1 + probe_count((size - size / 2) as nat)
    }
}

/// How many times the search over the window `[base, base + size)` of `s`
/// calls the comparator.
pub open spec fn search_probes(s: Seq<char>, base: nat, size: nat, cmp: LineOrder) -> nat
    decreases size,
{
    if size <= 1 {
        0
    } else {
        let half = size / 2;
        let mid = base + half;
        let line = line_at(s, mid as int);
        if line.len() == 0 {
            0
        } else {
            match cmp(line) {
                Ok(Ordering::Less) => 1 + search_probes(s, mid, (size - half) as nat, cmp),
                Ok(Ordering::Greater) => 1 + search_probes(s, base, (size - half) as nat, cmp),
                _ => 1,
            }
        }
    }
}

/// The search calls the comparator at most once per halving step.
pub proof fn lemma_search_probes_bounded(s: Seq<char>, base: nat, size: nat, cmp: LineOrder)
    ensures
        search_probes(s, base, size, cmp) <= probe_count(size),
    decreases size,
{
    if size > 1 {
        let half = size / 2;
        let mid = base + half;
        lemma_search_probes_bounded(s, mid, (size - half) as nat, cmp);
        lemma_search_probes_bounded(s, base, (size - half) as nat, cmp);
    }
}

/// The number of halving steps is logarithmic in the window's size:
/// `2^probe_count(size) <= 2 * size`.
pub proof fn lemma_probe_count_logarithmic(size: nat)
    requires
        size >= 1,
    ensures
        vstd::arithmetic::power2::pow2(probe_count(size)) <= 2 * size,
        size >= 2 ==> vstd::arithmetic::power2::pow2(probe_count(size)) <= 2 * (size - 1),
    decreases size,
{
    if size <= 1 {
        vstd::arithmetic::power2::lemma2_to64();
    } else {
        let next = (size - size / 2) as nat;
        lemma_probe_count_logarithmic(next);
        vstd::arithmetic::power2::lemma_pow2_unfold(probe_count(size));
        if next == 1 {
            vstd::arithmetic::power2::lemma2_to64();
        }
    }
}

/// Two runs of the search on the same source, length and comparator give the
/// same result.
pub proof fn lemma_search_repeatable(
    s: Seq<char>,
    n: nat,
    cmp: LineOrder,
    r1: Result<Option<String>, SearchError>,
    r2: Result<Option<String>, SearchError>,
)
    requires
        result_view(r1) == search_from(s, 0, n, cmp),
        result_view(r2) == search_from(s, 0, n, cmp),
    ensures
        result_view(r1) == result_view(r2),
{
}

/// A search result, with the line seen as its characters.
pub open spec fn result_view(r: Result<Option<String>, SearchError>) -> Result<
    Option<Seq<char>>,
    SearchError,
> {
    match r {
        Ok(Some(l)) => Ok(Some(l@)),
        Ok(None) => Ok(None),
        Err(e) => Err(e),
    }
}

/// Searches the first `char_count` positions of `source`, whose lines are
/// sorted by the key that `check_line` compares with its target, for a line
/// that compares `Equal`. The window `[base, base + size)` starts as the whole
/// range; each step probes the line at `base + size / 2`, moves `base` there
/// on `Less`, returns the line on `Equal`, and always takes `size / 2` off
/// `size`. A comparator error, or a probed position with no line, ends the
/// search with an error.
pub fn binary_search_line<T, F>(source: &T, char_count: u64, check_line: F) -> (r: Result<
    Option<String>,
    SearchError,
>) where T: RandomAccess, F: Fn(&str) -> Result<Ordering, String>
    requires
        source.content().len() < u64::MAX,
        forall|l: &str| check_line.requires((l,)),
    ensures
        char_count == 0 ==> r matches Ok(None),
        forall|cmp: LineOrder|
            agrees(check_line, cmp) ==> result_view(r) == search_from(
                source.content(),
                0,
                char_count as nat,
                cmp,
            ),
        r matches Ok(Some(l)) ==> exists|p: int|
            0 <= p < char_count && line_at(source.content(), p) == l@,
        r matches Ok(Some(l)) ==> exists|x: &str|
            x@ == l@ && #[trigger] check_line.ensures((x,), Ok::<Ordering, String>(Ordering::Equal)),
        r matches Err(SearchError::Comparator(e)) ==> exists|x: &str, p: int|
            #![trigger check_line.ensures((x,), Err::<Ordering, String>(e)), line_at(source.content(), p)]
            0 <= p < char_count && line_at(source.content(), p) == x@ && check_line.ensures(
                (x,),
                Err::<Ordering, String>(e),
            ),
        r matches Err(SearchError::NoLineAtPosition(p)) ==> p < char_count && line_at(
            source.content(),
            p as int,
        ).len() == 0,
{
    let ghost s = source.content();
    let mut size: u64 = char_count;
    if size == 0 {
        return Ok(None);
    }
    let mut base: u64 = 0;
    while size > 1
        invariant
            s == source.content(),
            s.len() < u64::MAX,
            forall|l: &str| check_line.requires((l,)),
            base + size <= char_count,
            forall|cmp: LineOrder|
                agrees(check_line, cmp) ==> search_from(s, 0, char_count as nat, cmp)
                    == search_from(s, base as nat, size as nat, cmp),
        decreases size,
    {
        let half = size / 2;
        let mid = base + half;
        let line = match find_line_by_position(source, mid) {
            Some(l) => l,
            None => {
                return Err(SearchError::NoLineAtPosition(mid));
            },
        };
        let text = line.as_str();
        let verdict = check_line(text);
        assert forall|cmp: LineOrder| agrees(check_line, cmp) implies verdict == cmp(line@) by {
            assert(check_line.ensures((text,), verdict));
        }
        let ordering = match verdict {
            Ok(o) => o,
            Err(e) => {
                assert(check_line.ensures((text,), Err::<Ordering, String>(e)));
                assert(line_at(s, mid as int) == text@);
                assert(0 <= mid < char_count);
                let failure: Result<Option<String>, SearchError> = Err(SearchError::Comparator(e));
                assert(failure matches Err(SearchError::Comparator(m)) && m == e);
                return failure;
            },
        };
        match ordering {
            Ordering::Less => {
                base = mid;
            },
            Ordering::Equal => {
                return Ok(Some(line));
            },
            Ordering::Greater => {},
        }
        size = size - half;
    }
    Ok(None)
}

} // verus!
