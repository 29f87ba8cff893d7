//! Substring search and character removal over character sequences.
use vstd::prelude::*;
use vstd::std_specs::iter::IteratorSpec;

verus! {

broadcast use vstd::string::group_string_axioms;

/// `p` stands in `s` starting at index `i`.
pub open spec fn occurs_at(s: Seq<char>, p: Seq<char>, i: int) -> bool {
    0 <= i && i + p.len() <= s.len() && s.subrange(i, i + p.len()) == p
}

/// `p` stands somewhere in `s`.
pub open spec fn contains(s: Seq<char>, p: Seq<char>) -> bool {
    exists|i: int| occurs_at(s, p, i)
}

/// The first index at or after `i` where `p` stands in `s`, or -1 if there is none.
pub open spec fn first_from(s: Seq<char>, p: Seq<char>, i: int) -> int
    decreases s.len() + 1 - i,
{
    if i < 0 || i + p.len() > s.len() {
        -1
    } else if occurs_at(s, p, i) {
        i
    } else {
        first_from(s, p, i + 1)
    }
}

/// The part of `s` between the first occurrence of `p` and the next one
/// (or the end): what `split(p).nth(1)` hands out.
pub open spec fn after_first(s: Seq<char>, p: Seq<char>) -> Option<Seq<char>> {
    let i = first_from(s, p, 0);
    if i < 0 {
        None
    } else {
        let start = i + p.len();
        let j = first_from(s, p, start);
        Some(s.subrange(start, if j < 0 { s.len() as int } else { j }))
    }
}

/// The part of `s` before the first occurrence of `p`, or all of `s`:
/// what `split(p).nth(0)` hands out.
pub open spec fn before_first(s: Seq<char>, p: Seq<char>) -> Seq<char> {
    let i = first_from(s, p, 0);
    if i < 0 {
        s
    } else {
        s.subrange(0, i)
    }
}

/// `s` with every `c` taken out.
pub open spec fn without(s: Seq<char>, c: char) -> Seq<char>
    decreases s.len(),
{
    if s.len() == 0 {
        s
    } else {
        let rest = without(s.drop_last(), c);
        if s.last() == c {
            rest
        } else {
            rest.push(s.last())
        }
    }
}

/// Within `[i, k)` no occurrence of `p` begins, and one begins at `k`:
/// then the search from `i` stops at `k`.
pub proof fn lemma_first_from_hit(s: Seq<char>, p: Seq<char>, i: int, k: int)
    requires
        0 <= i <= k,
        occurs_at(s, p, k),
        forall|j: int| i <= j < k ==> !occurs_at(s, p, j),
    ensures
        first_from(s, p, i) == k,
    decreases k - i,
{
    if i < k {
        lemma_first_from_hit(s, p, i + 1, k);
    }
}

/// What the search from `i` finds.
pub proof fn lemma_first_from_found(s: Seq<char>, p: Seq<char>, i: int)
    requires
        0 <= i,
    ensures
        first_from(s, p, i) >= 0 ==> occurs_at(s, p, first_from(s, p, i)) && i <= first_from(
            s,
            p,
            i,
        ),
        forall|j: int|
            i <= j && (first_from(s, p, i) < 0 || j < first_from(s, p, i)) ==> !occurs_at(s, p, j),
    decreases s.len() + 1 - i,
{
    if i + p.len() <= s.len() && !occurs_at(s, p, i) {
        lemma_first_from_found(s, p, i + 1);
    }
}

/// An occurrence that lies within the first part of a concatenation.
pub proof fn lemma_occurs_prefix(a: Seq<char>, b: Seq<char>, p: Seq<char>, j: int)
    requires
        0 <= j,
        j + p.len() <= a.len(),
    ensures
        occurs_at(a + b, p, j) == occurs_at(a, p, j),
{
    assert((a + b).subrange(j, j + p.len()) =~= a.subrange(j, j + p.len()));
}

/// An occurrence that lies within the second part of a concatenation.
pub proof fn lemma_occurs_suffix(a: Seq<char>, b: Seq<char>, p: Seq<char>, j: int)
    requires
        0 <= j,
    ensures
        occurs_at(a + b, p, a.len() + j) == occurs_at(b, p, j),
{
    if j + p.len() <= b.len() {
        assert((a + b).subrange(a.len() + j, a.len() + j + p.len()) =~= b.subrange(j, j + p.len()));
    }
}

/// Every sequence stands in itself at its start.
pub proof fn lemma_occurs_self(p: Seq<char>)
    ensures
        occurs_at(p, p, 0),
{
    assert(p.subrange(0, p.len() as int) =~= p);
}

/// `p` stands in `s` exactly when the search from the start finds it.
pub proof fn lemma_contains_first(s: Seq<char>, p: Seq<char>)
    ensures
        contains(s, p) <==> first_from(s, p, 0) >= 0,
{
    lemma_first_from_found(s, p, 0);
}

/// Taking `c` out of a concatenation takes it out of each part.
pub proof fn lemma_without_concat(a: Seq<char>, b: Seq<char>, c: char)
    ensures
        without(a + b, c) == without(a, c) + without(b, c),
    decreases b.len(),
{
    if b.len() == 0 {
        assert(a + b == a);
    } else {
        lemma_without_concat(a, b.drop_last(), c);
        assert((a + b).drop_last() == a + b.drop_last());
    }
}

/// A sequence without `c` is left as it is.
pub proof fn lemma_without_absent(s: Seq<char>, c: char)
    requires
        !s.contains(c),
    ensures
        without(s, c) == s,
    decreases s.len(),
{
    if s.len() > 0 {
        assert(!s.drop_last().contains(c)) by {
            if s.drop_last().contains(c) {
                let k = choose|k: int| 0 <= k < s.drop_last().len() && s.drop_last()[k] == c;
                assert(s[k] == c);
            }
        }
        lemma_without_absent(s.drop_last(), c);
        assert(s.drop_last().push(s.last()) == s);
    }
}

/// The characters of `s`, in order.
pub fn chars_of(s: &str) -> (r: Vec<char>)
    ensures
        r@ == s@,
{
    let mut it = s.chars();
    let mut out: Vec<char> = Vec::new();
    loop
        invariant
            out@ + it.remaining() == s@,
            it.decrease() is Some,
        ensures
            out@ == s@,
        decreases it.decrease()->0,
    {
        match it.next() {
            Some(c) => {
                out.push(c);
            },
            None => {
                assert(out@ + it.remaining() == out@);
                break ;
            },
        }
    }
    out
}

/// Whether `p` stands in `s` at index `i`.
pub fn matches_at(s: &Vec<char>, p: &Vec<char>, i: usize) -> (r: bool)
    ensures
        r == occurs_at(s@, p@, i as int),
{
    let n = s.len();
    if i > n || p.len() > n - i {
        return false;
    }
    let mut k: usize = 0;
    while k < p.len()
        invariant
            n == s@.len(),
            i + p@.len() <= n,
            k <= p@.len(),
            forall|m: int| 0 <= m < k ==> s@[i + m] == p@[m],
        decreases p@.len() - k,
    {
        if s[i + k] != p[k] {
            assert(s@.subrange(i as int, i + p@.len())[k as int] != p@[k as int]);
            return false;
        }
        k = k + 1;
    }
    assert(s@.subrange(i as int, i + p@.len()) == p@);
    true
}

/// The first index at or after `from` where `p` stands in `s`.
pub fn find_from(s: &Vec<char>, p: &Vec<char>, from: usize) -> (r: Option<usize>)
    requires
        p@.len() > 0,
        from <= s@.len(),
    ensures
        r matches Some(i) ==> i as int == first_from(s@, p@, from as int),
        r is None ==> first_from(s@, p@, from as int) == -1,
{
    let n = s.len();
    let mut i: usize = from;
    while p.len() <= n - i
        invariant
            n == s@.len(),
            p@.len() > 0,
            from <= i <= n,
            first_from(s@, p@, from as int) == first_from(s@, p@, i as int),
        decreases n - i,
    {
        if matches_at(s, p, i) {
            return Some(i);
        }
        i = i + 1;
    }
    None
}

/// The slice `s[from..to]`.
pub fn slice_of(s: &Vec<char>, from: usize, to: usize) -> (r: Vec<char>)
    requires
        from <= to <= s@.len(),
    ensures
        r@ == s@.subrange(from as int, to as int),
{
    let mut out: Vec<char> = Vec::new();
    let mut i: usize = from;
    while i < to
        invariant
            from <= i <= to <= s@.len(),
            out@ == s@.subrange(from as int, i as int),
        decreases to - i,
    {
        out.push(s[i]);
        i = i + 1;
    }
    out
}

/// The part of `s` between the first occurrence of `p` and the next one.
pub fn split_second(s: &Vec<char>, p: &Vec<char>) -> (r: Option<Vec<char>>)
    requires
        p@.len() > 0,
    ensures
        r matches Some(v) ==> after_first(s@, p@) == Some(v@),
        r is None ==> after_first(s@, p@) is None,
{
    proof {
        lemma_first_from_found(s@, p@, 0);
    }
    let n = s.len();
    match find_from(s, p, 0) {
        None => None,
        Some(i) => {
            assert(i + p@.len() <= n);
            let start = i + p.len();
            proof {
                lemma_first_from_found(s@, p@, start as int);
            }
            let end = match find_from(s, p, start) {
                Some(j) => j,
                None => s.len(),
            };
            Some(slice_of(s, start, end))
        },
    }
}

/// The part of `s` before the first occurrence of `p`.
pub fn split_first(s: &Vec<char>, p: &Vec<char>) -> (r: Vec<char>)
    requires
        p@.len() > 0,
    ensures
        r@ == before_first(s@, p@),
{
    proof {
        lemma_first_from_found(s@, p@, 0);
    }
    match find_from(s, p, 0) {
        None => slice_of(s, 0, s.len()),
        Some(i) => slice_of(s, 0, i),
    }
}

/// `s` with every `c` taken out.
pub fn remove_char(s: &Vec<char>, c: char) -> (r: Vec<char>)
    ensures
        r@ == without(s@, c),
{
    let mut out: Vec<char> = Vec::new();
    let mut i: usize = 0;
    while i < s.len()
        invariant
            i <= s@.len(),
            out@ == without(s@.subrange(0, i as int), c),
        decreases s@.len() - i,
    {
        assert(s@.subrange(0, i + 1).drop_last() == s@.subrange(0, i as int));
        if s[i] != c {
            out.push(s[i]);
        }
        i = i + 1;
    }
    assert(s@.subrange(0, s@.len() as int) == s@);
    out
}

/// Relies on `String: FromIterator<char>`: the string is the characters in order.
#[verifier::external_body]
pub(crate) fn string_of(v: &Vec<char>) -> (r: String)
    ensures
        r@ == v@,
{
    v.iter().collect()
}

} // verus!
