//! Character-level views of text: collecting the characters of a string,
//! literal substring containment, and simple per-character lowercasing.
use vstd::prelude::*;
use vstd::std_specs::iter::IteratorSpec;

verus! {

/// The characters of `s`, in order.
pub fn chars_of(s: &str) -> (r: Vec<char>)
    ensures
        r@ == s@,
{
    let mut out: Vec<char> = Vec::new();
    for c in it: s.chars()
        invariant
            out@ == it.seq().take(it.index() as int),
    {
        out.push(c);
    }
    assert(out@ =~= s@);
    out
}

/// `p` occurs in `t` starting at position `i`.
pub open spec fn occurs_at(t: Seq<char>, p: Seq<char>, i: int) -> bool {
    &&& 0 <= i
    &&& i + p.len() <= t.len()
    &&& t.subrange(i, i + p.len()) == p
}

/// `p` is a contiguous part of `t`; the empty sequence is part of every text.
pub open spec fn contains(t: Seq<char>, p: Seq<char>) -> bool {
    exists|i: int| occurs_at(t, p, i)
}

/// Whether `p` occurs in `t` starting at position `i`.
fn occurs_at_exec(t: &Vec<char>, p: &Vec<char>, i: usize) -> (r: bool)
    requires
        i + p@.len() <= t@.len(),
    ensures
        r == occurs_at(t@, p@, i as int),
{
    let n: usize = t.len();
    let mut j: usize = 0;
    while j < p.len()
        invariant
            n == t@.len(),
            j <= p@.len(),
            i + p@.len() <= t@.len(),
            forall|k: int| 0 <= k < j ==> t@[i + k] == p@[k],
        decreases p@.len() - j,
    {
        if t[i + j] != p[j] {
            assert(t@.subrange(i as int, i + p@.len())[j as int] != p@[j as int]);
            return false;
        }
        j = j + 1;
    }
    assert(t@.subrange(i as int, i + p@.len()) =~= p@);
    true
}

/// Literal substring search: whether `p` occurs anywhere in `t`.
pub fn contains_chars(t: &Vec<char>, p: &Vec<char>) -> (r: bool)
    ensures
        r == contains(t@, p@),
{
    if p.len() > t.len() {
        assert forall|i: int| !occurs_at(t@, p@, i) by {}
        return false;
    }
    let last: usize = t.len() - p.len();
    let mut i: usize = 0;
    loop
        invariant
            i <= last,
            last + p@.len() == t@.len(),
            forall|k: int| 0 <= k < i ==> !occurs_at(t@, p@, k),
        decreases last - i,
    {
        if occurs_at_exec(t, p, i) {
            return true;
        }
        if i == last {
            assert forall|k: int| !occurs_at(t@, p@, k) by {
                if 0 <= k < i {
                } else if k == i {
                } else {
                }
            }
            return false;
        }
        i = i + 1;
    }
}

/// The lowercase form of one character, as the characters that make it up.
pub uninterp spec fn lower_char(c: char) -> Seq<char>;

/// Relies on `char::to_lowercase`: the characters it yields for `c`.
#[verifier::external_body]
fn lowercase_char(c: char) -> (r: Vec<char>)
    ensures
        r@ == lower_char(c),
{
    c.to_lowercase().collect()
}

/// Simple lowercasing: each character replaced by its own lowercase form,
/// independently of its neighbours.
pub open spec fn lower(s: Seq<char>) -> Seq<char>
    decreases s.len(),
{
    if s.len() == 0 {
        Seq::empty()
    } else {
        lower(s.drop_last()) + lower_char(s.last())
    }
}

/// Lowercasing maps a concatenation to the concatenation of the parts.
pub proof fn lemma_lower_concat(a: Seq<char>, b: Seq<char>)
    ensures
        lower(a + b) == lower(a) + lower(b),
    decreases b.len(),
{
    if b.len() == 0 {
        assert(a + b =~= a);
        assert(lower(a) + lower(b) =~= lower(a));
    } else {
        lemma_lower_concat(a, b.drop_last());
        assert((a + b).drop_last() =~= a + b.drop_last());
        assert((a + b).last() == b.last());
        assert(lower(a + b) =~= lower(a) + lower(b));
    }
}

/// The lowercase form of `s`.
pub fn lowercase(s: &Vec<char>) -> (r: Vec<char>)
    ensures
        r@ == lower(s@),
{
    let mut out: Vec<char> = Vec::new();
    for i in 0..s.len()
        invariant
            out@ == lower(s@.take(i as int)),
    {
        let mut lc = lowercase_char(s[i]);
        assert(s@.take(i + 1).drop_last() =~= s@.take(i as int));
        out.append(&mut lc);
    }
    assert(s@.take(s@.len() as int) =~= s@);
    out
}

/// A part of a text stays a part of it once both are lowercased.
pub proof fn lemma_contains_lower(t: Seq<char>, p: Seq<char>)
    requires
        contains(t, p),
    ensures
        contains(lower(t), lower(p)),
{
    let i = choose|i: int| occurs_at(t, p, i);
    let head = t.subrange(0, i);
    let tail = t.subrange(i + p.len(), t.len() as int);
    assert(t =~= head + p + tail);
    lemma_lower_concat(head + p, tail);
    lemma_lower_concat(head, p);
    let lh = lower(head);
    let lp = lower(p);
    let lt = lower(t);
    assert(lt == lh + lp + lower(tail));
    let at = lh.len() as int;
    assert(lt.subrange(at, at + lp.len()) =~= lp);
    assert(occurs_at(lt, lp, at));
}

} // verus!
