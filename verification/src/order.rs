//! Lexicographic order of character sequences: the order of `str`'s `Ord`
//! (UTF-8 byte order is code point order).
use vstd::prelude::*;

verus! {

/// `a` sorts strictly before `b`.
pub open spec fn lex_lt(a: Seq<char>, b: Seq<char>) -> bool
    decreases a.len(),
{
    if a.len() == 0 {
        b.len() > 0
    } else if b.len() == 0 {
        false
    } else if a[0] != b[0] {
        (a[0] as int) < (b[0] as int)
    } else {
        lex_lt(a.drop_first(), b.drop_first())
    }
}

pub proof fn lemma_lex_irreflexive(a: Seq<char>)
    ensures
        !lex_lt(a, a),
    decreases a.len(),
{
    if a.len() > 0 {
        lemma_lex_irreflexive(a.drop_first());
    }
}

pub proof fn lemma_lex_asymmetric(a: Seq<char>, b: Seq<char>)
    ensures
        lex_lt(a, b) ==> !lex_lt(b, a),
    decreases a.len(),
{
    if a.len() > 0 && b.len() > 0 && a[0] == b[0] {
        lemma_lex_asymmetric(a.drop_first(), b.drop_first());
    }
}

pub proof fn lemma_lex_transitive(a: Seq<char>, b: Seq<char>, c: Seq<char>)
    requires
        lex_lt(a, b),
        lex_lt(b, c),
    ensures
        lex_lt(a, c),
    decreases a.len(),
{
    if a.len() > 0 && b.len() > 0 && c.len() > 0 {
        if a[0] == b[0] && b[0] == c[0] {
            lemma_lex_transitive(a.drop_first(), b.drop_first(), c.drop_first());
        } else {
            
        }
    }
}

pub proof fn lemma_lex_total(a: Seq<char>, b: Seq<char>)
    ensures
        a != b ==> lex_lt(a, b) || lex_lt(b, a),
    decreases a.len(),
{
    if a.len() > 0 && b.len() > 0 {
        if a[0] == b[0] {
            lemma_lex_total(a.drop_first(), b.drop_first());
            if a.drop_first() == b.drop_first() {
                assert(a =~= seq![a[0]] + a.drop_first());
                assert(b =~= seq![b[0]] + b.drop_first());
            }
        } else {
            assert((a[0] as int) != (b[0] as int));
        }
    } else if a.len() == 0 && b.len() == 0 {
        assert(a =~= b);
    }
}

/// `s` is sorted strictly ascending, so it holds no value twice.
pub open spec fn strictly_sorted(s: Seq<Seq<char>>) -> bool {
    forall|i: int, j: int| 0 <= i < j < s.len() ==> lex_lt(#[trigger] s[i], #[trigger] s[j])
}

/// Whether `a` sorts strictly before `b`.
pub fn lex_less(a: &Vec<char>, b: &Vec<char>) -> (r: bool)
    ensures
        r == lex_lt(a@, b@),
{
    let mut i: usize = 0;
    assert(a@.skip(0) == a@ && b@.skip(0) == b@);
    while i < a.len() && i < b.len() && a[i] == b[i]
        invariant
            i <= a.len(),
            i <= b.len(),
            lex_lt(a@, b@) == lex_lt(a@.skip(i as int), b@.skip(i as int)),
        decreases a.len() - i,
    {
        assert(a@.skip(i as int).drop_first() == a@.skip(i + 1));
        assert(b@.skip(i as int).drop_first() == b@.skip(i + 1));
        i += 1;
    }
    if i == a.len() {
        i < b.len()
    } else if i == b.len() {
        false
    } else {
        assert(a@.skip(i as int)[0] == a@[i as int] && b@.skip(i as int)[0] == b@[i as int]);
        a[i] < b[i]
    }
}

/// Whether `a` and `b` hold the same characters.
pub fn chars_equal(a: &Vec<char>, b: &Vec<char>) -> (r: bool)
    ensures
        r == (a@ == b@),
{
    if a.len() != b.len() {
        return false;
    }
    let mut i: usize = 0;
    while i < a.len()
        invariant
            i <= a.len(),
            a.len() == b.len(),
            forall|j: int| 0 <= j < i ==> a@[j] == b@[j],
        decreases a.len() - i,
    {
        if a[i] != b[i] {
            return false;
        }
        i += 1;
    }
    assert(a@ =~= b@);
    true
}

/// Inserts `x` into the strictly sorted `v`, unless `v` already holds it.
pub fn insert_sorted(v: &mut Vec<Vec<char>>, x: Vec<char>)
    requires
        strictly_sorted(crate::text::cviews(old(v)@)),
    ensures
        strictly_sorted(crate::text::cviews(final(v)@)),
        crate::text::cviews(final(v)@).to_set() == crate::text::cviews(old(v)@).to_set().insert(x@),
{
    let ghost old_s = crate::text::cviews(v@);
    let mut p: usize = 0;
    while p < v.len() && lex_less(&v[p], &x)
        invariant
            p <= v.len(),
            crate::text::cviews(v@) == old_s,
            forall|k: int| 0 <= k < p ==> lex_lt(#[trigger] old_s[k], x@),
        decreases v.len() - p,
    {
        p += 1;
    }
    if p < v.len() && chars_equal(&v[p], &x) {
        assert(old_s[p as int] == x@);
        assert(old_s.to_set() =~= old_s.to_set().insert(x@)) by {
            assert(old_s.contains(x@));
        }
        return;
    }
    proof {
        if p < old_s.len() {
            lemma_lex_total(old_s[p as int], x@);
            assert(lex_lt(x@, old_s[p as int]));
            assert forall|j: int| p <= j < old_s.len() implies lex_lt(x@, #[trigger] old_s[j]) by {
                if j > p {
                    lemma_lex_transitive(x@, old_s[p as int], old_s[j]);
                }
            }
        }
    }
    v.insert(p, x);
    let ghost new_s = crate::text::cviews(v@);
    assert(new_s =~= old_s.insert(p as int, x@));
    assert forall|i: int, j: int| 0 <= i < j < new_s.len() implies lex_lt(
        #[trigger] new_s[i],
        #[trigger] new_s[j],
    ) by {
        if i < p && j > p {
            assert(new_s[i] == old_s[i]);
            assert(new_s[j] == old_s[j - 1]);
            assert(lex_lt(old_s[i], x@));
            lemma_lex_transitive(old_s[i], x@, old_s[j - 1]);
        }
    }
    assert(new_s.to_set() =~= old_s.to_set().insert(x@)) by {
        assert forall|e: Seq<char>| new_s.to_set().contains(e) <==> old_s.to_set().insert(x@).contains(e) by {
            if new_s.contains(e) {
                let k = choose|k: int| 0 <= k < new_s.len() && new_s[k] == e;
                if k < p {
                    assert(old_s[k] == e);
                } else if k > p {
                    assert(old_s[k - 1] == e);
                }
            }
            if old_s.contains(e) {
                let k = choose|k: int| 0 <= k < old_s.len() && old_s[k] == e;
                if k < p {
                    assert(new_s[k] == e);
                } else {
                    assert(new_s[k + 1] == e);
                }
            }
            if e == x@ {
                assert(new_s[p as int] == e);
            }
        }
    }
}

} // verus!
