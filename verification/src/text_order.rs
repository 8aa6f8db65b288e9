//! Lexicographic comparison of char sequences, with a verified executable
//! comparator and the order laws the sorting proofs need.

use vstd::prelude::*;
use vstd::relations::total_ordering;
use core::cmp::Ordering;

verus! {

/// Three-way lexicographic comparison of two char sequences by code point.
pub open spec fn lex_cmp(a: Seq<char>, b: Seq<char>) -> Ordering
    decreases a.len(),
{
    if a.len() == 0 && b.len() == 0 {
        Ordering::Equal
    } else if a.len() == 0 {
        Ordering::Less
    } else if b.len() == 0 {
        Ordering::Greater
    } else if (a[0] as int) < (b[0] as int) {
        Ordering::Less
    } else if (a[0] as int) > (b[0] as int) {
        Ordering::Greater
    } else {
        lex_cmp(a.drop_first(), b.drop_first())
    }
}

/// `a` is at or before `b` in lexicographic order.
pub open spec fn lex_le(a: Seq<char>, b: Seq<char>) -> bool {
    lex_cmp(a, b) != Ordering::Greater
}

pub proof fn lemma_lex_cmp_refl(a: Seq<char>)
    ensures
        lex_cmp(a, a) == Ordering::Equal,
    decreases a.len(),
{
    if a.len() > 0 {
        lemma_lex_cmp_refl(a.drop_first());
    }
}

pub proof fn lemma_lex_cmp_eq(a: Seq<char>, b: Seq<char>)
    requires
        lex_cmp(a, b) == Ordering::Equal,
    ensures
        a =~= b,
    decreases a.len(),
{
    if a.len() > 0 && b.len() > 0 && (a[0] as int) == (b[0] as int) {
        assert(a[0] == b[0]);
        lemma_lex_cmp_eq(a.drop_first(), b.drop_first());
        assert(a =~= seq![a[0]] + a.drop_first());
        assert(b =~= seq![b[0]] + b.drop_first());
    }
}

pub proof fn lemma_lex_cmp_antisym(a: Seq<char>, b: Seq<char>)
    ensures
        (lex_cmp(a, b) == Ordering::Less) <==> (lex_cmp(b, a) == Ordering::Greater),
    decreases a.len(),
{
    if a.len() > 0 && b.len() > 0 && (a[0] as int) == (b[0] as int) {
        lemma_lex_cmp_antisym(a.drop_first(), b.drop_first());
    }
}

pub proof fn lemma_lex_le_trans(a: Seq<char>, b: Seq<char>, c: Seq<char>)
    requires
        lex_le(a, b),
        lex_le(b, c),
    ensures
        lex_le(a, c),
    decreases a.len(),
{
    if a.len() > 0 && b.len() > 0 && c.len() > 0 {
        if (a[0] as int) == (b[0] as int) && (b[0] as int) == (c[0] as int) {
            lemma_lex_le_trans(a.drop_first(), b.drop_first(), c.drop_first());
        }
    }
}


/// A lawful three-way comparison: reflexively `Equal`, `Equal` only on equal
/// values, antisymmetric, and transitive in its non-`Greater` relation.
pub open spec fn cmp_lawful<A>(c: spec_fn(A, A) -> Ordering) -> bool {
    &&& forall|x: A| #[trigger] c(x, x) == Ordering::Equal
    &&& forall|x: A, y: A| #[trigger] c(x, y) == Ordering::Equal ==> x == y
    &&& forall|x: A, y: A| (#[trigger] c(x, y) == Ordering::Less) <==> c(y, x) == Ordering::Greater
    &&& forall|x: A, y: A, z: A|
        #![trigger c(x, y), c(y, z)]
        c(x, y) != Ordering::Greater && c(y, z) != Ordering::Greater ==> c(x, z)
            != Ordering::Greater
}

/// The at-or-before relation a three-way comparison induces.
pub open spec fn le_of<A>(c: spec_fn(A, A) -> Ordering) -> spec_fn(A, A) -> bool {
    |a: A, b: A| c(a, b) != Ordering::Greater
}

/// A lawful comparison induces a total order.
pub proof fn lemma_lawful_total_ordering<A>(c: spec_fn(A, A) -> Ordering)
    requires
        cmp_lawful(c),
    ensures
        total_ordering(le_of(c)),
{
    let le = le_of(c);
    assert forall|x: A| #[trigger] le(x, x) by {
        assert(c(x, x) == Ordering::Equal);
    }
    assert forall|x: A, y: A| #[trigger] le(x, y) && #[trigger] le(y, x) implies x == y by {
        if c(x, y) == Ordering::Less {
            assert(c(y, x) == Ordering::Greater);
        }
        assert(c(x, y) == Ordering::Equal);
    }
    assert forall|x: A, y: A, z: A| #[trigger] le(x, y) && #[trigger] le(y, z) implies le(
        x,
        z,
    ) by {
        assert(c(x, y) != Ordering::Greater && c(y, z) != Ordering::Greater);
    }
    assert forall|x: A, y: A| #[trigger] le(x, y) || #[trigger] le(y, x) by {
        if c(x, y) == Ordering::Greater {
            assert(c(y, x) == Ordering::Less);
        }
    }
}

/// The lexicographic comparison as a function value.
pub open spec fn lex_cmp_rel() -> spec_fn(Seq<char>, Seq<char>) -> Ordering {
    |a: Seq<char>, b: Seq<char>| lex_cmp(a, b)
}

/// The lexicographic comparison is lawful.
pub proof fn lemma_lex_cmp_lawful()
    ensures
        cmp_lawful(lex_cmp_rel()),
{
    let c = lex_cmp_rel();
    assert forall|x: Seq<char>| #[trigger] c(x, x) == Ordering::Equal by {
        lemma_lex_cmp_refl(x);
    }
    assert forall|x: Seq<char>, y: Seq<char>| #[trigger] c(x, y) == Ordering::Equal implies x
        == y by {
        lemma_lex_cmp_eq(x, y);
    }
    assert forall|x: Seq<char>, y: Seq<char>| (#[trigger] c(x, y) == Ordering::Less) <==> c(y, x)
        == Ordering::Greater by {
        lemma_lex_cmp_antisym(x, y);
    }
    assert forall|x: Seq<char>, y: Seq<char>, z: Seq<char>|
        #![trigger c(x, y), c(y, z)]
        c(x, y) != Ordering::Greater && c(y, z) != Ordering::Greater implies c(x, z)
        != Ordering::Greater by {
        lemma_lex_le_trans(x, y, z);
    }
}

/// Lexicographic composition of two lawful comparisons through projections.
pub open spec fn lex2_cmp<T, A, B>(
    ca: spec_fn(A, A) -> Ordering,
    cb: spec_fn(B, B) -> Ordering,
    f: spec_fn(T) -> A,
    g: spec_fn(T) -> B,
) -> spec_fn(T, T) -> Ordering {
    |x: T, y: T|
        if ca(f(x), f(y)) != Ordering::Equal {
            ca(f(x), f(y))
        } else {
            cb(g(x), g(y))
        }
}

/// The lexicographic composition of lawful comparisons through jointly
/// injective projections is lawful.
pub proof fn lemma_lex2_lawful<T, A, B>(
    ca: spec_fn(A, A) -> Ordering,
    cb: spec_fn(B, B) -> Ordering,
    f: spec_fn(T) -> A,
    g: spec_fn(T) -> B,
)
    requires
        cmp_lawful(ca),
        cmp_lawful(cb),
        forall|x: T, y: T| #![trigger f(x), f(y)] f(x) == f(y) && g(x) == g(y) ==> x == y,
    ensures
        cmp_lawful(lex2_cmp(ca, cb, f, g)),
{
    let c = lex2_cmp(ca, cb, f, g);
    assert forall|x: T| #[trigger] c(x, x) == Ordering::Equal by {
        assert(ca(f(x), f(x)) == Ordering::Equal);
        assert(cb(g(x), g(x)) == Ordering::Equal);
    }
    assert forall|x: T, y: T| #[trigger] c(x, y) == Ordering::Equal implies x == y by {
        assert(ca(f(x), f(y)) == Ordering::Equal);
        assert(cb(g(x), g(y)) == Ordering::Equal);
        assert(f(x) == f(y) && g(x) == g(y));
    }
    assert forall|x: T, y: T| (#[trigger] c(x, y) == Ordering::Less) <==> c(y, x)
        == Ordering::Greater by {
        if ca(f(x), f(y)) == Ordering::Equal {
            assert(f(x) == f(y));
            if ca(f(y), f(x)) != Ordering::Equal {
                if ca(f(y), f(x)) == Ordering::Less {
                    assert(ca(f(x), f(y)) == Ordering::Greater);
                }
                assert(false);
            }
        } else if ca(f(x), f(y)) == Ordering::Less {
            assert(ca(f(y), f(x)) == Ordering::Greater);
        } else {
            assert(ca(f(x), f(y)) == Ordering::Greater);
            assert(ca(f(y), f(x)) == Ordering::Less);
        }
    }
    assert forall|x: T, y: T, z: T|
        #![trigger c(x, y), c(y, z)]
        c(x, y) != Ordering::Greater && c(y, z) != Ordering::Greater implies c(x, z)
        != Ordering::Greater by {
        let axy = ca(f(x), f(y));
        let ayz = ca(f(y), f(z));
        assert(axy != Ordering::Greater && ayz != Ordering::Greater);
        assert(ca(f(x), f(z)) != Ordering::Greater);
        if c(x, z) == Ordering::Greater {
            assert(ca(f(x), f(z)) == Ordering::Equal);
            assert(f(x) == f(z));
            if axy == Ordering::Less {
                assert(ca(f(y), f(x)) == Ordering::Greater);
                assert(ca(f(y), f(z)) == Ordering::Greater);
                assert(false);
            }
            assert(axy == Ordering::Equal && f(x) == f(y));
            assert(ayz == Ordering::Equal);
            assert(cb(g(x), g(y)) != Ordering::Greater);
            assert(cb(g(y), g(z)) != Ordering::Greater);
            assert(cb(g(x), g(z)) != Ordering::Greater);
        }
    }
}

/// Element-wise lexicographic comparison of sequences; a shorter sequence
/// precedes any extension of itself.
pub open spec fn seq_cmp<A>(a: Seq<A>, b: Seq<A>, c: spec_fn(A, A) -> Ordering) -> Ordering
    decreases a.len(),
{
    if a.len() == 0 && b.len() == 0 {
        Ordering::Equal
    } else if a.len() == 0 {
        Ordering::Less
    } else if b.len() == 0 {
        Ordering::Greater
    } else if c(a[0], b[0]) != Ordering::Equal {
        c(a[0], b[0])
    } else {
        seq_cmp(a.drop_first(), b.drop_first(), c)
    }
}

/// The sequence comparison induced by `c`, as a function value.
pub open spec fn seq_cmp_rel<A>(c: spec_fn(A, A) -> Ordering) -> spec_fn(
    Seq<A>,
    Seq<A>,
) -> Ordering {
    |a: Seq<A>, b: Seq<A>| seq_cmp(a, b, c)
}

proof fn lemma_seq_cmp_refl<A>(a: Seq<A>, c: spec_fn(A, A) -> Ordering)
    requires
        cmp_lawful(c),
    ensures
        seq_cmp(a, a, c) == Ordering::Equal,
    decreases a.len(),
{
    if a.len() > 0 {
        assert(c(a[0], a[0]) == Ordering::Equal);
        lemma_seq_cmp_refl(a.drop_first(), c);
    }
}

proof fn lemma_seq_cmp_eq<A>(a: Seq<A>, b: Seq<A>, c: spec_fn(A, A) -> Ordering)
    requires
        cmp_lawful(c),
        seq_cmp(a, b, c) == Ordering::Equal,
    ensures
        a =~= b,
    decreases a.len(),
{
    if a.len() > 0 && b.len() > 0 && c(a[0], b[0]) == Ordering::Equal {
        assert(a[0] == b[0]);
        lemma_seq_cmp_eq(a.drop_first(), b.drop_first(), c);
        assert(a =~= seq![a[0]] + a.drop_first());
        assert(b =~= seq![b[0]] + b.drop_first());
    }
}

proof fn lemma_seq_cmp_antisym<A>(a: Seq<A>, b: Seq<A>, c: spec_fn(A, A) -> Ordering)
    requires
        cmp_lawful(c),
    ensures
        (seq_cmp(a, b, c) == Ordering::Less) <==> (seq_cmp(b, a, c) == Ordering::Greater),
    decreases a.len(),
{
    if a.len() > 0 && b.len() > 0 {
        if c(a[0], b[0]) == Ordering::Equal {
            assert(a[0] == b[0]);
            assert(c(b[0], a[0]) == Ordering::Equal);
            lemma_seq_cmp_antisym(a.drop_first(), b.drop_first(), c);
        } else if c(a[0], b[0]) == Ordering::Less {
            assert(c(b[0], a[0]) == Ordering::Greater);
        } else {
            assert(c(b[0], a[0]) == Ordering::Less);
        }
    }
}

proof fn lemma_seq_cmp_trans<A>(a: Seq<A>, b: Seq<A>, d: Seq<A>, c: spec_fn(A, A) -> Ordering)
    requires
        cmp_lawful(c),
        seq_cmp(a, b, c) != Ordering::Greater,
        seq_cmp(b, d, c) != Ordering::Greater,
    ensures
        seq_cmp(a, d, c) != Ordering::Greater,
    decreases a.len(),
{
    if a.len() > 0 && b.len() > 0 && d.len() > 0 {
        let x = c(a[0], b[0]);
        let y = c(b[0], d[0]);
        assert(x != Ordering::Greater && y != Ordering::Greater);
        if x == Ordering::Less {
            if c(a[0], d[0]) == Ordering::Equal {
                assert(a[0] == d[0]);
                assert(c(b[0], a[0]) == Ordering::Greater);
                assert(false);
            } else if c(a[0], d[0]) == Ordering::Greater {
                assert(false);
            }
        } else {
            assert(a[0] == b[0]);
            if y == Ordering::Less {
                assert(c(a[0], d[0]) == Ordering::Less);
            } else {
                assert(b[0] == d[0]);
                assert(c(a[0], d[0]) == Ordering::Equal);
                lemma_seq_cmp_trans(a.drop_first(), b.drop_first(), d.drop_first(), c);
            }
        }
    }
}

/// Element-wise lexicographic comparison by a lawful comparison is lawful.
pub proof fn lemma_seq_cmp_lawful<A>(c: spec_fn(A, A) -> Ordering)
    requires
        cmp_lawful(c),
    ensures
        cmp_lawful(seq_cmp_rel(c)),
{
    let sc = seq_cmp_rel(c);
    assert forall|x: Seq<A>| #[trigger] sc(x, x) == Ordering::Equal by {
        lemma_seq_cmp_refl(x, c);
    }
    assert forall|x: Seq<A>, y: Seq<A>| #[trigger] sc(x, y) == Ordering::Equal implies x == y by {
        lemma_seq_cmp_eq(x, y, c);
    }
    assert forall|x: Seq<A>, y: Seq<A>| (#[trigger] sc(x, y) == Ordering::Less) <==> sc(y, x)
        == Ordering::Greater by {
        lemma_seq_cmp_antisym(x, y, c);
    }
    assert forall|x: Seq<A>, y: Seq<A>, z: Seq<A>|
        #![trigger sc(x, y), sc(y, z)]
        sc(x, y) != Ordering::Greater && sc(y, z) != Ordering::Greater implies sc(x, z)
        != Ordering::Greater by {
        lemma_seq_cmp_trans(x, y, z, c);
    }
}

/// Compares two strings lexicographically by char code point.
#[verifier::loop_isolation(false)]
pub fn str_cmp(a: &str, b: &str) -> (r: Ordering)
    ensures
        r == lex_cmp(a@, b@),
{
    let na = a.unicode_len();
    let nb = b.unicode_len();
    let mut i: usize = 0;
    proof {
        assert(a@.skip(0) =~= a@);
        assert(b@.skip(0) =~= b@);
    }
    while i < na && i < nb
        invariant
            i <= na,
            i <= nb,
            lex_cmp(a@, b@) == lex_cmp(a@.skip(i as int), b@.skip(i as int)),
        decreases na - i,
    {
        let ca = a.get_char(i);
        let cb = b.get_char(i);
        let ua = ca as u32;
        let ub = cb as u32;
        proof {
            assert(a@.skip(i as int)[0] == a@[i as int]);
            assert(b@.skip(i as int)[0] == b@[i as int]);
        }
        if ua < ub {
            proof {
                assert((ca as int) < (cb as int));
            }
            return Ordering::Less;
        }
        if ua > ub {
            proof {
                assert((ca as int) > (cb as int));
            }
            return Ordering::Greater;
        }
        proof {
            assert((ca as int) == (cb as int));
        }
        proof {
            assert(a@.skip(i as int).drop_first() =~= a@.skip(i + 1));
            assert(b@.skip(i as int).drop_first() =~= b@.skip(i + 1));
        }
        i = i + 1;
    }
    proof {
        assert(a@.skip(i as int).len() == na - i);
        assert(b@.skip(i as int).len() == nb - i);
    }
    if na == nb {
        Ordering::Equal
    } else if i == na {
        Ordering::Less
    } else {
        Ordering::Greater
    }
}

} // verus!
