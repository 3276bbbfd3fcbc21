//! Code-point order on strings and the sorted set of a list of strings, as
//! a `BTreeSet<&str>` yields it.

use vstd::prelude::*;

verus! {

/// `a` sorts before `b` (by code point, a proper prefix first). For strings
/// this is the order of their UTF-8 bytes, which is `str`'s `Ord`.
pub open spec fn lex_lt(a: Seq<char>, b: Seq<char>) -> bool
    decreases a.len(),
{
    if a.len() == 0 {
        b.len() > 0
    } else if b.len() == 0 {
        false
    } else if a[0] != b[0] {
        a[0] < b[0]
    } else {
        lex_lt(a.drop_first(), b.drop_first())
    }
}

pub proof fn lemma_lex_irreflexive(a: Seq<char>)
    ensures !lex_lt(a, a),
    decreases a.len(),
{
    if a.len() > 0 {
        lemma_lex_irreflexive(a.drop_first());
    }
}

pub proof fn lemma_lex_asymmetric(a: Seq<char>, b: Seq<char>)
    ensures !(lex_lt(a, b) && lex_lt(b, a)),
    decreases a.len(),
{
    if a.len() > 0 && b.len() > 0 && a[0] == b[0] {
        lemma_lex_asymmetric(a.drop_first(), b.drop_first());
    }
}

pub proof fn lemma_lex_transitive(a: Seq<char>, b: Seq<char>, c: Seq<char>)
    requires lex_lt(a, b), lex_lt(b, c),
    ensures lex_lt(a, c),
    decreases a.len(),
{
    if a.len() > 0 && b.len() > 0 && c.len() > 0 && a[0] == b[0] && b[0] == c[0] {
        lemma_lex_transitive(a.drop_first(), b.drop_first(), c.drop_first());
    }
}

pub proof fn lemma_lex_total(a: Seq<char>, b: Seq<char>)
    requires a != b,
    ensures lex_lt(a, b) || lex_lt(b, a),
    decreases a.len(),
{
    if a.len() > 0 && b.len() > 0 {
        if a[0] == b[0] {
            if a.drop_first() == b.drop_first() {
                assert(a =~= seq![a[0]] + a.drop_first());
                assert(b =~= seq![b[0]] + b.drop_first());
            }
            lemma_lex_total(a.drop_first(), b.drop_first());
        }
    } else if a.len() == 0 && b.len() == 0 {
        assert(a =~= b);
    }
}

/// Every element sorts strictly before every later one.
pub open spec fn strictly_sorted(s: Seq<Seq<char>>) -> bool {
    forall|i: int, j: int| 0 <= i < j < s.len() ==> lex_lt(#[trigger] s[i], #[trigger] s[j])
}

proof fn lemma_sorted_same_set_equal(a: Seq<Seq<char>>, b: Seq<Seq<char>>)
    requires
        strictly_sorted(a),
        strictly_sorted(b),
        a.to_set() == b.to_set(),
    ensures
        a == b,
    decreases a.len(),
{
    if a.len() == 0 {
        if b.len() > 0 {
            assert(b.to_set().contains(b[0]));
            assert(!a.to_set().contains(b[0]));
        }
        assert(a =~= b);
    } else if b.len() == 0 {
        assert(a.to_set().contains(a[0]));
        assert(!b.to_set().contains(a[0]));
    } else {
        let x = a[0];
        let y = b[0];
        if x != y {
            assert(b.to_set().contains(x));
            let j = choose|j: int| 0 <= j < b.len() && b[j] == x;
            assert(a.to_set().contains(y));
            let k = choose|k: int| 0 <= k < a.len() && a[k] == y;
            assert(j > 0 && k > 0);
            assert(lex_lt(y, x));
            assert(lex_lt(x, y));
            lemma_lex_asymmetric(x, y);
        }
        let a1 = a.drop_first();
        let b1 = b.drop_first();
        assert forall|e: Seq<char>| a1.to_set().contains(e) <==> b1.to_set().contains(e) by {
            if a1.to_set().contains(e) {
                let i = choose|i: int| 0 <= i < a1.len() && a1[i] == e;
                assert(a[i + 1] == e);
                assert(lex_lt(x, e));
                lemma_lex_irreflexive(x);
                assert(b.to_set().contains(e));
                let j = choose|j: int| 0 <= j < b.len() && b[j] == e;
                assert(j != 0);
                assert(b1[j - 1] == e);
            }
            if b1.to_set().contains(e) {
                let j = choose|j: int| 0 <= j < b1.len() && b1[j] == e;
                assert(b[j + 1] == e);
                assert(lex_lt(y, e));
                lemma_lex_irreflexive(y);
                assert(a.to_set().contains(e));
                let i = choose|i: int| 0 <= i < a.len() && a[i] == e;
                assert(i != 0);
                assert(a1[i - 1] == e);
            }
        }
        assert(a1.to_set() =~= b1.to_set());
        lemma_sorted_same_set_equal(a1, b1);
        assert(a =~= seq![x] + a1);
        assert(b =~= seq![y] + b1);
    }
}

/// The elements of a set of strings in ascending order, each once.
pub open spec fn sorted_elements(s: Set<Seq<char>>) -> Seq<Seq<char>> {
    choose|r: Seq<Seq<char>>| strictly_sorted(r) && r.to_set() == s
}

pub proof fn lemma_sorted_elements_unique(r: Seq<Seq<char>>, s: Set<Seq<char>>)
    requires
        strictly_sorted(r),
        r.to_set() == s,
    ensures
        sorted_elements(s) == r,
{
    let c = sorted_elements(s);
    assert(strictly_sorted(c) && c.to_set() == s);
    lemma_sorted_same_set_equal(c, r);
}

/// Whether `a` sorts strictly before `b`.
pub fn chars_lt(a: &Vec<char>, b: &Vec<char>) -> (r: bool)
    ensures
        r == lex_lt(a@, b@),
{
    let mut i: usize = 0;
    assert(a@.subrange(0, a@.len() as int) =~= a@);
    assert(b@.subrange(0, b@.len() as int) =~= b@);
    while i < a.len() && i < b.len() && a[i] == b[i]
        invariant
            i <= a@.len(),
            i <= b@.len(),
            lex_lt(a@, b@) == lex_lt(a@.subrange(i as int, a@.len() as int), b@.subrange(i as int, b@.len() as int)),
        decreases a.len() - i,
    {
        let ghost sa = a@.subrange(i as int, a@.len() as int);
        let ghost sb = b@.subrange(i as int, b@.len() as int);
        assert(sa.drop_first() =~= a@.subrange(i as int + 1, a@.len() as int));
        assert(sb.drop_first() =~= b@.subrange(i as int + 1, b@.len() as int));
        i = i + 1;
    }
    let ghost sa = a@.subrange(i as int, a@.len() as int);
    let ghost sb = b@.subrange(i as int, b@.len() as int);
    if i == a.len() {
        i < b.len()
    } else if i == b.len() {
        false
    } else {
        assert(sa[0] == a@[i as int] && sb[0] == b@[i as int]);
        a[i] < b[i]
    }
}

/// Adds `x` to a strictly sorted list unless it is already there.
pub fn insert_sorted(list: &mut Vec<Vec<char>>, x: Vec<char>)
    requires
        strictly_sorted(old(list)@.map_values(|v: Vec<char>| v@)),
    ensures
        strictly_sorted(final(list)@.map_values(|v: Vec<char>| v@)),
        final(list)@.map_values(|v: Vec<char>| v@).to_set()
            == old(list)@.map_values(|v: Vec<char>| v@).to_set().insert(x@),
{
    let ghost s = list@.map_values(|v: Vec<char>| v@);
    let mut p: usize = 0;
    while p < list.len() && chars_lt(&list[p], &x)
        invariant
            p <= list@.len(),
            s == list@.map_values(|v: Vec<char>| v@),
            forall|k: int| 0 <= k < p ==> lex_lt(#[trigger] s[k], x@),
        decreases list.len() - p,
    {
        p = p + 1;
    }
    if p < list.len() && !chars_lt(&x, &list[p]) {
        proof {
            if s[p as int] != x@ {
                lemma_lex_total(s[p as int], x@);
            }
        }
        assert(s[p as int] == x@);
        assert(s.to_set().contains(x@));
        assert(s.to_set().insert(x@) =~= s.to_set());
        return;
    }
    // Every element from `p` on sorts after `x`.
    assert forall|k: int| p <= k < s.len() implies lex_lt(x@, #[trigger] s[k]) by {
        assert(!lex_lt(s[p as int], x@));
        if s[p as int] != x@ {
            lemma_lex_total(s[p as int], x@);
        } else {
            assert(list@[p as int]@ == x@);
        }
        if k > p {
            assert(lex_lt(s[p as int], s[k]));
            lemma_lex_transitive(x@, s[p as int], s[k]);
        }
    }
    list.insert(p, x);
    let ghost t = list@.map_values(|v: Vec<char>| v@);
    assert(t =~= s.subrange(0, p as int).push(x@) + s.subrange(p as int, s.len() as int));
    assert forall|i: int, j: int| 0 <= i < j < t.len() implies lex_lt(#[trigger] t[i], #[trigger] t[j]) by {
        if j < p {
            assert(t[i] == s[i] && t[j] == s[j]);
        } else if j == p {
            assert(t[i] == s[i]);
        } else if i == p {
            assert(t[j] == s[j - 1]);
        } else if i < p {
            assert(t[i] == s[i] && t[j] == s[j - 1]);
            lemma_lex_transitive(s[i], x@, s[j - 1]);
        } else {
            assert(t[i] == s[i - 1] && t[j] == s[j - 1]);
        }
    }
    assert forall|e: Seq<char>| #[trigger] t.to_set().contains(e) <==> s.to_set().insert(x@).contains(e) by {
        if t.to_set().contains(e) {
            let i = choose|i: int| 0 <= i < t.len() && t[i] == e;
            if i < p {
                assert(s[i] == e);
            } else if i > p {
                assert(s[i - 1] == e);
            }
        }
        if s.to_set().contains(e) {
            let i = choose|i: int| 0 <= i < s.len() && s[i] == e;
            if i < p {
                assert(t[i] == e);
            } else {
                assert(t[i + 1] == e);
            }
        }
        if e == x@ {
            assert(t[p as int] == e);
        }
    }
    assert(t.to_set() =~= s.to_set().insert(x@));
}

} // verus!
