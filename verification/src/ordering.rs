//! Orders used to arrange records: text in code-point order (the order of
//! `String`), optional instants with absent ones first, and index
//! permutations.

use vstd::prelude::*;

verus! {

/// `a` comes strictly before `b` in lexicographic code-point order.
pub open spec fn text_lt(a: Seq<char>, b: Seq<char>) -> bool
    decreases a.len(),
{
    if a.len() == 0 {
        b.len() > 0
    } else if b.len() == 0 {
        false
    } else if a[0] != b[0] {
        (a[0] as u32) < (b[0] as u32)
    } else {
        text_lt(a.drop_first(), b.drop_first())
    }
}

/// No text comes before itself.
pub proof fn lemma_text_lt_irreflexive(a: Seq<char>)
    ensures
        !text_lt(a, a),
    decreases a.len(),
{
    if a.len() > 0 {
        lemma_text_lt_irreflexive(a.drop_first());
    }
}

/// Of two different texts one comes first, and not both.
pub proof fn lemma_text_lt_total(a: Seq<char>, b: Seq<char>)
    ensures
        a != b ==> (text_lt(a, b) || text_lt(b, a)),
        !(text_lt(a, b) && text_lt(b, a)),
    decreases a.len(),
{
    if a.len() > 0 && b.len() > 0 {
        if a[0] == b[0] {
            lemma_text_lt_total(a.drop_first(), b.drop_first());
            if a.drop_first() == b.drop_first() {
                assert(a =~= seq![a[0]] + a.drop_first());
                assert(b =~= seq![b[0]] + b.drop_first());
            }
        } else if (a[0] as u32) == (b[0] as u32) {
            vstd::utf8::char_u32_cast(a[0], a[0] as u32);
            vstd::utf8::char_u32_cast(b[0], b[0] as u32);
        }
    } else if a.len() == 0 && b.len() == 0 {
        assert(a =~= b);
    }
}

/// Code-point order is transitive.
pub proof fn lemma_text_lt_transitive(a: Seq<char>, b: Seq<char>, c: Seq<char>)
    requires
        text_lt(a, b),
        text_lt(b, c),
    ensures
        text_lt(a, c),
    decreases a.len(),
{
    if a.len() > 0 && b.len() > 0 && c.len() > 0 {
        if a[0] == b[0] && b[0] == c[0] {
            lemma_text_lt_transitive(a.drop_first(), b.drop_first(), c.drop_first());
        } else if a[0] != b[0] && b[0] != c[0] {
            if (a[0] as u32) == (c[0] as u32) {
                vstd::utf8::char_u32_cast(a[0], a[0] as u32);
                vstd::utf8::char_u32_cast(c[0], c[0] as u32);
            }
        }
    }
}

/// Whether `a` comes strictly before `b` in code-point order.
pub fn text_less(a: &[char], b: &[char]) -> (r: bool)
    ensures
        r == text_lt(a@, b@),
{
    let mut i: usize = 0;
    assert(a@.skip(0) =~= a@);
    assert(b@.skip(0) =~= b@);
    while i < a.len() && i < b.len()
        invariant
            i <= a@.len(),
            i <= b@.len(),
            text_lt(a@, b@) == text_lt(a@.skip(i as int), b@.skip(i as int)),
        decreases a@.len() - i,
    {
        if a[i] != b[i] {
            let x = a[i] as u32;
            let y = b[i] as u32;
            assert(a@.skip(i as int)[0] == a@[i as int]);
            assert(b@.skip(i as int)[0] == b@[i as int]);
            return x < y;
        }
        assert(a@.skip(i as int).drop_first() =~= a@.skip(i + 1));
        assert(b@.skip(i as int).drop_first() =~= b@.skip(i + 1));
        i += 1;
    }
    i < b.len()
}

/// Absent instants come first, present ones by value.
pub open spec fn instant_lt(a: Option<i64>, b: Option<i64>) -> bool {
    match (a, b) {
        (None, Some(_)) => true,
        (Some(x), Some(y)) => x < y,
        _ => false,
    }
}

/// Whether `a` comes strictly before `b`, absent instants first.
pub fn instant_less(a: Option<i64>, b: Option<i64>) -> (r: bool)
    ensures
        r == instant_lt(a, b),
{
    match (a, b) {
        (None, Some(_)) => true,
        (Some(x), Some(y)) => x < y,
        _ => false,
    }
}

/// `p` lists each of `0..n` exactly once.
pub open spec fn is_index_permutation(p: Seq<usize>, n: nat) -> bool {
    &&& p.len() == n
    &&& forall|k: int| 0 <= k < p.len() ==> #[trigger] p[k] < n
    &&& forall|k: int, l: int| 0 <= k < l < p.len() ==> p[k] != p[l]
    &&& forall|j: usize| j < n ==> #[trigger] p.contains(j)
}

/// Every entry of `p` comes strictly before every later one.
pub open spec fn ordered_by(p: Seq<usize>, before: spec_fn(usize, usize) -> bool) -> bool {
    forall|k: int, l: int| #![trigger p[k], p[l]] 0 <= k < l < p.len() ==> before(p[k], p[l])
}

/// `before` is a strict order: no entry comes before itself, and of two
/// entries at most one comes before the other.
pub open spec fn asymmetric(before: spec_fn(usize, usize) -> bool) -> bool {
    forall|a: usize, b: usize| #[trigger] before(a, b) ==> !before(b, a)
}

/// Two sequences ordered by the same strict order and holding the same
/// entries are equal.
pub proof fn lemma_ordered_unique(a: Seq<usize>, b: Seq<usize>, before: spec_fn(usize, usize) -> bool)
    requires
        asymmetric(before),
        ordered_by(a, before),
        ordered_by(b, before),
        forall|x: usize| #[trigger] a.contains(x) <==> b.contains(x),
    ensures
        a == b,
    decreases a.len(),
{
    if a.len() == 0 {
        if b.len() > 0 {
            assert(b.contains(b[0]));
            assert(a.contains(b[0]));
        }
        assert(a =~= b);
    } else {
        assert(a.contains(a[0]));
        let m = choose|m: int| 0 <= m < b.len() && b[m] == a[0];
        assert(b.contains(b[0]));
        assert(a.contains(b[0]));
        let l = choose|l: int| 0 <= l < a.len() && a[l] == b[0];
        if m > 0 && l > 0 {
            assert(before(b[0], b[m]));
            assert(before(a[0], a[l]));
        }
        if m > 0 && l == 0 {
            assert(before(b[0], b[m]));
        }
        if l > 0 && m == 0 {
            assert(before(a[0], a[l]));
        }
        assert(a[0] == b[0]);
        let a1 = a.drop_first();
        let b1 = b.drop_first();
        assert forall|x: usize| #[trigger] a1.contains(x) <==> b1.contains(x) by {
            if a1.contains(x) {
                let k = choose|k: int| 0 <= k < a1.len() && a1[k] == x;
                assert(a[k + 1] == x);
                assert(before(a[0], a[k + 1]));
                assert(a.contains(x));
                assert(b.contains(x));
                let j = choose|j: int| 0 <= j < b.len() && b[j] == x;
                if j == 0 {
                    assert(false);
                }
                assert(b1[j - 1] == x);
            }
            if b1.contains(x) {
                let k = choose|k: int| 0 <= k < b1.len() && b1[k] == x;
                assert(b[k + 1] == x);
                assert(before(b[0], b[k + 1]));
                assert(b.contains(x));
                assert(a.contains(x));
                let j = choose|j: int| 0 <= j < a.len() && a[j] == x;
                if j == 0 {
                    assert(false);
                }
                assert(a1[j - 1] == x);
            }
        }
        assert forall|k: int, l: int| #![trigger a1[k], a1[l]] 0 <= k < l < a1.len() implies before(a1[k], a1[l]) by {
            assert(a1[k] == a[k + 1] && a1[l] == a[l + 1]);
        }
        assert forall|k: int, l: int| #![trigger b1[k], b1[l]] 0 <= k < l < b1.len() implies before(b1[k], b1[l]) by {
            assert(b1[k] == b[k + 1] && b1[l] == b[l + 1]);
        }
        lemma_ordered_unique(a1, b1, before);
        assert(a =~= seq![a[0]] + a1);
        assert(b =~= seq![b[0]] + b1);
    }
}

/// `before` is transitive.
pub open spec fn transitive(before: spec_fn(usize, usize) -> bool) -> bool {
    forall|a: usize, b: usize, c: usize| #[trigger] before(a, b) && #[trigger] before(b, c) ==> before(a, c)
}

/// Inserting a new last index keeps a permutation a permutation.
pub proof fn lemma_insert_permutation(old: Seq<usize>, pos: int, n: usize)
    requires
        is_index_permutation(old, n as nat),
        0 <= pos <= old.len(),
    ensures
        is_index_permutation(old.insert(pos, n), (n + 1) as nat),
{
    let new = old.insert(pos, n);
    assert forall|k: int| 0 <= k < new.len() implies #[trigger] new[k] < n + 1 by {
        if k < pos {
            assert(new[k] == old[k]);
        } else if k > pos {
            assert(new[k] == old[k - 1]);
        }
    }
    assert forall|k: int, l: int| 0 <= k < l < new.len() implies new[k] != new[l] by {
        if k < pos && l < pos {
            assert(new[k] == old[k] && new[l] == old[l]);
        } else if k < pos && l > pos {
            assert(new[k] == old[k] && new[l] == old[l - 1]);
        } else if k > pos && l > pos {
            assert(new[k] == old[k - 1] && new[l] == old[l - 1]);
        } else if k == pos {
            assert(new[l] == old[l - 1]);
            assert(old[l - 1] < n);
        } else {
            assert(new[k] == old[k]);
            assert(old[k] < n);
        }
    }
    assert forall|j: usize| j < n + 1 implies #[trigger] new.contains(j) by {
        if j == n {
            assert(new[pos] == n);
        } else {
            assert(old.contains(j));
            let k = choose|k: int| 0 <= k < old.len() && old[k] == j;
            if k < pos {
                assert(new[k] == j);
            } else {
                assert(new[k + 1] == j);
            }
        }
    }
}

/// Inserting `x` after everything that comes before it and before everything
/// that it comes before keeps the order.
pub proof fn lemma_insert_ordered(
    old: Seq<usize>,
    pos: int,
    x: usize,
    before: spec_fn(usize, usize) -> bool,
)
    requires
        ordered_by(old, before),
        transitive(before),
        0 <= pos <= old.len(),
        forall|k: int| 0 <= k < pos ==> before(#[trigger] old[k], x),
        pos < old.len() ==> before(x, old[pos]),
    ensures
        ordered_by(old.insert(pos, x), before),
{
    let new = old.insert(pos, x);
    assert forall|k: int, l: int| 0 <= k < l < new.len() implies #[trigger] before(
        new[k],
        new[l],
    ) by {
        if l < pos {
            assert(new[k] == old[k] && new[l] == old[l]);
        } else if l == pos {
            assert(new[k] == old[k]);
        } else if k < pos {
            assert(new[k] == old[k] && new[l] == old[l - 1]);
            assert(before(old[k], x));
            assert(before(x, old[pos]));
            if l - 1 > pos {
                assert(before(old[pos], old[l - 1]));
                assert(before(x, old[l - 1]));
            }
        } else if k == pos {
            assert(new[l] == old[l - 1]);
            if l - 1 > pos {
                assert(before(old[pos], old[l - 1]));
            }
        } else {
            assert(new[k] == old[k - 1] && new[l] == old[l - 1]);
        }
    }
}

} // verus!
