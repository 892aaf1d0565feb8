use core::cmp::Ordering;
use vstd::prelude::*;

verus! {

/// A sequence of machine integers read as mathematical integers.
pub open spec fn ints(v: Seq<i64>) -> Seq<int> {
    v.map_values(|x: i64| x as int)
}

/// Lexicographic comparison of two keys of one length, field by field.
pub open spec fn lex_cmp(a: Seq<int>, b: Seq<int>) -> Ordering
    decreases a.len(),
{
    if a.len() == 0 || b.len() == 0 {
        Ordering::Equal
    } else if a[0] < b[0] {
        Ordering::Less
    } else if a[0] > b[0] {
        Ordering::Greater
    } else {
        lex_cmp(a.drop_first(), b.drop_first())
    }
}

/// Keys of one length compare equal exactly when they are equal.
pub proof fn lemma_lex_cmp_equal(a: Seq<int>, b: Seq<int>)
    requires
        a.len() == b.len(),
    ensures
        lex_cmp(a, b) == Ordering::Equal <==> a == b,
    decreases a.len(),
{
    if a.len() > 0 {
        lemma_lex_cmp_equal(a.drop_first(), b.drop_first());
        if a[0] == b[0] && a.drop_first() == b.drop_first() {
            assert(a =~= b) by {
                assert forall|i: int| 0 <= i < a.len() implies a[i] == b[i] by {
                    if i > 0 {
                        assert(a[i] == a.drop_first()[i - 1]);
                        assert(b[i] == b.drop_first()[i - 1]);
                    }
                }
            }
        }
        if a == b {
            assert(a.drop_first() == b.drop_first());
        }
    } else {
        assert(a =~= b);
    }
}

/// Swapping the operands reverses the comparison.
pub proof fn lemma_lex_cmp_antisymmetric(a: Seq<int>, b: Seq<int>)
    ensures
        lex_cmp(a, b) == Ordering::Less <==> lex_cmp(b, a) == Ordering::Greater,
        lex_cmp(a, b) == Ordering::Equal <==> lex_cmp(b, a) == Ordering::Equal,
    decreases a.len(),
{
    if a.len() > 0 && b.len() > 0 {
        lemma_lex_cmp_antisymmetric(a.drop_first(), b.drop_first());
    }
}

/// The comparison is transitive.
pub proof fn lemma_lex_cmp_transitive(a: Seq<int>, b: Seq<int>, c: Seq<int>)
    requires
        a.len() == b.len() == c.len(),
        lex_cmp(a, b) != Ordering::Greater,
        lex_cmp(b, c) != Ordering::Greater,
    ensures
        lex_cmp(a, c) != Ordering::Greater,
        lex_cmp(a, b) == Ordering::Less || lex_cmp(b, c) == Ordering::Less ==> lex_cmp(a, c)
            == Ordering::Less,
    decreases a.len(),
{
    if a.len() > 0 && a[0] == b[0] && b[0] == c[0] {
        lemma_lex_cmp_transitive(a.drop_first(), b.drop_first(), c.drop_first());
    }
}

/// Compares two keys of one length field by field.
pub fn compare_keys(a: &Vec<i64>, b: &Vec<i64>) -> (r: Ordering)
    requires
        a@.len() == b@.len(),
    ensures
        r == lex_cmp(ints(a@), ints(b@)),
{
    let n = a.len();
    let mut i: usize = 0;
    proof {
        assert(ints(a@).skip(0) =~= ints(a@));
        assert(ints(b@).skip(0) =~= ints(b@));
    }
    while i < n
        invariant
            i <= n == a@.len() == b@.len(),
            lex_cmp(ints(a@), ints(b@)) == lex_cmp(
                ints(a@).skip(i as int),
                ints(b@).skip(i as int),
            ),
        decreases n - i,
    {
        proof {
            assert(ints(a@).skip(i as int)[0] == a@[i as int]);
            assert(ints(b@).skip(i as int)[0] == b@[i as int]);
            assert(ints(a@).skip(i as int).drop_first() =~= ints(a@).skip(i as int + 1));
            assert(ints(b@).skip(i as int).drop_first() =~= ints(b@).skip(i as int + 1));
        }
        if a[i] < b[i] {
            return Ordering::Less;
        } else if a[i] > b[i] {
            return Ordering::Greater;
        }
        i = i + 1;
    }
    Ordering::Equal
}

} // verus!
