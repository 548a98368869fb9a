//! Dictionary order of byte strings and texts.

use vstd::prelude::*;

verus! {

/// Which of two values comes first.
#[derive(Clone, Copy, Debug, PartialEq, Eq, Structural)]
pub enum Rank {
    Before,
    Same,
    After,
}

/// Whether `a` and `b` agree up to `k`, where `a` ends or has the smaller item.
pub open spec fn differs_below(a: Seq<int>, b: Seq<int>, k: int) -> bool {
    &&& 0 <= k <= a.len()
    &&& k < b.len()
    &&& a.take(k) == b.take(k)
    &&& k == a.len() || a[k] < b[k]
}

/// Whether `a` comes before `b` in dictionary order.
pub open spec fn before(a: Seq<int>, b: Seq<int>) -> bool {
    exists|k: int| differs_below(a, b, k)
}

/// The code points of a text.
pub open spec fn code_points(s: Seq<char>) -> Seq<int> {
    s.map_values(|c: char| c as int)
}

/// The values of a byte string.
pub open spec fn byte_values(s: Seq<u8>) -> Seq<int> {
    s.map_values(|b: u8| b as int)
}

/// Dictionary order is transitive.
pub proof fn before_is_transitive(a: Seq<int>, b: Seq<int>, c: Seq<int>)
    requires
        before(a, b),
        before(b, c),
    ensures
        before(a, c),
{
    let i = choose|k: int| differs_below(a, b, k);
    let j = choose|k: int| differs_below(b, c, k);
    let k = if i < j {
        i
    } else {
        j
    };
    assert(a.take(k) =~= b.take(k)) by {
        assert(a.take(i).take(k) =~= a.take(k));
        assert(b.take(i).take(k) =~= b.take(k));
    }
    assert(b.take(k) =~= c.take(k)) by {
        assert(b.take(j).take(k) =~= b.take(k));
        assert(c.take(j).take(k) =~= c.take(k));
    }
    if i < j {
        assert(b.take(j)[i] == c.take(j)[i]);
        assert(b[i] == c[i]);
    } else if j < i {
        assert(a.take(i)[j] == b.take(i)[j]);
        assert(a[j] == b[j]);
    }
    assert(differs_below(a, c, k));
}

/// Nothing comes before itself, and no two come before each other.
pub proof fn before_is_asymmetric(a: Seq<int>, b: Seq<int>)
    requires
        before(a, b),
    ensures
        !before(b, a),
        a != b,
{
    let i = choose|k: int| differs_below(a, b, k);
    if before(b, a) {
        let j = choose|k: int| differs_below(b, a, k);
        if i < j {
            assert(b.take(j)[i] == a.take(j)[i]);
        } else if j < i {
            assert(a.take(i)[j] == b.take(i)[j]);
        }
    }
}

proof fn lemma_total_from(a: Seq<int>, b: Seq<int>, k: int)
    requires
        0 <= k <= a.len(),
        k <= b.len(),
        a.take(k) == b.take(k),
    ensures
        before(a, b) || a == b || before(b, a),
    decreases a.len() - k,
{
    if k == a.len() && k == b.len() {
        assert(a.take(k) =~= a);
        assert(b.take(k) =~= b);
    } else if k == a.len() {
        assert(differs_below(a, b, k));
    } else if k == b.len() {
        assert(differs_below(b, a, k));
    } else if a[k] < b[k] {
        assert(differs_below(a, b, k));
    } else if b[k] < a[k] {
        assert(differs_below(b, a, k));
    } else {
        assert(a.take(k + 1) =~= a.take(k).push(a[k]));
        assert(b.take(k + 1) =~= b.take(k).push(b[k]));
        lemma_total_from(a, b, k + 1);
    }
}

/// Of two different values one comes before the other.
pub proof fn before_is_total(a: Seq<int>, b: Seq<int>)
    ensures
        before(a, b) || a == b || before(b, a),
{
    assert(a.take(0) =~= b.take(0));
    lemma_total_from(a, b, 0);
}

/// Texts with the same code points are the same.
pub proof fn code_points_are_injective(a: Seq<char>, b: Seq<char>)
    requires
        code_points(a) == code_points(b),
    ensures
        a == b,
{
    assert(a =~= b) by {
        assert(a.len() == code_points(a).len());
        assert(b.len() == code_points(b).len());
        assert forall|i: int| 0 <= i < a.len() implies a[i] == b[i] by {
            assert(code_points(a)[i] == a[i] as int);
            assert(code_points(b)[i] == b[i] as int);
        }
    }
}

/// Byte strings with the same values are the same.
pub proof fn byte_values_are_injective(a: Seq<u8>, b: Seq<u8>)
    requires
        byte_values(a) == byte_values(b),
    ensures
        a == b,
{
    assert(a =~= b) by {
        assert(a.len() == byte_values(a).len());
        assert(b.len() == byte_values(b).len());
        assert forall|i: int| 0 <= i < a.len() implies a[i] == b[i] by {
            assert(byte_values(a)[i] == a[i] as int);
            assert(byte_values(b)[i] == b[i] as int);
        }
    }
}

/// Compares two byte strings.
pub fn rank_bytes(a: &[u8], b: &[u8]) -> (rank: Rank)
    ensures
        match rank {
            Rank::Before => before(byte_values(a@), byte_values(b@)),
            Rank::Same => a@ == b@,
            Rank::After => before(byte_values(b@), byte_values(a@)),
        },
{
    let ghost x = byte_values(a@);
    let ghost y = byte_values(b@);
    let mut i: usize = 0;
    while i < a.len() && i < b.len()
        invariant
            x == byte_values(a@),
            y == byte_values(b@),
            i <= a.len(),
            i <= b.len(),
            x.take(i as int) == y.take(i as int),
        decreases a.len() - i,
    {
        if a[i] < b[i] {
            assert(differs_below(x, y, i as int));
            return Rank::Before;
        }
        if b[i] < a[i] {
            assert(differs_below(y, x, i as int));
            return Rank::After;
        }
        i = i + 1;
        assert(x.take(i as int) =~= x.take(i - 1).push(x[i - 1]));
        assert(y.take(i as int) =~= y.take(i - 1).push(y[i - 1]));
    }
    if a.len() == b.len() {
        assert(x.take(i as int) =~= x);
        assert(y.take(i as int) =~= y);
        assert(a@ =~= b@) by {
            assert forall|j: int| 0 <= j < a@.len() implies a@[j] == b@[j] by {
                assert(x[j] == y[j]);
            }
        }
        Rank::Same
    } else if a.len() < b.len() {
        assert(differs_below(x, y, i as int));
        Rank::Before
    } else {
        assert(differs_below(y, x, i as int));
        Rank::After
    }
}

/// Compares two texts.
pub fn rank_chars(a: &[char], b: &[char]) -> (rank: Rank)
    ensures
        match rank {
            Rank::Before => before(code_points(a@), code_points(b@)),
            Rank::Same => a@ == b@,
            Rank::After => before(code_points(b@), code_points(a@)),
        },
{
    let ghost x = code_points(a@);
    let ghost y = code_points(b@);
    let mut i: usize = 0;
    while i < a.len() && i < b.len()
        invariant
            x == code_points(a@),
            y == code_points(b@),
            i <= a.len(),
            i <= b.len(),
            x.take(i as int) == y.take(i as int),
        decreases a.len() - i,
    {
        if a[i] < b[i] {
            assert(differs_below(x, y, i as int));
            return Rank::Before;
        }
        if b[i] < a[i] {
            assert(differs_below(y, x, i as int));
            return Rank::After;
        }
        i = i + 1;
        assert(x.take(i as int) =~= x.take(i - 1).push(x[i - 1]));
        assert(y.take(i as int) =~= y.take(i - 1).push(y[i - 1]));
    }
    if a.len() == b.len() {
        assert(x.take(i as int) =~= x);
        assert(y.take(i as int) =~= y);
        assert(a@ =~= b@) by {
            assert forall|j: int| 0 <= j < a@.len() implies a@[j] == b@[j] by {
                assert(x[j] == y[j]);
            }
        }
        Rank::Same
    } else if a.len() < b.len() {
        assert(differs_below(x, y, i as int));
        Rank::Before
    } else {
        assert(differs_below(y, x, i as int));
        Rank::After
    }
}

/// Two values that agree up to a place are ordered by what stands there, and one
/// that ends there comes first.
pub proof fn first_difference_decides(a: Seq<int>, b: Seq<int>, k: int)
    requires
        0 <= k <= a.len(),
        k < b.len(),
        forall|i: int| 0 <= i < k ==> #[trigger] a[i] == b[i],
    ensures
        k == a.len() ==> before(a, b),
        k < a.len() && a[k] < b[k] ==> before(a, b),
        k < a.len() && a[k] > b[k] ==> before(b, a) && !before(a, b),
{
    assert(a.take(k) =~= b.take(k));
    if k == a.len() || a[k] < b[k] {
        assert(differs_below(a, b, k));
    } else if a[k] > b[k] {
        assert(differs_below(b, a, k));
        before_is_asymmetric(b, a);
    }
}

} // verus!
