//! Lexicographic order on text, and the chronological order of timed names
//! (by time, ties by name).
use vstd::prelude::*;
use vstd::relations::{sorted_by, total_ordering};

verus! {

/// Lexicographic order on character sequences, comparing code points. This is
/// the order of `String`'s `Ord`: UTF-8 keeps the order of code points, so the
/// byte-wise order of the encodings is this order.
pub open spec fn lex_le(a: Seq<char>, b: Seq<char>) -> bool
    decreases a.len(),
{
    if a.len() == 0 {
        true
    } else if b.len() == 0 {
        false
    } else if a[0] != b[0] {
        a[0] < b[0]
    } else {
        lex_le(a.drop_first(), b.drop_first())
    }
}

/// Any two sequences are comparable.
pub proof fn lemma_lex_total(a: Seq<char>, b: Seq<char>)
    ensures
        lex_le(a, b) || lex_le(b, a),
    decreases a.len(),
{
    if a.len() > 0 && b.len() > 0 && a[0] == b[0] {
        lemma_lex_total(a.drop_first(), b.drop_first());
    }
}

/// The order is transitive.
pub proof fn lemma_lex_trans(a: Seq<char>, b: Seq<char>, c: Seq<char>)
    requires
        lex_le(a, b),
        lex_le(b, c),
    ensures
        lex_le(a, c),
    decreases a.len(),
{
    if a.len() > 0 && b.len() > 0 && c.len() > 0 && a[0] == b[0] && b[0] == c[0] {
        lemma_lex_trans(a.drop_first(), b.drop_first(), c.drop_first());
    }
}

/// The order is antisymmetric.
pub proof fn lemma_lex_antisym(a: Seq<char>, b: Seq<char>)
    requires
        lex_le(a, b),
        lex_le(b, a),
    ensures
        a == b,
    decreases a.len(),
{
    if a.len() == 0 {
        assert(b.len() == 0);
        assert(a =~= b);
    } else {
        assert(b.len() > 0);
        assert(a[0] == b[0]);
        lemma_lex_antisym(a.drop_first(), b.drop_first());
        assert(a.drop_first().len() == b.drop_first().len());
        assert(a.len() == b.len());
        assert(a =~= b) by {
            assert forall|k: int| 0 <= k < a.len() implies a[k] == b[k] by {
                if k > 0 {
                    assert(a[k] == a.drop_first()[k - 1]);
                    assert(b[k] == b.drop_first()[k - 1]);
                }
            }
        }
    }
}

/// Every sequence comes no later than itself.
pub proof fn lemma_lex_refl(a: Seq<char>)
    ensures
        lex_le(a, a),
    decreases a.len(),
{
    if a.len() > 0 {
        lemma_lex_refl(a.drop_first());
    }
}

/// Chronological order on timed names: by time, and names with equal
/// times lexicographically.
pub open spec fn time_le(a: (i64, Seq<char>), b: (i64, Seq<char>)) -> bool {
    a.0 < b.0 || (a.0 == b.0 && lex_le(a.1, b.1))
}

/// The chronological order as a relation.
pub open spec fn time_order() -> spec_fn((i64, Seq<char>), (i64, Seq<char>)) -> bool {
    |a: (i64, Seq<char>), b: (i64, Seq<char>)| time_le(a, b)
}

/// Every timed name comes no later than itself.
pub proof fn lemma_time_refl(a: (i64, Seq<char>))
    ensures
        time_le(a, a),
{
    lemma_lex_refl(a.1);
}

/// Timed names that come no later than each other are equal.
pub proof fn lemma_time_antisym(a: (i64, Seq<char>), b: (i64, Seq<char>))
    requires
        time_le(a, b),
        time_le(b, a),
    ensures
        a == b,
{
    lemma_lex_antisym(a.1, b.1);
}

/// The chronological order is transitive.
pub proof fn lemma_time_trans(a: (i64, Seq<char>), b: (i64, Seq<char>), c: (i64, Seq<char>))
    requires
        time_le(a, b),
        time_le(b, c),
    ensures
        time_le(a, c),
{
    if a.0 == b.0 && b.0 == c.0 {
        lemma_lex_trans(a.1, b.1, c.1);
    }
}

/// Any two timed names are comparable.
pub proof fn lemma_time_total(a: (i64, Seq<char>), b: (i64, Seq<char>))
    ensures
        time_le(a, b) || time_le(b, a),
{
    lemma_lex_total(a.1, b.1);
}

/// The chronological order is a total order.
pub proof fn lemma_time_total_ordering()
    ensures
        total_ordering(time_order()),
{
    let r = time_order();
    assert forall|x: (i64, Seq<char>)| #[trigger] r(x, x) by {
        lemma_time_refl(x);
    }
    assert forall|x: (i64, Seq<char>), y: (i64, Seq<char>)| #[trigger] r(x, y) && #[trigger] r(y, x) implies x == y by {
        lemma_time_antisym(x, y);
    }
    assert forall|x: (i64, Seq<char>), y: (i64, Seq<char>), z: (i64, Seq<char>)|
        #[trigger] r(x, y) && #[trigger] r(y, z) implies r(x, z) by {
        lemma_time_trans(x, y, z);
    }
    assert forall|x: (i64, Seq<char>), y: (i64, Seq<char>)| #[trigger] r(x, y) || #[trigger] r(y, x) by {
        lemma_time_total(x, y);
    }
}

/// The timed names of `s` in chronological order.
pub open spec fn chronological(s: Seq<(i64, Seq<char>)>) -> Seq<(i64, Seq<char>)> {
    s.sort_by(time_order())
}

/// Whether a sequence of timed names is in chronological order.
pub open spec fn time_sorted(s: Seq<(i64, Seq<char>)>) -> bool {
    forall|i: int, j: int| 0 <= i < j < s.len() ==> time_le(#[trigger] s[i], #[trigger] s[j])
}

/// Two chronologically sorted sequences with the same elements are equal:
/// sorting has one result.
pub proof fn lemma_time_sorted_unique(a: Seq<(i64, Seq<char>)>, b: Seq<(i64, Seq<char>)>)
    requires
        time_sorted(a),
        time_sorted(b),
        a.to_multiset() == b.to_multiset(),
    ensures
        a == b,
    decreases a.len(),
{
    broadcast use vstd::seq_lib::group_to_multiset_ensures;
    vstd::seq_lib::to_multiset_len(a);
    vstd::seq_lib::to_multiset_len(b);
    if a.len() == 0 {
        assert(b.len() == 0);
        assert(a =~= b);
    } else {
        assert(b.len() == a.len());
        assert(a.to_multiset().count(a[0]) > 0);
        assert(b.contains(a[0]));
        let j = choose|j: int| 0 <= j < b.len() && b[j] == a[0];
        assert(b.to_multiset().count(b[0]) > 0);
        assert(a.contains(b[0]));
        let i = choose|i: int| 0 <= i < a.len() && a[i] == b[0];
        if j > 0 {
            assert(time_le(b[0], b[j]));
        } else {
            lemma_time_refl(b[0]);
        }
        if i > 0 {
            assert(time_le(a[0], a[i]));
        } else {
            lemma_time_refl(a[0]);
        }
        lemma_time_antisym(a[0], b[0]);
        assert(a.remove(0) =~= a.drop_first());
        assert(b.remove(0) =~= b.drop_first());
        assert(a.drop_first().to_multiset() == a.to_multiset().remove(a[0]));
        assert(b.drop_first().to_multiset() == b.to_multiset().remove(b[0]));
        assert(time_sorted(a.drop_first())) by {
            assert forall|x: int, y: int| 0 <= x < y < a.drop_first().len() implies
                time_le(#[trigger] a.drop_first()[x], #[trigger] a.drop_first()[y]) by {
                assert(a.drop_first()[x] == a[x + 1]);
                assert(a.drop_first()[y] == a[y + 1]);
            }
        }
        assert(time_sorted(b.drop_first())) by {
            assert forall|x: int, y: int| 0 <= x < y < b.drop_first().len() implies
                time_le(#[trigger] b.drop_first()[x], #[trigger] b.drop_first()[y]) by {
                assert(b.drop_first()[x] == b[x + 1]);
                assert(b.drop_first()[y] == b[y + 1]);
            }
        }
        lemma_time_sorted_unique(a.drop_first(), b.drop_first());
        assert(a =~= seq![a[0]] + a.drop_first());
        assert(b =~= seq![b[0]] + b.drop_first());
    }
}

/// A chronologically sorted sequence with the elements of `s` is
/// `chronological(s)`.
pub proof fn lemma_time_sorted_is_chronological(r: Seq<(i64, Seq<char>)>, s: Seq<(i64, Seq<char>)>)
    requires
        time_sorted(r),
        r.to_multiset() == s.to_multiset(),
    ensures
        r == chronological(s),
{
    lemma_time_total_ordering();
    s.lemma_sort_by_ensures(time_order());
    let t = chronological(s);
    assert(time_sorted(t)) by {
        assert(sorted_by(t, time_order()));
        assert forall|x: int, y: int| 0 <= x < y < t.len() implies time_le(#[trigger] t[x], #[trigger] t[y]) by {
            assert(time_order()(t[x], t[y]));
        }
    }
    lemma_time_sorted_unique(r, t);
}

/// The character sequences of a sequence of strings.
pub open spec fn string_views(v: Seq<String>) -> Seq<Seq<char>> {
    v.map_values(|s: String| s@)
}

/// Compares two strings lexicographically: whether `a` comes no later than `b`.
pub fn str_lex_le(a: &str, b: &str) -> (r: bool)
    ensures
        r == lex_le(a@, b@),
{
    let la = a.unicode_len();
    let lb = b.unicode_len();
    let mut i: usize = 0;
    assert(a@.skip(0) =~= a@);
    assert(b@.skip(0) =~= b@);
    while i < la && i < lb
        invariant
            la == a@.len(),
            lb == b@.len(),
            i <= la,
            i <= lb,
            lex_le(a@, b@) == lex_le(a@.skip(i as int), b@.skip(i as int)),
        decreases la - i,
    {
        let ca = a.get_char(i);
        let cb = b.get_char(i);
        assert(a@.skip(i as int)[0] == ca);
        assert(b@.skip(i as int)[0] == cb);
        if ca != cb {
            return ca < cb;
        }
        assert(a@.skip(i as int).drop_first() =~= a@.skip(i + 1));
        assert(b@.skip(i as int).drop_first() =~= b@.skip(i + 1));
        i = i + 1;
    }
    i == la
}

} // verus!
