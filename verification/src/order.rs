use vstd::prelude::*;

use crate::map::keys_of;

verus! {

/// `a` sorts before `b`: the strings compared character by character by
/// code point, a proper prefix first. This is the order of `<` on `String`,
/// since UTF-8 preserves the order of code points.
pub open spec fn key_less(a: Seq<char>, b: Seq<char>) -> bool
    decreases a.len(),
{
    if b.len() == 0 {
        false
    } else if a.len() == 0 {
        true
    } else if (a[0] as u32) < (b[0] as u32) {
        true
    } else if a[0] == b[0] {
        key_less(a.drop_first(), b.drop_first())
    } else {
        false
    }
}

/// Whether `a` sorts before `b`.
pub fn key_less_exec(a: &String, b: &String) -> (r: bool)
    ensures
        r == key_less(a@, b@),
{
    let sa = a.as_str();
    let sb = b.as_str();
    let la = sa.unicode_len();
    let lb = sb.unicode_len();
    let mut i: usize = 0;
    assert(a@.skip(0) =~= a@);
    assert(b@.skip(0) =~= b@);
    while i < la && i < lb
        invariant
            la == a@.len(),
            lb == b@.len(),
            sa@ == a@,
            sb@ == b@,
            i <= la,
            i <= lb,
            key_less(a@, b@) == key_less(a@.skip(i as int), b@.skip(i as int)),
        decreases la - i,
    {
        let ca = sa.get_char(i);
        let cb = sb.get_char(i);
        assert(a@.skip(i as int)[0] == ca);
        assert(b@.skip(i as int)[0] == cb);
        if (ca as u32) < (cb as u32) {
            return true;
        }
        if ca != cb {
            return false;
        }
        assert(a@.skip(i as int).drop_first() =~= a@.skip(i + 1));
        assert(b@.skip(i as int).drop_first() =~= b@.skip(i + 1));
        i = i + 1;
    }
    i == la && i < lb
}

/// Where a key goes in a sorted run of keys: after every key that sorts
/// before it.
pub open spec fn insert_pos(sorted: Seq<Seq<char>>, k: Seq<char>) -> int
    decreases sorted.len(),
{
    if sorted.len() == 0 {
        0
    } else if key_less(sorted[0], k) {
        1 + insert_pos(sorted.drop_first(), k)
    } else {
        0
    }
}

/// The elements of `s` at the positions listed in `o`.
pub open spec fn pick<X>(s: Seq<X>, o: Seq<int>) -> Seq<X> {
    Seq::new(o.len(), |j: int| s[o[j]])
}

/// The positions of `keys` in sorted order, as insertion sort places them:
/// each key in turn goes after every earlier key that sorts before it.
pub open spec fn key_order(keys: Seq<Seq<char>>) -> Seq<int>
    decreases keys.len(),
{
    if keys.len() == 0 {
        Seq::empty()
    } else {
        let o = key_order(keys.drop_last());
        o.insert(insert_pos(pick(keys, o), keys.last()), keys.len() - 1)
    }
}

/// The entries of `s` sorted by key.
pub open spec fn sorted_by_key<V>(s: Seq<(String, V)>) -> Seq<(String, V)> {
    pick(s, key_order(keys_of(s)))
}

pub proof fn lemma_insert_pos(s: Seq<Seq<char>>, k: Seq<char>, p: int)
    requires
        0 <= p <= s.len(),
        forall|j: int| 0 <= j < p ==> key_less(s[j], k),
        p == s.len() || !key_less(s[p], k),
    ensures
        insert_pos(s, k) == p,
    decreases p,
{
    if p > 0 {
        lemma_insert_pos(s.drop_first(), k, p - 1);
    }
}

pub proof fn lemma_insert_pos_bounds(s: Seq<Seq<char>>, k: Seq<char>)
    ensures
        0 <= insert_pos(s, k) <= s.len(),
    decreases s.len(),
{
    if s.len() > 0 {
        lemma_insert_pos_bounds(s.drop_first(), k);
    }
}

/// Every position in the order is a position of the keys, each once.
pub proof fn lemma_key_order_range(keys: Seq<Seq<char>>)
    ensures
        key_order(keys).len() == keys.len(),
        forall|j: int| 0 <= j < keys.len() ==> 0 <= #[trigger] key_order(keys)[j] < keys.len(),
        forall|i: int, j: int| 0 <= i < keys.len() && 0 <= j < keys.len() && i != j ==> key_order(keys)[i] != key_order(keys)[j],
    decreases keys.len(),
{
    if keys.len() > 0 {
        let o = key_order(keys.drop_last());
        lemma_key_order_range(keys.drop_last());
        lemma_insert_pos_bounds(pick(keys, o), keys.last());
        let p = insert_pos(pick(keys, o), keys.last());
        let r = o.insert(p, keys.len() - 1);
        assert forall|j: int| 0 <= j < keys.len() implies 0 <= #[trigger] r[j] < keys.len() by {
            if j < p {
                assert(r[j] == o[j]);
            } else if j > p {
                assert(r[j] == o[j - 1]);
            }
        }
        assert forall|i: int, j: int| 0 <= i < keys.len() && 0 <= j < keys.len() && i != j implies r[i] != r[j] by {
            if i < p && j < p {
            } else if i < p && j > p {
                assert(r[j] == o[j - 1]);
            } else if i > p && j < p {
                assert(r[i] == o[i - 1]);
            } else if i > p && j > p {
                assert(r[i] == o[i - 1]);
                assert(r[j] == o[j - 1]);
            } else if i == p {
                if j < p {
                    assert(r[j] == o[j]);
                } else {
                    assert(r[j] == o[j - 1]);
                }
            } else {
                if i < p {
                    assert(r[i] == o[i]);
                } else {
                    assert(r[i] == o[i - 1]);
                }
            }
        }
    }
}

/// Sort entries by key (insertion sort).
pub fn sort_by_key<V>(entries: Vec<(String, V)>) -> (r: Vec<(String, V)>)
    ensures
        r@ == sorted_by_key(entries@),
{
    let ghost orig = entries@;
    let ghost keys = keys_of(orig);
    let mut rest = entries;
    let mut out: Vec<(String, V)> = Vec::new();
    let mut n: usize = 0;
    let total = rest.len();
    while rest.len() > 0
        invariant
            total == orig.len(),
            n + rest@.len() == total,
            rest@ == orig.skip(n as int),
            keys == keys_of(orig),
            out@ == pick(orig, key_order(keys.take(n as int))),
            key_order(keys.take(n as int)).len() == n,
            forall|j: int| 0 <= j < n ==> 0 <= #[trigger] key_order(keys.take(n as int))[j] < n,
        decreases rest@.len(),
    {
        let (k, v) = rest.remove(0);
        proof {
            assert(orig.skip(n as int)[0] == orig[n as int]);
            assert(rest@ =~= orig.skip(n + 1));
        }
        let ghost o = key_order(keys.take(n as int));
        let ghost sorted_keys = keys_of(out@);
        assert(sorted_keys =~= pick(keys.take(n + 1), o));
        let mut p: usize = 0;
        loop
            invariant
                p <= out@.len(),
                sorted_keys == keys_of(out@),
                forall|j: int| 0 <= j < p ==> key_less(sorted_keys[j], k@),
            ensures
                p <= out@.len(),
                forall|j: int| 0 <= j < p ==> key_less(sorted_keys[j], k@),
                p == out@.len() || !key_less(sorted_keys[p as int], k@),
            decreases out@.len() - p,
        {
            if p >= out.len() {
                break;
            }
            if !key_less_exec(&out[p].0, &k) {
                break;
            }
            p = p + 1;
        }
        proof {
            lemma_insert_pos(sorted_keys, k@, p as int);
            let t = keys.take(n + 1);
            assert(t.drop_last() =~= keys.take(n as int));
            assert(t.last() == k@);
            assert(key_order(t) == o.insert(p as int, n as int));
            lemma_key_order_range(t);
        }
        out.insert(p, (k, v));
        proof {
            let o2 = o.insert(p as int, n as int);
            assert(out@ =~= pick(orig, o2)) by {
                assert forall|j: int| 0 <= j < out@.len() implies out@[j] == pick(orig, o2)[j] by {
                    if j < p {
                    } else if j == p {
                        assert(orig[n as int] == (k, v));
                    } else {
                    }
                }
            }
            assert forall|j: int| 0 <= j < n + 1 implies 0 <= #[trigger] o2[j] < n + 1 by {
                if j < p {
                    assert(o2[j] == o[j]);
                } else if j > p {
                    assert(o2[j] == o[j - 1]);
                }
            }
        }
        n = n + 1;
    }
    assert(keys.take(n as int) =~= keys);
    out
}

/// `key_less` is irreflexive and asymmetric.
pub proof fn lemma_key_less_asym(a: Seq<char>, b: Seq<char>)
    ensures
        key_less(a, b) ==> !key_less(b, a),
        !key_less(a, a),
    decreases a.len(),
{
    if a.len() > 0 && b.len() > 0 {
        lemma_key_less_asym(a.drop_first(), b.drop_first());
    }
    if a.len() > 0 {
        lemma_key_less_asym(a.drop_first(), a.drop_first());
    }
}

/// `key_less` is transitive.
pub proof fn lemma_key_less_trans(a: Seq<char>, b: Seq<char>, c: Seq<char>)
    requires
        key_less(a, b),
        key_less(b, c),
    ensures
        key_less(a, c),
    decreases a.len(),
{
    if a.len() > 0 && b.len() > 0 && c.len() > 0 && a[0] == b[0] && b[0] == c[0] {
        lemma_key_less_trans(a.drop_first(), b.drop_first(), c.drop_first());
    }
}

/// Two different strings are ordered one way or the other.
pub proof fn lemma_key_less_total(a: Seq<char>, b: Seq<char>)
    requires
        a != b,
    ensures
        key_less(a, b) || key_less(b, a),
    decreases a.len(),
{
    if a.len() > 0 && b.len() > 0 && a[0] == b[0] {
        if a.drop_first() == b.drop_first() {
            assert(a =~= seq![a[0]] + a.drop_first());
            assert(b =~= seq![b[0]] + b.drop_first());
        }
        lemma_key_less_total(a.drop_first(), b.drop_first());
    }
    if a.len() == 0 && b.len() == 0 {
        assert(a =~= b);
    }
    if a.len() > 0 && b.len() > 0 && a[0] != b[0] {
        vstd::utf8::char_u32_cast(a[0], a[0] as u32);
        vstd::utf8::char_u32_cast(b[0], b[0] as u32);
        assert((a[0] as u32) != (b[0] as u32));
    }
}

/// No element of `s` sorts before an earlier one.
pub open spec fn keys_ascending(s: Seq<Seq<char>>) -> bool {
    forall|i: int, j: int| 0 <= i < j < s.len() ==> !key_less(#[trigger] s[j], #[trigger] s[i])
}

proof fn lemma_not_less_trans(a: Seq<char>, b: Seq<char>, c: Seq<char>)
    requires
        !key_less(b, a),
        !key_less(c, b),
    ensures
        !key_less(c, a),
{
    if key_less(c, a) {
        if a == b {
        } else if b == c {
        } else {
            lemma_key_less_total(a, b);
            lemma_key_less_total(b, c);
            lemma_key_less_trans(a, b, c);
            lemma_key_less_asym(a, c);
        }
    }
}

/// The keys in the order `key_order` gives are ascending, and every
/// position appears in that order.
pub proof fn lemma_key_order_sorted(keys: Seq<Seq<char>>)
    ensures
        keys_ascending(pick(keys, key_order(keys))),
        forall|i: int| 0 <= i < keys.len() ==> key_order(keys).contains(i),
    decreases keys.len(),
{
    lemma_key_order_range(keys);
    if keys.len() > 0 {
        let d = keys.drop_last();
        let o = key_order(d);
        lemma_key_order_sorted(d);
        lemma_key_order_range(d);
        let k = keys.last();
        let pp = pick(keys, o);
        assert(pp =~= pick(d, o)) by {
            assert forall|j: int| 0 <= j < o.len() implies pp[j] == pick(d, o)[j] by {
                assert(0 <= o[j] < d.len());
            }
        }
        lemma_insert_pos_bounds(pp, k);
        let p = insert_pos(pp, k);
        lemma_insert_pos_spec(pp, k);
        let o2 = o.insert(p, keys.len() - 1);
        let q = pick(keys, o2);
        assert(q =~= pp.insert(p, k)) by {
            assert forall|j: int| 0 <= j < q.len() implies q[j] == pp.insert(p, k)[j] by {
                if j < p {
                    assert(o2[j] == o[j]);
                } else if j > p {
                    assert(o2[j] == o[j - 1]);
                }
            }
        }
        assert forall|i: int, j: int| 0 <= i < j < q.len() implies !key_less(#[trigger] q[j], #[trigger] q[i]) by {
            if j < p {
                assert(q[i] == pp[i] && q[j] == pp[j]);
            } else if j == p {
                assert(q[i] == pp[i]);
                lemma_key_less_asym(pp[i], k);
            } else if i == p {
                assert(q[j] == pp[j - 1]);
                if key_less(pp[j - 1], k) {
                    if p < pp.len() {
                        if p < j - 1 {
                            lemma_not_less_trans(k, pp[p], pp[j - 1]);
                        }
                    }
                }
            } else if i < p {
                assert(q[i] == pp[i] && q[j] == pp[j - 1]);
            } else {
                assert(q[i] == pp[i - 1] && q[j] == pp[j - 1]);
            }
        }
        assert forall|i: int| 0 <= i < keys.len() implies o2.contains(i) by {
            if i == keys.len() - 1 {
                assert(o2[p] == i);
            } else {
                assert(o.contains(i));
                let j = choose|j: int| 0 <= j < o.len() && o[j] == i;
                if j < p {
                    assert(o2[j] == i);
                } else {
                    assert(o2[j + 1] == i);
                }
            }
        }
    }
}

proof fn lemma_insert_pos_spec(s: Seq<Seq<char>>, k: Seq<char>)
    ensures
        forall|j: int| 0 <= j < insert_pos(s, k) ==> key_less(#[trigger] s[j], k),
        insert_pos(s, k) < s.len() ==> !key_less(s[insert_pos(s, k)], k),
    decreases s.len(),
{
    lemma_insert_pos_bounds(s, k);
    if s.len() > 0 && key_less(s[0], k) {
        lemma_insert_pos_spec(s.drop_first(), k);
        lemma_insert_pos_bounds(s.drop_first(), k);
        assert forall|j: int| 0 <= j < insert_pos(s, k) implies key_less(#[trigger] s[j], k) by {
            if j > 0 {
                assert(s[j] == s.drop_first()[j - 1]);
            }
        }
    }
}

} // verus!
