use vstd::prelude::*;

use crate::map::{keys_of, BamlMap};
use crate::order::{key_order, lemma_key_order_range, pick, sort_by_key, sorted_by_key};
use crate::strings::string_eq;
use crate::value::{
    key_views,
    lemma_meta_view_shapes, meta_entries_view, meta_of, metas_view, BamlValueWithMeta, MetaV,
};

verus! {

/// Whether two binary64 bit patterns denote equal numbers under IEEE-754
/// equality: a NaN equals nothing, +0 equals -0, otherwise the bits agree.
pub open spec fn float_eq(a: u64, b: u64) -> bool {
    let a_nan = (a >> 52u64) & 0x7ffu64 == 0x7ffu64 && a & 0xf_ffff_ffff_ffffu64 != 0u64;
    let b_nan = (b >> 52u64) & 0x7ffu64 == 0x7ffu64 && b & 0xf_ffff_ffff_ffffu64 != 0u64;
    !a_nan && !b_nan && (a == b || (a & 0x7fff_ffff_ffff_ffffu64 == 0u64 && b & 0x7fff_ffff_ffff_ffffu64 == 0u64))
}

/// Equality of two binary64 numbers given by their bits.
pub fn float_eq_exec(a: u64, b: u64) -> (r: bool)
    ensures
        r == float_eq(a, b),
{
    let a_nan = (a >> 52u64) & 0x7ffu64 == 0x7ffu64 && a & 0xf_ffff_ffff_ffffu64 != 0u64;
    let b_nan = (b >> 52u64) & 0x7ffu64 == 0x7ffu64 && b & 0xf_ffff_ffff_ffffu64 != 0u64;
    !a_nan && !b_nan && (a == b || (a & 0x7fff_ffff_ffff_ffffu64 == 0u64 && b & 0x7fff_ffff_ffff_ffffu64 == 0u64))
}

/// Pairing two values node by node: scalars must be equal, maps are paired
/// entry by entry after sorting each by key (the longer one cut to the length
/// of the shorter, the key of the first kept), lists item by item (cut the
/// same way), classes only under the same name. Each node of the result
/// carries both pieces of metadata.
pub open spec fn zip_spec<T, U>(a: MetaV<T>, b: MetaV<U>) -> Option<MetaV<(T, U)>>
    decreases a, 0nat,
{
    match (a, b) {
        (MetaV::String(x, m1), MetaV::String(y, m2)) => if x == y {
            Some(MetaV::String(x, (m1, m2)))
        } else {
            None
        },
        (MetaV::Int(x, m1), MetaV::Int(y, m2)) => if x == y {
            Some(MetaV::Int(x, (m1, m2)))
        } else {
            None
        },
        (MetaV::Float(x, m1), MetaV::Float(y, m2)) => if float_eq(x, y) {
            Some(MetaV::Float(x, (m1, m2)))
        } else {
            None
        },
        (MetaV::Bool(x, m1), MetaV::Bool(y, m2)) => if x == y {
            Some(MetaV::Bool(x, (m1, m2)))
        } else {
            None
        },
        (MetaV::Mapping(e1, m1), MetaV::Mapping(e2, m2)) => {
            let n = if e1.len() <= e2.len() { e1.len() } else { e2.len() };
            match zip_pairs(e1, key_order(key_views(e1)), e2, key_order(key_views(e2)), n) {
                Some(r) => Some(MetaV::Mapping(r, (m1, m2))),
                None => None,
            }
        },
        (MetaV::List(l1, m1), MetaV::List(l2, m2)) => {
            let n = if l1.len() <= l2.len() { l1.len() } else { l2.len() };
            match zip_items(l1, l2, n) {
                Some(r) => Some(MetaV::List(r, (m1, m2))),
                None => None,
            }
        },
        (MetaV::Media(x, m1), MetaV::Media(y, m2)) => if x == y {
            Some(MetaV::Media(x, (m1, m2)))
        } else {
            None
        },
        (MetaV::Enum(x1, y1, m1), MetaV::Enum(x2, y2, m2)) => if x1 == x2 && y1 == y2 {
            Some(MetaV::Enum(x1, y1, (m1, m2)))
        } else {
            None
        },
        (MetaV::Class(n1, e1, m1), MetaV::Class(n2, e2, m2)) => if n1 == n2 {
            let n = if e1.len() <= e2.len() { e1.len() } else { e2.len() };
            match zip_pairs(e1, key_order(key_views(e1)), e2, key_order(key_views(e2)), n) {
                Some(r) => Some(MetaV::Class(n1, r, (m1, m2))),
                None => None,
            }
        } else {
            None
        },
        (MetaV::Null(m1), MetaV::Null(m2)) => Some(MetaV::Null((m1, m2))),
        _ => None,
    }
}

/// The first `n` pairs of the entries of `e1` and `e2` taken in the orders
/// `o1` and `o2`, zipped; `None` when a pair does not zip.
pub open spec fn zip_pairs<T, U>(
    e1: Seq<(Seq<char>, MetaV<T>)>,
    o1: Seq<int>,
    e2: Seq<(Seq<char>, MetaV<U>)>,
    o2: Seq<int>,
    n: nat,
) -> Option<Seq<(Seq<char>, MetaV<(T, U)>)>>
    decreases e1, n,
{
    if n == 0 {
        Some(Seq::empty())
    } else {
        match zip_pairs(e1, o1, e2, o2, (n - 1) as nat) {
            None => None,
            Some(prefix) => {
                let k1 = o1[n - 1];
                let k2 = o2[n - 1];
                if 0 <= k1 < e1.len() && 0 <= k2 < e2.len() {
                    match zip_spec(e1[k1].1, e2[k2].1) {
                        Some(z) => Some(prefix.push((e1[k1].0, z))),
                        None => None,
                    }
                } else {
                    None
                }
            },
        }
    }
}

/// The first `n` items of `l1` and `l2`, zipped; `None` when a pair does
/// not zip.
pub open spec fn zip_items<T, U>(l1: Seq<MetaV<T>>, l2: Seq<MetaV<U>>, n: nat) -> Option<Seq<MetaV<(T, U)>>>
    decreases l1, n,
{
    if n == 0 {
        Some(Seq::empty())
    } else {
        match zip_items(l1, l2, (n - 1) as nat) {
            None => None,
            Some(prefix) => {
                if n - 1 < l1.len() && n - 1 < l2.len() {
                    match zip_spec(l1[n - 1], l2[n - 1]) {
                        Some(z) => Some(prefix.push(z)),
                        None => None,
                    }
                } else {
                    None
                }
            },
        }
    }
}

proof fn lemma_zip_pairs_none<T, U>(
    e1: Seq<(Seq<char>, MetaV<T>)>,
    o1: Seq<int>,
    e2: Seq<(Seq<char>, MetaV<U>)>,
    o2: Seq<int>,
    i: nat,
    n: nat,
)
    requires
        i <= n,
        zip_pairs(e1, o1, e2, o2, i) is None,
    ensures
        zip_pairs(e1, o1, e2, o2, n) is None,
    decreases n - i,
{
    if i < n {
        lemma_zip_pairs_none(e1, o1, e2, o2, i, (n - 1) as nat);
    }
}

proof fn lemma_zip_items_none<T, U>(l1: Seq<MetaV<T>>, l2: Seq<MetaV<U>>, i: nat, n: nat)
    requires
        i <= n,
        zip_items(l1, l2, i) is None,
    ensures
        zip_items(l1, l2, n) is None,
    decreases n - i,
{
    if i < n {
        lemma_zip_items_none(l1, l2, i, (n - 1) as nat);
    }
}

/// The view of an optional zipped value.
pub open spec fn opt_meta_view<T>(r: Option<BamlValueWithMeta<T>>) -> Option<MetaV<T>> {
    match r {
        Some(x) => Some(x@),
        None => None,
    }
}

impl<T> BamlValueWithMeta<T> {
    /// Pair this value with `other` node by node (see `zip_spec`), or `None`
    /// when their plain contents differ in a way that stops the pairing.
    pub fn zip_meta<U>(self, other: BamlValueWithMeta<U>) -> (r: Option<BamlValueWithMeta<(T, U)>>)
        ensures
            opt_meta_view(r) == zip_spec(self@, other@),
        decreases self, 1nat,
    {
        proof {
            lemma_meta_view_shapes(self);
            lemma_meta_view_shapes(other);
        }
        let ghost a = self;
        match (self, other) {
            (BamlValueWithMeta::String(s1, m1), BamlValueWithMeta::String(s2, m2)) => {
                if string_eq(&s1, &s2) {
                    Some(BamlValueWithMeta::String(s1, (m1, m2)))
                } else {
                    None
                }
            },
            (BamlValueWithMeta::Int(s1, m1), BamlValueWithMeta::Int(s2, m2)) => {
                if s1 == s2 {
                    Some(BamlValueWithMeta::Int(s1, (m1, m2)))
                } else {
                    None
                }
            },
            (BamlValueWithMeta::Float(s1, m1), BamlValueWithMeta::Float(s2, m2)) => {
                if float_eq_exec(s1, s2) {
                    Some(BamlValueWithMeta::Float(s1, (m1, m2)))
                } else {
                    None
                }
            },
            (BamlValueWithMeta::Bool(s1, m1), BamlValueWithMeta::Bool(s2, m2)) => {
                if s1 == s2 {
                    Some(BamlValueWithMeta::Bool(s1, (m1, m2)))
                } else {
                    None
                }
            },
            (BamlValueWithMeta::Mapping(s1, meta1), BamlValueWithMeta::Mapping(s2, meta2)) => {
                match zip_entries(Ghost(a), s1, s2) {
                    Some(entries) => {
                        let r = BamlValueWithMeta::Mapping(BamlMap { entries }, (meta1, meta2));
                        proof {
                            lemma_meta_view_shapes(r);
                        }
                        Some(r)
                    },
                    None => None,
                }
            },
            (BamlValueWithMeta::List(l1, meta1), BamlValueWithMeta::List(l2, meta2)) => {
                match zip_list(Ghost(a), l1, l2) {
                    Some(items) => {
                        let r = BamlValueWithMeta::List(items, (meta1, meta2));
                        proof {
                            lemma_meta_view_shapes(r);
                        }
                        Some(r)
                    },
                    None => None,
                }
            },
            (BamlValueWithMeta::Media(x1, m1), BamlValueWithMeta::Media(x2, m2)) => {
                if x1.same_as(&x2) {
                    Some(BamlValueWithMeta::Media(x1, (m1, m2)))
                } else {
                    None
                }
            },
            (BamlValueWithMeta::Enum(x1, y1, m1), BamlValueWithMeta::Enum(x2, y2, m2)) => {
                if string_eq(&x1, &x2) && string_eq(&y1, &y2) {
                    Some(BamlValueWithMeta::Enum(x1, y1, (m1, m2)))
                } else {
                    None
                }
            },
            (BamlValueWithMeta::Class(n1, f1, meta1), BamlValueWithMeta::Class(n2, f2, meta2)) => {
                if string_eq(&n1, &n2) {
                    match zip_entries(Ghost(a), f1, f2) {
                        Some(entries) => {
                            let r = BamlValueWithMeta::Class(n1, BamlMap { entries }, (meta1, meta2));
                            proof {
                                lemma_meta_view_shapes(r);
                            }
                            Some(r)
                        },
                        None => None,
                    }
                } else {
                    None
                }
            },
            (BamlValueWithMeta::Null(m1), BamlValueWithMeta::Null(m2)) => Some(BamlValueWithMeta::Null((m1, m2))),
            _ => None,
        }
    }
}

fn zip_entries<T, U>(
    Ghost(owner): Ghost<BamlValueWithMeta<T>>,
    s1: BamlMap<BamlValueWithMeta<T>>,
    s2: BamlMap<BamlValueWithMeta<U>>,
) -> (r: Option<Vec<(String, BamlValueWithMeta<(T, U)>)>>)
    requires
        (owner matches BamlValueWithMeta::Mapping(m, _) && m == s1) || (owner matches BamlValueWithMeta::Class(_, m, _) && m == s1),
    ensures
        ({
            let e1 = meta_entries_view(s1.entries@);
            let e2 = meta_entries_view(s2.entries@);
            let n = if e1.len() <= e2.len() { e1.len() } else { e2.len() };
            let z = zip_pairs(e1, key_order(key_views(e1)), e2, key_order(key_views(e2)), n);
            match r {
                Some(v) => z == Some(meta_entries_view(v@)),
                None => z is None,
            }
        }),
    decreases owner, 0nat,
{
    let ghost e1 = meta_entries_view(s1.entries@);
    let ghost e2 = meta_entries_view(s2.entries@);
    let ghost o1 = key_order(key_views(e1));
    let ghost o2 = key_order(key_views(e2));
    proof {
        assert(key_views(e1) =~= keys_of(s1.entries@));
        assert(key_views(e2) =~= keys_of(s2.entries@));
        lemma_key_order_range(keys_of(s1.entries@));
        lemma_key_order_range(keys_of(s2.entries@));
    }
    let ghost orig1 = s1.entries@;
    let mut a = sort_by_key(s1.entries);
    let mut b = sort_by_key(s2.entries);
    let n = if a.len() <= b.len() { a.len() } else { b.len() };
    let mut out: Vec<(String, BamlValueWithMeta<(T, U)>)> = Vec::new();
    let mut i: usize = 0;
    let ghost sa = a@;
    let ghost sb = b@;
    while i < n
        invariant
            (owner matches BamlValueWithMeta::Mapping(m, _) && m == s1) || (owner matches BamlValueWithMeta::Class(_, m, _) && m == s1),
            orig1 == s1.entries@,
            e1 == meta_entries_view(s1.entries@),
            e2 == meta_entries_view(s2.entries@),
            o1 == key_order(key_views(e1)),
            o2 == key_order(key_views(e2)),
            o1.len() == e1.len(),
            o2.len() == e2.len(),
            forall|j: int| 0 <= j < e1.len() ==> 0 <= #[trigger] o1[j] < e1.len(),
            forall|j: int| 0 <= j < e2.len() ==> 0 <= #[trigger] o2[j] < e2.len(),
            sa == pick(s1.entries@, o1),
            sb == pick(s2.entries@, o2),
            n == (if e1.len() <= e2.len() { e1.len() } else { e2.len() }),
            i <= n,
            a@ == sa.skip(i as int),
            b@ == sb.skip(i as int),
            zip_pairs(e1, o1, e2, o2, i as nat) == Some(meta_entries_view(out@)),
        decreases n - i,
    {
        let (k1, v1) = a.remove(0);
        let (_k2, v2) = b.remove(0);
        proof {
            assert(sa.skip(i as int)[0] == sa[i as int]);
            assert(sb.skip(i as int)[0] == sb[i as int]);
            assert(a@ =~= sa.skip(i + 1));
            assert(b@ =~= sb.skip(i + 1));
            let k = o1[i as int];
            assert((k1, v1) == s1.entries@[k]);
            if owner is Mapping {
                assert(decreases_to!(owner => owner->Mapping_0));
            } else {
                assert(decreases_to!(owner => owner->Class_1));
            }
            assert(decreases_to!(s1 => s1.entries));
            assert(decreases_to!(s1.entries => s1.entries@));
            assert(decreases_to!(s1.entries@ => s1.entries@[k]));
            assert(decreases_to!(s1.entries@[k] => s1.entries@[k].1));
        }
        let z = v1.zip_meta(v2);
        match z {
            Some(x) => {
                out.push((k1, x));
                proof {
                    assert(meta_entries_view(out@) =~= meta_entries_view(out@).drop_last().push(meta_entries_view(out@).last()));
                    assert(meta_entries_view(out@).drop_last() =~= meta_entries_view(out@.drop_last()));
                }
            },
            None => {
                proof {
                    lemma_zip_pairs_none(e1, o1, e2, o2, (i + 1) as nat, n as nat);
                }
                return None;
            },
        }
        i = i + 1;
    }
    Some(out)
}

fn zip_list<T, U>(
    Ghost(owner): Ghost<BamlValueWithMeta<T>>,
    l1: Vec<BamlValueWithMeta<T>>,
    l2: Vec<BamlValueWithMeta<U>>,
) -> (r: Option<Vec<BamlValueWithMeta<(T, U)>>>)
    requires
        owner matches BamlValueWithMeta::List(l, _) && l == l1,
    ensures
        ({
            let v1 = metas_view(l1@);
            let v2 = metas_view(l2@);
            let n = if v1.len() <= v2.len() { v1.len() } else { v2.len() };
            let z = zip_items(v1, v2, n);
            match r {
                Some(v) => z == Some(metas_view(v@)),
                None => z is None,
            }
        }),
    decreases owner, 0nat,
{
    let ghost v1 = metas_view(l1@);
    let ghost v2 = metas_view(l2@);
    let ghost orig1 = l1@;
    let ghost orig2 = l2@;
    let mut a = l1;
    let mut b = l2;
    let n = if a.len() <= b.len() { a.len() } else { b.len() };
    let mut out: Vec<BamlValueWithMeta<(T, U)>> = Vec::new();
    let mut i: usize = 0;
    while i < n
        invariant
            owner matches BamlValueWithMeta::List(l, _) && l@ == orig1,
            orig1 == l1@,
            orig2 == l2@,
            v1 == metas_view(orig1),
            v2 == metas_view(orig2),
            n == (if v1.len() <= v2.len() { v1.len() } else { v2.len() }),
            i <= n,
            a@ == orig1.skip(i as int),
            b@ == orig2.skip(i as int),
            zip_items(v1, v2, i as nat) == Some(metas_view(out@)),
        decreases n - i,
    {
        let x1 = a.remove(0);
        let x2 = b.remove(0);
        proof {
            assert(orig1.skip(i as int)[0] == orig1[i as int]);
            assert(orig2.skip(i as int)[0] == orig2[i as int]);
            assert(a@ =~= orig1.skip(i + 1));
            assert(b@ =~= orig2.skip(i + 1));
            let l = owner->List_0;
            assert(decreases_to!(owner => owner->List_0));
            assert(decreases_to!(l => l@));
            assert(decreases_to!(l@ => l@[i as int]));
        }
        let z = x1.zip_meta(x2);
        match z {
            Some(x) => {
                out.push(x);
                proof {
                    assert(metas_view(out@) =~= metas_view(out@).drop_last().push(metas_view(out@).last()));
                    assert(metas_view(out@).drop_last() =~= metas_view(out@.drop_last()));
                }
            },
            None => {
                proof {
                    assert(x1@ == v1[i as int]);
                    assert(x2@ == v2[i as int]);
                    assert(zip_spec(v1[i as int], v2[i as int]) is None);
                    assert(zip_items(v1, v2, (i + 1) as nat) is None);
                    lemma_zip_items_none(v1, v2, (i + 1) as nat, n as nat);
                }
                return None;
            },
        }
        i = i + 1;
    }
    Some(out)
}

/// The smaller of two lengths.
pub open spec fn shorter(x: nat, y: nat) -> nat {
    if x <= y { x } else { y }
}

proof fn lemma_zip_pairs_some_parts<T, U>(
    e1: Seq<(Seq<char>, MetaV<T>)>,
    o1: Seq<int>,
    e2: Seq<(Seq<char>, MetaV<U>)>,
    o2: Seq<int>,
    n: nat,
)
    requires
        zip_pairs(e1, o1, e2, o2, n) is Some,
    ensures
        zip_pairs(e1, o1, e2, o2, n).unwrap().len() == n,
        forall|j: int| 0 <= j < n ==> 0 <= o1[j] < e1.len() && 0 <= o2[j] < e2.len()
            && (#[trigger] zip_spec(e1[o1[j]].1, e2[o2[j]].1)) is Some,
        forall|j: int| 0 <= j < n ==> #[trigger] zip_pairs(e1, o1, e2, o2, n).unwrap()[j] == (
            e1[o1[j]].0,
            zip_spec(e1[o1[j]].1, e2[o2[j]].1).unwrap(),
        ),
    decreases n,
{
    if n > 0 {
        lemma_zip_pairs_some_parts(e1, o1, e2, o2, (n - 1) as nat);
    }
}

proof fn lemma_zip_items_some_parts<T, U>(l1: Seq<MetaV<T>>, l2: Seq<MetaV<U>>, n: nat)
    requires
        zip_items(l1, l2, n) is Some,
    ensures
        zip_items(l1, l2, n).unwrap().len() == n,
        forall|j: int| 0 <= j < n ==> j < l1.len() && j < l2.len() && (#[trigger] zip_spec(l1[j], l2[j])) is Some,
        forall|j: int| 0 <= j < n ==> #[trigger] zip_items(l1, l2, n).unwrap()[j] == zip_spec(l1[j], l2[j]).unwrap(),
    decreases n,
{
    if n > 0 {
        lemma_zip_items_some_parts(l1, l2, (n - 1) as nat);
    }
}

/// Pairing succeeds only where the contents agree: the two roots are of the
/// same kind with equal contents (strings, integers, booleans, media, enum
/// names and values equal; floats equal as IEEE numbers, so never NaN;
/// classes of the same name), and their children pair too, position by
/// position for lists and in key order for maps and classes, as far as the
/// shorter one goes. The result's root carries both roots' metadata; a
/// paired list, map or class is as long as the shorter one, its i-th child
/// is the pairing of the two i-th children (for maps and classes in key
/// order, under the first value's key), and a paired class keeps its name.
pub proof fn law_zip_requires_agreement<T, U>(a: MetaV<T>, b: MetaV<U>)
    requires
        zip_spec(a, b) is Some,
    ensures
        meta_of(zip_spec(a, b).unwrap()) == (meta_of(a), meta_of(b)),
        a matches MetaV::String(x, _) ==> (b matches MetaV::String(y, _) && x == y),
        a matches MetaV::Int(x, _) ==> (b matches MetaV::Int(y, _) && x == y),
        a matches MetaV::Bool(x, _) ==> (b matches MetaV::Bool(y, _) && x == y),
        a matches MetaV::Float(x, _) ==> (b matches MetaV::Float(y, _)
            && !((x >> 52u64) & 0x7ffu64 == 0x7ffu64 && x & 0xf_ffff_ffff_ffffu64 != 0u64)
            && !((y >> 52u64) & 0x7ffu64 == 0x7ffu64 && y & 0xf_ffff_ffff_ffffu64 != 0u64)
            && (x == y || (x & 0x7fff_ffff_ffff_ffffu64 == 0u64 && y & 0x7fff_ffff_ffff_ffffu64 == 0u64))),
        a matches MetaV::Media(x, _) ==> (b matches MetaV::Media(y, _) && x == y),
        a matches MetaV::Enum(n, x, _) ==> (b matches MetaV::Enum(o, y, _) && n == o && x == y),
        a matches MetaV::Null(_) ==> b is Null,
        a matches MetaV::Class(n, _, _) ==> (b matches MetaV::Class(o, _, _) && n == o),
        a is Mapping ==> b is Mapping,
        a is List ==> b is List,
        (a is List && b is List) ==> zip_spec(a, b).unwrap()->List_0.len() == shorter(
            a->List_0.len(),
            b->List_0.len(),
        ),
        (a is List && b is List) ==> forall|j: int|
            0 <= j < shorter(a->List_0.len(), b->List_0.len()) ==> (#[trigger] zip_spec(
                a->List_0[j],
                b->List_0[j],
            )) is Some,
        (a is List && b is List) ==> forall|j: int|
            0 <= j < shorter(a->List_0.len(), b->List_0.len()) ==> #[trigger] zip_spec(a, b).unwrap()->List_0[j]
                == zip_spec(a->List_0[j], b->List_0[j]).unwrap(),
        (a is Mapping && b is Mapping) ==> zip_spec(a, b).unwrap()->Mapping_0.len() == shorter(
            a->Mapping_0.len(),
            b->Mapping_0.len(),
        ),
        (a is Mapping && b is Mapping) ==> forall|j: int|
            0 <= j < shorter(a->Mapping_0.len(), b->Mapping_0.len()) ==> #[trigger] zip_spec(a, b).unwrap()->Mapping_0[j] == (
                a->Mapping_0[key_order(key_views(a->Mapping_0))[j]].0,
                zip_spec(
                    a->Mapping_0[key_order(key_views(a->Mapping_0))[j]].1,
                    b->Mapping_0[key_order(key_views(b->Mapping_0))[j]].1,
                ).unwrap(),
            ),
        (a is Class && b is Class) ==> zip_spec(a, b).unwrap()->Class_1.len() == shorter(
            a->Class_1.len(),
            b->Class_1.len(),
        ),
        (a is Class && b is Class) ==> forall|j: int|
            0 <= j < shorter(a->Class_1.len(), b->Class_1.len()) ==> #[trigger] zip_spec(a, b).unwrap()->Class_1[j] == (
                a->Class_1[key_order(key_views(a->Class_1))[j]].0,
                zip_spec(
                    a->Class_1[key_order(key_views(a->Class_1))[j]].1,
                    b->Class_1[key_order(key_views(b->Class_1))[j]].1,
                ).unwrap(),
            ),
        (a is Class && b is Class) ==> zip_spec(a, b).unwrap()->Class_0 == a->Class_0,
        a matches MetaV::String(x, m) ==> zip_spec(a, b).unwrap() == MetaV::String(x, (m, meta_of(b))),
        a matches MetaV::Int(x, m) ==> zip_spec(a, b).unwrap() == MetaV::Int(x, (m, meta_of(b))),
        a matches MetaV::Float(x, m) ==> zip_spec(a, b).unwrap() == MetaV::Float(x, (m, meta_of(b))),
        a matches MetaV::Bool(x, m) ==> zip_spec(a, b).unwrap() == MetaV::Bool(x, (m, meta_of(b))),
        a matches MetaV::Media(x, m) ==> zip_spec(a, b).unwrap() == MetaV::Media(x, (m, meta_of(b))),
        a matches MetaV::Enum(n, x, m) ==> zip_spec(a, b).unwrap() == MetaV::Enum(n, x, (m, meta_of(b))),
        a matches MetaV::Null(m) ==> zip_spec(a, b).unwrap() == MetaV::Null((m, meta_of(b))),
        (a is Mapping && b is Mapping) ==> forall|j: int|
            0 <= j < shorter(a->Mapping_0.len(), b->Mapping_0.len()) ==> (#[trigger] zip_spec(
                a->Mapping_0[key_order(key_views(a->Mapping_0))[j]].1,
                b->Mapping_0[key_order(key_views(b->Mapping_0))[j]].1,
            )) is Some,
        (a is Class && b is Class) ==> forall|j: int|
            0 <= j < shorter(a->Class_1.len(), b->Class_1.len()) ==> (#[trigger] zip_spec(
                a->Class_1[key_order(key_views(a->Class_1))[j]].1,
                b->Class_1[key_order(key_views(b->Class_1))[j]].1,
            )) is Some,
{
    match (a, b) {
        (MetaV::List(l1, _), MetaV::List(l2, _)) => {
            let n = if l1.len() <= l2.len() { l1.len() } else { l2.len() };
            lemma_zip_items_some_parts(l1, l2, n);
        },
        (MetaV::Mapping(e1, _), MetaV::Mapping(e2, _)) => {
            let n = if e1.len() <= e2.len() { e1.len() } else { e2.len() };
            lemma_zip_pairs_some_parts(e1, key_order(key_views(e1)), e2, key_order(key_views(e2)), n);
        },
        (MetaV::Class(_, e1, _), MetaV::Class(_, e2, _)) => {
            let n = if e1.len() <= e2.len() { e1.len() } else { e2.len() };
            lemma_zip_pairs_some_parts(e1, key_order(key_views(e1)), e2, key_order(key_views(e2)), n);
        },
        _ => {},
    }
}

} // verus!
