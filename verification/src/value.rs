use vstd::prelude::*;

use crate::map::{keys_of, distinct_keys, BamlMap};
use crate::media::{BamlMedia, BamlMediaType, MediaV};

verus! {

/// A value produced or consumed by a BAML function.
///
/// `Float` holds the IEEE-754 binary64 bit pattern of the number.
#[derive(Debug)]
pub enum BamlValue {
    String(String),
    Int(i64),
    Float(u64),
    Bool(bool),
    Mapping(BamlMap<BamlValue>),
    List(Vec<BamlValue>),
    Media(BamlMedia),
    Enum(String, String),
    Class(String, BamlMap<BamlValue>),
    Null,
}

/// A value with a piece of metadata at every node.
///
/// `Float` holds the IEEE-754 binary64 bit pattern of the number.
#[derive(Debug)]
pub enum BamlValueWithMeta<T> {
    String(String, T),
    Int(i64, T),
    Float(u64, T),
    Bool(bool, T),
    Mapping(BamlMap<BamlValueWithMeta<T>>, T),
    List(Vec<BamlValueWithMeta<T>>, T),
    Media(BamlMedia, T),
    Enum(String, String, T),
    Class(String, BamlMap<BamlValueWithMeta<T>>, T),
    Null(T),
}

/// How far a streamed value has been received.
#[derive(Clone, Copy, Debug, PartialEq, Eq, Structural)]
pub enum CompletionState {
    Pending,
    Incomplete,
    Complete,
}

/// Abstract plain value.
pub enum ValueV {
    String(Seq<char>),
    Int(i64),
    Float(u64),
    Bool(bool),
    Mapping(Seq<(Seq<char>, ValueV)>),
    List(Seq<ValueV>),
    Media(MediaV),
    Enum(Seq<char>, Seq<char>),
    Class(Seq<char>, Seq<(Seq<char>, ValueV)>),
    Null,
}

/// Abstract value with metadata; the metadata is kept as it is.
pub enum MetaV<T> {
    String(Seq<char>, T),
    Int(i64, T),
    Float(u64, T),
    Bool(bool, T),
    Mapping(Seq<(Seq<char>, MetaV<T>)>, T),
    List(Seq<MetaV<T>>, T),
    Media(MediaV, T),
    Enum(Seq<char>, Seq<char>, T),
    Class(Seq<char>, Seq<(Seq<char>, MetaV<T>)>, T),
    Null(T),
}

/// The abstract value of a plain value.
pub open spec fn value_view(v: BamlValue) -> ValueV
    decreases v,
{
        match v {
            BamlValue::String(s) => ValueV::String(s@),
            BamlValue::Int(i) => ValueV::Int(i),
            BamlValue::Float(f) => ValueV::Float(f),
            BamlValue::Bool(b) => ValueV::Bool(b),
            BamlValue::Mapping(m) => ValueV::Mapping(
                Seq::new(
                    m.entries@.len(),
                    |i: int|
                        if 0 <= i < m.entries@.len() {
                            (m.entries@[i].0@, value_view(m.entries@[i].1))
                        } else {
                            (Seq::empty(), ValueV::Null)
                        },
                ),
            ),
            BamlValue::List(l) => ValueV::List(
                Seq::new(
                    l@.len(),
                    |i: int|
                        if 0 <= i < l@.len() {
                            value_view(l@[i])
                        } else {
                            ValueV::Null
                        },
                ),
            ),
            BamlValue::Media(m) => ValueV::Media(m@),
            BamlValue::Enum(n, v) => ValueV::Enum(n@, v@),
            BamlValue::Class(n, m) => ValueV::Class(
                n@,
                Seq::new(
                    m.entries@.len(),
                    |i: int|
                        if 0 <= i < m.entries@.len() {
                            (m.entries@[i].0@, value_view(m.entries@[i].1))
                        } else {
                            (Seq::empty(), ValueV::Null)
                        },
                ),
            ),
            BamlValue::Null => ValueV::Null,
        }
}

/// The abstract value of a value with metadata.
pub open spec fn meta_view<T>(v: BamlValueWithMeta<T>) -> MetaV<T>
    decreases v,
{
        match v {
            BamlValueWithMeta::String(s, m) => MetaV::String(s@, m),
            BamlValueWithMeta::Int(i, m) => MetaV::Int(i, m),
            BamlValueWithMeta::Float(f, m) => MetaV::Float(f, m),
            BamlValueWithMeta::Bool(b, m) => MetaV::Bool(b, m),
            BamlValueWithMeta::Mapping(e, m) => MetaV::Mapping(
                Seq::new(
                    e.entries@.len(),
                    |i: int|
                        if 0 <= i < e.entries@.len() {
                            (e.entries@[i].0@, meta_view(e.entries@[i].1))
                        } else {
                            (Seq::empty(), MetaV::Null(arbitrary()))
                        },
                ),
                m,
            ),
            BamlValueWithMeta::List(l, m) => MetaV::List(
                Seq::new(
                    l@.len(),
                    |i: int|
                        if 0 <= i < l@.len() {
                            meta_view(l@[i])
                        } else {
                            MetaV::Null(arbitrary())
                        },
                ),
                m,
            ),
            BamlValueWithMeta::Media(x, m) => MetaV::Media(x@, m),
            BamlValueWithMeta::Enum(n, v, m) => MetaV::Enum(n@, v@, m),
            BamlValueWithMeta::Class(n, e, m) => MetaV::Class(
                n@,
                Seq::new(
                    e.entries@.len(),
                    |i: int|
                        if 0 <= i < e.entries@.len() {
                            (e.entries@[i].0@, meta_view(e.entries@[i].1))
                        } else {
                            (Seq::empty(), MetaV::Null(arbitrary()))
                        },
                ),
                m,
            ),
            BamlValueWithMeta::Null(m) => MetaV::Null(m),
        }
}

impl View for BamlValue {
    type V = ValueV;

    open spec fn view(&self) -> ValueV {
        value_view(*self)
    }
}

impl<T> View for BamlValueWithMeta<T> {
    type V = MetaV<T>;

    open spec fn view(&self) -> MetaV<T> {
        meta_view(*self)
    }
}

/// Views of a sequence of plain values.
pub open spec fn values_view(s: Seq<BamlValue>) -> Seq<ValueV> {
    Seq::new(s.len(), |i: int| s[i]@)
}

/// Views of a sequence of keyed plain values.
pub open spec fn entries_view(s: Seq<(String, BamlValue)>) -> Seq<(Seq<char>, ValueV)> {
    Seq::new(s.len(), |i: int| (s[i].0@, s[i].1@))
}

/// Views of a sequence of values with metadata.
pub open spec fn metas_view<T>(s: Seq<BamlValueWithMeta<T>>) -> Seq<MetaV<T>> {
    Seq::new(s.len(), |i: int| s[i]@)
}

/// Views of a sequence of keyed values with metadata.
pub open spec fn meta_entries_view<T>(s: Seq<(String, BamlValueWithMeta<T>)>) -> Seq<(Seq<char>, MetaV<T>)> {
    Seq::new(s.len(), |i: int| (s[i].0@, s[i].1@))
}

/// The metadata at the root of a value.
pub open spec fn meta_of<T>(v: MetaV<T>) -> T {
    match v {
        MetaV::String(_, m) => m,
        MetaV::Int(_, m) => m,
        MetaV::Float(_, m) => m,
        MetaV::Bool(_, m) => m,
        MetaV::Mapping(_, m) => m,
        MetaV::List(_, m) => m,
        MetaV::Media(_, m) => m,
        MetaV::Enum(_, _, m) => m,
        MetaV::Class(_, _, m) => m,
        MetaV::Null(m) => m,
    }
}

/// The same value with its root metadata replaced by `m`.
pub open spec fn with_root_meta<T>(v: MetaV<T>, m: T) -> MetaV<T> {
    match v {
        MetaV::String(s, _) => MetaV::String(s, m),
        MetaV::Int(i, _) => MetaV::Int(i, m),
        MetaV::Float(f, _) => MetaV::Float(f, m),
        MetaV::Bool(b, _) => MetaV::Bool(b, m),
        MetaV::Mapping(e, _) => MetaV::Mapping(e, m),
        MetaV::List(l, _) => MetaV::List(l, m),
        MetaV::Media(x, _) => MetaV::Media(x, m),
        MetaV::Enum(n, v, _) => MetaV::Enum(n, v, m),
        MetaV::Class(n, e, _) => MetaV::Class(n, e, m),
        MetaV::Null(_) => MetaV::Null(m),
    }
}

/// The plain value underneath: every piece of metadata dropped.
pub open spec fn strip<T>(v: MetaV<T>) -> ValueV
    decreases v,
{
    match v {
        MetaV::String(s, _) => ValueV::String(s),
        MetaV::Int(i, _) => ValueV::Int(i),
        MetaV::Float(f, _) => ValueV::Float(f),
        MetaV::Bool(b, _) => ValueV::Bool(b),
        MetaV::Mapping(e, _) => ValueV::Mapping(
            Seq::new(
                e.len(),
                |i: int|
                    if 0 <= i < e.len() {
                        (e[i].0, strip(e[i].1))
                    } else {
                        (Seq::empty(), ValueV::Null)
                    },
            ),
        ),
        MetaV::List(l, _) => ValueV::List(
            Seq::new(
                l.len(),
                |i: int|
                    if 0 <= i < l.len() {
                        strip(l[i])
                    } else {
                        ValueV::Null
                    },
            ),
        ),
        MetaV::Media(x, _) => ValueV::Media(x),
        MetaV::Enum(n, v, _) => ValueV::Enum(n, v),
        MetaV::Class(n, e, _) => ValueV::Class(
            n,
            Seq::new(
                e.len(),
                |i: int|
                    if 0 <= i < e.len() {
                        (e[i].0, strip(e[i].1))
                    } else {
                        (Seq::empty(), ValueV::Null)
                    },
            ),
        ),
        MetaV::Null(_) => ValueV::Null,
    }
}

/// The value with every class replaced by a map of the same fields.
pub open spec fn classes_as_maps(v: ValueV) -> ValueV
    decreases v,
{
    match v {
        ValueV::Mapping(e) => ValueV::Mapping(
            Seq::new(
                e.len(),
                |i: int|
                    if 0 <= i < e.len() {
                        (e[i].0, classes_as_maps(e[i].1))
                    } else {
                        (Seq::empty(), ValueV::Null)
                    },
            ),
        ),
        ValueV::List(l) => ValueV::List(
            Seq::new(
                l.len(),
                |i: int|
                    if 0 <= i < l.len() {
                        classes_as_maps(l[i])
                    } else {
                        ValueV::Null
                    },
            ),
        ),
        ValueV::Class(_, e) => ValueV::Mapping(
            Seq::new(
                e.len(),
                |i: int|
                    if 0 <= i < e.len() {
                        (e[i].0, classes_as_maps(e[i].1))
                    } else {
                        (Seq::empty(), ValueV::Null)
                    },
            ),
        ),
        _ => v,
    }
}

impl BamlValue {
    /// The boolean inside, if this is a boolean.
    pub fn as_bool(&self) -> (r: Option<bool>)
        ensures
            r == (match self@ {
                ValueV::Bool(b) => Some(b),
                _ => None,
            }),
    {
        match self {
            BamlValue::Bool(b) => Some(*b),
            _ => None,
        }
    }

    /// The integer inside, if this is an integer.
    pub fn as_int(&self) -> (r: Option<i64>)
        ensures
            r == (match self@ {
                ValueV::Int(i) => Some(i),
                _ => None,
            }),
    {
        match self {
            BamlValue::Int(i) => Some(*i),
            _ => None,
        }
    }

    /// The text inside, if this is a string.
    pub fn as_str(&self) -> (r: Option<&str>)
        ensures
            match self@ {
                ValueV::String(s) => r is Some && r.unwrap()@ == s,
                _ => r is None,
            },
    {
        match self {
            BamlValue::String(s) => Some(s.as_str()),
            _ => None,
        }
    }

    /// Whether this is a map.
    pub fn is_map(&self) -> (r: bool)
        ensures
            r == (self@ is Mapping),
    {
        match self {
            BamlValue::Mapping(_) => true,
            _ => false,
        }
    }

    /// The map inside, if this is a map.
    pub fn as_map(&self) -> (r: Option<&BamlMap<BamlValue>>)
        ensures
            match self {
                BamlValue::Mapping(m) => r == Some(m),
                _ => r is None,
            },
    {
        match self {
            BamlValue::Mapping(m) => Some(m),
            _ => None,
        }
    }

    /// The map inside, taken out, if this is a map.
    pub fn as_map_owned(self) -> (r: Option<BamlMap<BamlValue>>)
        ensures
            match self {
                BamlValue::Mapping(m) => r == Some(m),
                _ => r is None,
            },
    {
        match self {
            BamlValue::Mapping(m) => Some(m),
            _ => None,
        }
    }

    /// The items inside, taken out, if this is a list.
    pub fn as_list_owned(self) -> (r: Option<Vec<BamlValue>>)
        ensures
            match self {
                BamlValue::List(l) => r == Some(l),
                _ => r is None,
            },
    {
        match self {
            BamlValue::List(l) => Some(l),
            _ => None,
        }
    }
}

/// Pairs of keys and stripped values, in the order given.
pub open spec fn strip_entries_spec<T>(e: Seq<(String, BamlValueWithMeta<T>)>) -> Seq<(Seq<char>, ValueV)> {
    Seq::new(e.len(), |i: int| (e[i].0@, strip(e[i].1@)))
}

/// Stripped values, in the order given.
pub open spec fn strip_items_spec<T>(l: Seq<BamlValueWithMeta<T>>) -> Seq<ValueV> {
    Seq::new(l.len(), |i: int| strip(l[i]@))
}

/// The view of a compound plain value, written with the sequence helpers.
pub proof fn lemma_value_view_shapes(v: BamlValue)
    ensures
        v matches BamlValue::Mapping(m) ==> v@ == ValueV::Mapping(entries_view(m.entries@)),
        v matches BamlValue::Class(n, m) ==> v@ == ValueV::Class(n@, entries_view(m.entries@)),
        v matches BamlValue::List(l) ==> v@ == ValueV::List(values_view(l@)),
{
    match v {
        BamlValue::Mapping(m) => {
            assert(v@ is Mapping);
            assert(v@->Mapping_0.len() == m.entries@.len());
            assert(v@->Mapping_0 =~= entries_view(m.entries@));
        },
        BamlValue::Class(n, m) => {
            assert(v@->Class_1 =~= entries_view(m.entries@));
        },
        BamlValue::List(l) => {
            assert(v@->List_0 =~= values_view(l@));
        },
        _ => {},
    }
}

/// The view of a compound value with metadata, written with the sequence helpers.
pub proof fn lemma_meta_view_shapes<T>(v: BamlValueWithMeta<T>)
    ensures
        v matches BamlValueWithMeta::Mapping(m, t) ==> v@ == MetaV::Mapping(meta_entries_view(m.entries@), t),
        v matches BamlValueWithMeta::Class(n, m, t) ==> v@ == MetaV::Class(n@, meta_entries_view(m.entries@), t),
        v matches BamlValueWithMeta::List(l, t) ==> v@ == MetaV::List(metas_view(l@), t),
{
    match v {
        BamlValueWithMeta::Mapping(m, t) => {
            assert(v@->Mapping_0 =~= meta_entries_view(m.entries@));
        },
        BamlValueWithMeta::Class(n, m, t) => {
            assert(v@->Class_1 =~= meta_entries_view(m.entries@));
        },
        BamlValueWithMeta::List(l, t) => {
            assert(v@->List_0 =~= metas_view(l@));
        },
        _ => {},
    }
}

/// Stripping a compound value, written with the sequence helpers.
pub proof fn lemma_strip_shapes<T>(v: MetaV<T>)
    ensures
        v matches MetaV::Mapping(e, _) ==> strip(v) == ValueV::Mapping(
            Seq::new(e.len(), |i: int| (e[i].0, strip(e[i].1))),
        ),
        v matches MetaV::Class(n, e, _) ==> strip(v) == ValueV::Class(
            n,
            Seq::new(e.len(), |i: int| (e[i].0, strip(e[i].1))),
        ),
        v matches MetaV::List(l, _) ==> strip(v) == ValueV::List(
            Seq::new(l.len(), |i: int| strip(l[i])),
        ),
{
    match v {
        MetaV::Mapping(e, _) => {
            assert(strip(v)->Mapping_0 =~= Seq::new(e.len(), |i: int| (e[i].0, strip(e[i].1))));
        },
        MetaV::Class(n, e, _) => {
            assert(strip(v)->Class_1 =~= Seq::new(e.len(), |i: int| (e[i].0, strip(e[i].1))));
        },
        MetaV::List(l, _) => {
            assert(strip(v)->List_0 =~= Seq::new(l.len(), |i: int| strip(l[i])));
        },
        _ => {},
    }
}

impl<T> BamlValueWithMeta<T> {
    /// The metadata at the root.
    pub fn meta(&self) -> (r: &T)
        ensures
            *r == meta_of(self@),
    {
        match self {
            BamlValueWithMeta::String(_, m) => m,
            BamlValueWithMeta::Int(_, m) => m,
            BamlValueWithMeta::Float(_, m) => m,
            BamlValueWithMeta::Bool(_, m) => m,
            BamlValueWithMeta::Mapping(_, m) => m,
            BamlValueWithMeta::List(_, m) => m,
            BamlValueWithMeta::Media(_, m) => m,
            BamlValueWithMeta::Enum(_, _, m) => m,
            BamlValueWithMeta::Class(_, _, m) => m,
            BamlValueWithMeta::Null(m) => m,
        }
    }

    /// The plain value, consuming this one.
    pub fn value(self) -> (r: BamlValue)
        ensures
            r@ == strip(self@),
        decreases self,
    {
        let ghost s = self@;
        match self {
            BamlValueWithMeta::String(v, _) => BamlValue::String(v),
            BamlValueWithMeta::Int(v, _) => BamlValue::Int(v),
            BamlValueWithMeta::Float(v, _) => BamlValue::Float(v),
            BamlValueWithMeta::Bool(v, _) => BamlValue::Bool(v),
            BamlValueWithMeta::Mapping(m, meta) => {
                let ghost e = m.entries@;
                proof {
                    lemma_meta_view_shapes(BamlValueWithMeta::<T>::Mapping(m, meta));
                    lemma_strip_shapes(s);
                }
                let r = strip_entries_owned(m.entries);
                let out = BamlValue::Mapping(BamlMap { entries: r });
                proof {
                    lemma_value_view_shapes(out);
                    let se = meta_entries_view(e);
                    assert(Seq::new(se.len(), |i: int| (se[i].0, strip(se[i].1))) =~= strip_entries_spec(e));
                }
                out
            },
            BamlValueWithMeta::List(l, meta) => {
                proof {
                    lemma_meta_view_shapes(BamlValueWithMeta::<T>::List(l, meta));
                    lemma_strip_shapes(s);
                }
                let ghost li = l@;
                let r = strip_items_owned(l);
                let out = BamlValue::List(r);
                proof {
                    lemma_value_view_shapes(out);
                    let sl = metas_view(li);
                    assert(Seq::new(sl.len(), |i: int| strip(sl[i])) =~= strip_items_spec(li));
                }
                out
            },
            BamlValueWithMeta::Media(v, _) => BamlValue::Media(v),
            BamlValueWithMeta::Enum(v, w, _) => BamlValue::Enum(v, w),
            BamlValueWithMeta::Class(n, fs, meta) => {
                proof {
                    lemma_meta_view_shapes(BamlValueWithMeta::<T>::Class(n, fs, meta));
                    lemma_strip_shapes(s);
                }
                let ghost e = fs.entries@;
                let r = strip_entries_owned(fs.entries);
                let out = BamlValue::Class(n, BamlMap { entries: r });
                proof {
                    lemma_value_view_shapes(out);
                    let se = meta_entries_view(e);
                    assert(Seq::new(se.len(), |i: int| (se[i].0, strip(se[i].1))) =~= strip_entries_spec(e));
                }
                out
            },
            BamlValueWithMeta::Null(_) => BamlValue::Null,
        }
    }
}

fn strip_entries_owned<T>(entries: Vec<(String, BamlValueWithMeta<T>)>) -> (r: Vec<(String, BamlValue)>)
    ensures
        entries_view(r@) == strip_entries_spec(entries@),
    decreases entries,
{
    let ghost orig = entries;
    let mut rest = entries;
    let mut out: Vec<(String, BamlValue)> = Vec::new();
    let ghost mut i: int = 0;
    while rest.len() > 0
        invariant
            rest@ == orig@.skip(i),
            orig == entries,
            0 <= i <= orig@.len(),
            out@.len() == i,
            forall|j: int| 0 <= j < i ==> (#[trigger] out@[j]).0@ == orig@[j].0@ && out@[j].1@ == strip(orig@[j].1@),
        decreases rest@.len(),
    {
        let (k, x) = rest.remove(0);
        proof {
            assert(orig@.skip(i)[0] == orig@[i]);
            assert(x == orig@[i].1);
            assert(decreases_to!(orig => orig@));
            assert(decreases_to!(orig@ => orig@[i]));
            assert(decreases_to!(orig@[i] => orig@[i].1));
            assert(decreases_to!(orig => x));
            assert(rest@ =~= orig@.skip(i + 1));
        }
        let y = x.value();
        out.push((k, y));
        proof {
            i = i + 1;
        }
    }
    assert(entries_view(out@) =~= strip_entries_spec(orig@));
    out
}

fn strip_items_owned<T>(items: Vec<BamlValueWithMeta<T>>) -> (r: Vec<BamlValue>)
    ensures
        values_view(r@) == strip_items_spec(items@),
    decreases items,
{
    let ghost orig = items;
    let mut rest = items;
    let mut out: Vec<BamlValue> = Vec::new();
    let ghost mut i: int = 0;
    while rest.len() > 0
        invariant
            rest@ == orig@.skip(i),
            orig == items,
            0 <= i <= orig@.len(),
            out@.len() == i,
            forall|j: int| 0 <= j < i ==> (#[trigger] out@[j])@ == strip(orig@[j]@),
        decreases rest@.len(),
    {
        let x = rest.remove(0);
        proof {
            assert(orig@.skip(i)[0] == orig@[i]);
            assert(x == orig@[i]);
            assert(decreases_to!(orig => orig@));
            assert(decreases_to!(orig@ => orig@[i]));
            assert(decreases_to!(orig => x));
            assert(rest@ =~= orig@.skip(i + 1));
        }
        let y = x.value();
        out.push(y);
        proof {
            i = i + 1;
        }
    }
    assert(values_view(out@) =~= strip_items_spec(orig@));
    out
}

/// `b` has the shape and plain contents of `a`, and each of its pieces of
/// metadata is a result of `f` on the metadata at the same place in `a`.
pub open spec fn map_meta_rel<T, U, F: Fn(&T) -> U>(a: MetaV<T>, b: MetaV<U>, f: F) -> bool
    decreases a, 1nat,
{
    f.ensures((&meta_of(a),), meta_of(b)) && match (a, b) {
        (MetaV::String(x, _), MetaV::String(y, _)) => x == y,
        (MetaV::Int(x, _), MetaV::Int(y, _)) => x == y,
        (MetaV::Float(x, _), MetaV::Float(y, _)) => x == y,
        (MetaV::Bool(x, _), MetaV::Bool(y, _)) => x == y,
        (MetaV::Media(x, _), MetaV::Media(y, _)) => x == y,
        (MetaV::Enum(n, x, _), MetaV::Enum(o, y, _)) => n == o && x == y,
        (MetaV::Null(_), MetaV::Null(_)) => true,
        (MetaV::Mapping(x, _), MetaV::Mapping(y, _)) => map_meta_pairs_rel(x, y, f),
        (MetaV::Class(n, x, _), MetaV::Class(o, y, _)) => n == o && map_meta_pairs_rel(x, y, f),
        (MetaV::List(x, _), MetaV::List(y, _)) => map_meta_items_rel(x, y, f),
        _ => false,
    }
}

/// The keys of abstract entries.
pub open spec fn key_views<X>(e: Seq<(Seq<char>, X)>) -> Seq<Seq<char>> {
    Seq::new(e.len(), |i: int| e[i].0)
}

/// Entry by entry, the same keys and values related by `map_meta_rel`.
pub open spec fn map_meta_pairs_rel<T, U, F: Fn(&T) -> U>(
    x: Seq<(Seq<char>, MetaV<T>)>,
    y: Seq<(Seq<char>, MetaV<U>)>,
    f: F,
) -> bool
    decreases x, 1nat,
{
    key_views(x) == key_views(y) && map_meta_vals_rel(x, y, f)
}

/// Entry by entry, values related by `map_meta_rel`.
pub open spec fn map_meta_vals_rel<T, U, F: Fn(&T) -> U>(
    x: Seq<(Seq<char>, MetaV<T>)>,
    y: Seq<(Seq<char>, MetaV<U>)>,
    f: F,
) -> bool
    decreases x, 0nat,
{
    if x.len() == 0 {
        y.len() == 0
    } else {
        y.len() == x.len()
            && map_meta_vals_rel(x.subrange(0, x.len() - 1), y.subrange(0, y.len() - 1), f)
            && map_meta_rel(x[x.len() - 1].1, y[y.len() - 1].1, f)
    }
}

/// The entry-wise relation, stated for every position.
pub proof fn lemma_map_meta_pairs_rel<T, U, F: Fn(&T) -> U>(
    x: Seq<(Seq<char>, MetaV<T>)>,
    y: Seq<(Seq<char>, MetaV<U>)>,
    f: F,
)
    ensures
        map_meta_pairs_rel(x, y, f) <==> (x.len() == y.len() && (forall|i: int|
            0 <= i < x.len() ==> x[i].0 == y[i].0) && (forall|i: int|
            0 <= i < x.len() ==> #[trigger] map_meta_rel(x[i].1, y[i].1, f))),
{
    lemma_map_meta_vals_rel(x, y, f);
    if x.len() == y.len() && forall|i: int| 0 <= i < x.len() ==> x[i].0 == y[i].0 {
        assert(key_views(x) =~= key_views(y));
    }
    if key_views(x) == key_views(y) {
        assert forall|i: int| 0 <= i < x.len() implies x[i].0 == y[i].0 by {
            assert(key_views(x).len() == x.len());
            assert(key_views(y).len() == y.len());
            assert(key_views(x)[i] == x[i].0);
            assert(key_views(y)[i] == y[i].0);
            assert(key_views(x)[i] == key_views(y)[i]);
        }
    }
}

/// The value-wise relation of entries, stated for every position.
pub proof fn lemma_map_meta_vals_rel<T, U, F: Fn(&T) -> U>(
    x: Seq<(Seq<char>, MetaV<T>)>,
    y: Seq<(Seq<char>, MetaV<U>)>,
    f: F,
)
    ensures
        map_meta_vals_rel(x, y, f) <==> (x.len() == y.len() && forall|i: int|
            0 <= i < x.len() ==> #[trigger] map_meta_rel(x[i].1, y[i].1, f)),
    decreases x.len(),
{
    if x.len() > 0 && y.len() == x.len() {
        let xs = x.subrange(0, x.len() - 1);
        let ys = y.subrange(0, y.len() - 1);
        lemma_map_meta_vals_rel(xs, ys, f);
        if forall|i: int| 0 <= i < x.len() ==> #[trigger] map_meta_rel(x[i].1, y[i].1, f) {
            assert forall|i: int| 0 <= i < xs.len() implies #[trigger] map_meta_rel(xs[i].1, ys[i].1, f) by {
                assert(xs[i] == x[i] && ys[i] == y[i]);
                assert(map_meta_rel(x[i].1, y[i].1, f));
            }
            assert(map_meta_rel(x[x.len() - 1].1, y[y.len() - 1].1, f));
        }
        if map_meta_vals_rel(x, y, f) {
            assert forall|i: int| 0 <= i < x.len() implies #[trigger] map_meta_rel(x[i].1, y[i].1, f) by {
                if i < x.len() - 1 {
                    assert(xs[i] == x[i] && ys[i] == y[i]);
                    assert(map_meta_rel(xs[i].1, ys[i].1, f));
                }
            }
        }
    }
}

/// Item by item, values related by `map_meta_rel`.
pub open spec fn map_meta_items_rel<T, U, F: Fn(&T) -> U>(x: Seq<MetaV<T>>, y: Seq<MetaV<U>>, f: F) -> bool
    decreases x, 0nat,
{
    if x.len() == 0 {
        y.len() == 0
    } else {
        y.len() == x.len()
            && map_meta_items_rel(x.subrange(0, x.len() - 1), y.subrange(0, y.len() - 1), f)
            && map_meta_rel(x[x.len() - 1], y[y.len() - 1], f)
    }
}

/// The item-wise relation, stated for every position.
pub proof fn lemma_map_meta_items_rel<T, U, F: Fn(&T) -> U>(x: Seq<MetaV<T>>, y: Seq<MetaV<U>>, f: F)
    ensures
        map_meta_items_rel(x, y, f) <==> (x.len() == y.len() && forall|i: int|
            0 <= i < x.len() ==> #[trigger] map_meta_rel(x[i], y[i], f)),
    decreases x.len(),
{
    if x.len() > 0 && y.len() == x.len() {
        let xs = x.subrange(0, x.len() - 1);
        let ys = y.subrange(0, y.len() - 1);
        lemma_map_meta_items_rel(xs, ys, f);
        if forall|i: int| 0 <= i < x.len() ==> #[trigger] map_meta_rel(x[i], y[i], f) {
            assert forall|i: int| 0 <= i < xs.len() implies #[trigger] map_meta_rel(xs[i], ys[i], f) by {
                assert(xs[i] == x[i] && ys[i] == y[i]);
                assert(map_meta_rel(x[i], y[i], f));
            }
            assert(map_meta_rel(x[x.len() - 1], y[y.len() - 1], f));
        }
        if map_meta_items_rel(x, y, f) {
            assert forall|i: int| 0 <= i < x.len() implies #[trigger] map_meta_rel(x[i], y[i], f) by {
                if i < x.len() - 1 {
                    assert(xs[i] == x[i] && ys[i] == y[i]);
                    assert(map_meta_rel(xs[i], ys[i], f));
                }
            }
        }
    }
}

/// The value with `g` applied to the metadata at every node.
pub open spec fn map_meta_spec<T, U>(a: MetaV<T>, g: spec_fn(T) -> U) -> MetaV<U>
    decreases a,
{
    match a {
        MetaV::String(s, m) => MetaV::String(s, g(m)),
        MetaV::Int(i, m) => MetaV::Int(i, g(m)),
        MetaV::Float(f, m) => MetaV::Float(f, g(m)),
        MetaV::Bool(b, m) => MetaV::Bool(b, g(m)),
        MetaV::Mapping(e, m) => MetaV::Mapping(
            Seq::new(
                e.len(),
                |i: int|
                    if 0 <= i < e.len() {
                        (e[i].0, map_meta_spec(e[i].1, g))
                    } else {
                        (Seq::empty(), MetaV::Null(g(m)))
                    },
            ),
            g(m),
        ),
        MetaV::List(l, m) => MetaV::List(
            Seq::new(
                l.len(),
                |i: int|
                    if 0 <= i < l.len() {
                        map_meta_spec(l[i], g)
                    } else {
                        MetaV::Null(g(m))
                    },
            ),
            g(m),
        ),
        MetaV::Media(x, m) => MetaV::Media(x, g(m)),
        MetaV::Enum(n, v, m) => MetaV::Enum(n, v, g(m)),
        MetaV::Class(n, e, m) => MetaV::Class(
            n,
            Seq::new(
                e.len(),
                |i: int|
                    if 0 <= i < e.len() {
                        (e[i].0, map_meta_spec(e[i].1, g))
                    } else {
                        (Seq::empty(), MetaV::Null(g(m)))
                    },
            ),
            g(m),
        ),
        MetaV::Null(m) => MetaV::Null(g(m)),
    }
}

/// When every result of `f` is `g` of its argument, `map_meta_rel` pins the
/// mapped value down: it is `map_meta_spec` with `g`.
pub proof fn lemma_map_meta_functional<T, U, F: Fn(&T) -> U>(a: MetaV<T>, b: MetaV<U>, f: F, g: spec_fn(T) -> U)
    requires
        map_meta_rel(a, b, f),
        forall|t: &T, u: U| #[trigger] f.ensures((t,), u) ==> u == g(*t),
    ensures
        b == map_meta_spec(a, g),
    decreases a,
{
    assert(f.ensures((&meta_of(a),), meta_of(b)));
    match (a, b) {
        (MetaV::Mapping(x, _), MetaV::Mapping(y, _)) => {
            lemma_map_meta_pairs_rel(x, y, f);
            assert forall|i: int| 0 <= i < x.len() implies #[trigger] y[i] == (x[i].0, map_meta_spec(x[i].1, g)) by {
                assert(map_meta_rel(x[i].1, y[i].1, f));
                lemma_map_meta_functional(x[i].1, y[i].1, f, g);
            }
            assert(y =~= map_meta_spec(a, g)->Mapping_0);
        },
        (MetaV::Class(_, x, _), MetaV::Class(_, y, _)) => {
            lemma_map_meta_pairs_rel(x, y, f);
            assert forall|i: int| 0 <= i < x.len() implies #[trigger] y[i] == (x[i].0, map_meta_spec(x[i].1, g)) by {
                assert(map_meta_rel(x[i].1, y[i].1, f));
                lemma_map_meta_functional(x[i].1, y[i].1, f, g);
            }
            assert(y =~= map_meta_spec(a, g)->Class_1);
        },
        (MetaV::List(x, _), MetaV::List(y, _)) => {
            lemma_map_meta_items_rel(x, y, f);
            assert forall|i: int| 0 <= i < x.len() implies #[trigger] y[i] == map_meta_spec(x[i], g) by {
                assert(map_meta_rel(x[i], y[i], f));
                lemma_map_meta_functional(x[i], y[i], f, g);
            }
            assert(y =~= map_meta_spec(a, g)->List_0);
        },
        _ => {},
    }
}

impl<T> BamlValueWithMeta<T> {
    /// The metadata at the root, for writing.
    pub fn meta_mut(&mut self) -> (r: &mut T)
        ensures
            *r == meta_of(old(self)@),
            final(self)@ == with_root_meta(old(self)@, *final(r)),
    {
        match self {
            BamlValueWithMeta::String(_, m) => m,
            BamlValueWithMeta::Int(_, m) => m,
            BamlValueWithMeta::Float(_, m) => m,
            BamlValueWithMeta::Bool(_, m) => m,
            BamlValueWithMeta::Mapping(_, m) => m,
            BamlValueWithMeta::List(_, m) => m,
            BamlValueWithMeta::Media(_, m) => m,
            BamlValueWithMeta::Enum(_, _, m) => m,
            BamlValueWithMeta::Class(_, _, m) => m,
            BamlValueWithMeta::Null(m) => m,
        }
    }

    /// The plain value, leaving this one in place.
    pub fn to_value(&self) -> (r: BamlValue)
        ensures
            r@ == strip(self@),
        decreases self,
    {
        proof {
            lemma_meta_view_shapes(*self);
            lemma_strip_shapes(self@);
        }
        match self {
            BamlValueWithMeta::String(v, _) => BamlValue::String(v.clone()),
            BamlValueWithMeta::Int(v, _) => BamlValue::Int(*v),
            BamlValueWithMeta::Float(v, _) => BamlValue::Float(*v),
            BamlValueWithMeta::Bool(v, _) => BamlValue::Bool(*v),
            BamlValueWithMeta::Mapping(m, _) => {
                let r = strip_entries_ref(&m.entries);
                let out = BamlValue::Mapping(BamlMap { entries: r });
                proof {
                    lemma_value_view_shapes(out);
                    let se = meta_entries_view(m.entries@);
                    assert(Seq::new(se.len(), |i: int| (se[i].0, strip(se[i].1))) =~= strip_entries_spec(m.entries@));
                }
                out
            },
            BamlValueWithMeta::List(l, _) => {
                let r = strip_items_ref(l);
                let out = BamlValue::List(r);
                proof {
                    lemma_value_view_shapes(out);
                    let sl = metas_view(l@);
                    assert(Seq::new(sl.len(), |i: int| strip(sl[i])) =~= strip_items_spec(l@));
                }
                out
            },
            BamlValueWithMeta::Media(v, _) => BamlValue::Media(v.duplicate()),
            BamlValueWithMeta::Enum(n, v, _) => BamlValue::Enum(n.clone(), v.clone()),
            BamlValueWithMeta::Class(n, m, _) => {
                let r = strip_entries_ref(&m.entries);
                let out = BamlValue::Class(n.clone(), BamlMap { entries: r });
                proof {
                    lemma_value_view_shapes(out);
                    let se = meta_entries_view(m.entries@);
                    assert(Seq::new(se.len(), |i: int| (se[i].0, strip(se[i].1))) =~= strip_entries_spec(m.entries@));
                }
                out
            },
            BamlValueWithMeta::Null(_) => BamlValue::Null,
        }
    }
}

fn strip_entries_ref<T>(entries: &Vec<(String, BamlValueWithMeta<T>)>) -> (r: Vec<(String, BamlValue)>)
    ensures
        entries_view(r@) == strip_entries_spec(entries@),
    decreases entries,
{
    let mut out: Vec<(String, BamlValue)> = Vec::new();
    let mut i: usize = 0;
    while i < entries.len()
        invariant
            i <= entries@.len(),
            out@.len() == i,
            forall|j: int| 0 <= j < i ==> (#[trigger] out@[j]).0@ == entries@[j].0@ && out@[j].1@ == strip(entries@[j].1@),
        decreases entries@.len() - i,
    {
        proof {
            assert(decreases_to!(entries => entries@[i as int].1));
        }
        let k = entries[i].0.clone();
        let y = entries[i].1.to_value();
        out.push((k, y));
        i = i + 1;
    }
    assert(entries_view(out@) =~= strip_entries_spec(entries@));
    out
}

fn strip_items_ref<T>(items: &Vec<BamlValueWithMeta<T>>) -> (r: Vec<BamlValue>)
    ensures
        values_view(r@) == strip_items_spec(items@),
    decreases items,
{
    let mut out: Vec<BamlValue> = Vec::new();
    let mut i: usize = 0;
    while i < items.len()
        invariant
            i <= items@.len(),
            out@.len() == i,
            forall|j: int| 0 <= j < i ==> (#[trigger] out@[j])@ == strip(items@[j]@),
        decreases items@.len() - i,
    {
        proof {
            assert(decreases_to!(items => items@[i as int]));
        }
        let y = items[i].to_value();
        out.push(y);
        i = i + 1;
    }
    assert(values_view(out@) =~= strip_items_spec(items@));
    out
}

/// Replacing classes by maps, for compound values, written with sequences.
pub proof fn lemma_classes_as_maps_shapes(v: ValueV)
    ensures
        v matches ValueV::Mapping(e) ==> classes_as_maps(v) == ValueV::Mapping(
            Seq::new(e.len(), |i: int| (e[i].0, classes_as_maps(e[i].1))),
        ),
        v matches ValueV::Class(_, e) ==> classes_as_maps(v) == ValueV::Mapping(
            Seq::new(e.len(), |i: int| (e[i].0, classes_as_maps(e[i].1))),
        ),
        v matches ValueV::List(l) ==> classes_as_maps(v) == ValueV::List(
            Seq::new(l.len(), |i: int| classes_as_maps(l[i])),
        ),
{
    match v {
        ValueV::Mapping(e) => {
            assert(classes_as_maps(v)->Mapping_0 =~= Seq::new(e.len(), |i: int| (e[i].0, classes_as_maps(e[i].1))));
        },
        ValueV::Class(_, e) => {
            assert(classes_as_maps(v)->Mapping_0 =~= Seq::new(e.len(), |i: int| (e[i].0, classes_as_maps(e[i].1))));
        },
        ValueV::List(l) => {
            assert(classes_as_maps(v)->List_0 =~= Seq::new(l.len(), |i: int| classes_as_maps(l[i])));
        },
        _ => {},
    }
}

/// `m` is a value that `T::default()` returns.
pub open spec fn is_default_meta<T: Default>(m: T) -> bool {
    call_ensures(T::default, (), m)
}

/// Every node's metadata is a value that `T::default()` returns.
pub open spec fn default_metas<T: Default>(v: MetaV<T>) -> bool
    decreases v, 1nat,
{
    is_default_meta(meta_of(v)) && match v {
        MetaV::Mapping(e, _) => default_metas_pairs(e),
        MetaV::Class(_, e, _) => default_metas_pairs(e),
        MetaV::List(l, _) => default_metas_items(l),
        _ => true,
    }
}

/// `default_metas` of every entry's value.
pub open spec fn default_metas_pairs<T: Default>(e: Seq<(Seq<char>, MetaV<T>)>) -> bool
    decreases e, 0nat,
{
    if e.len() == 0 {
        true
    } else {
        default_metas_pairs(e.subrange(0, e.len() - 1)) && default_metas(e[e.len() - 1].1)
    }
}

/// `default_metas` of every item.
pub open spec fn default_metas_items<T: Default>(l: Seq<MetaV<T>>) -> bool
    decreases l, 0nat,
{
    if l.len() == 0 {
        true
    } else {
        default_metas_items(l.subrange(0, l.len() - 1)) && default_metas(l[l.len() - 1])
    }
}

proof fn lemma_default_metas_pairs<T: Default>(e: Seq<(Seq<char>, MetaV<T>)>)
    requires
        forall|i: int| 0 <= i < e.len() ==> #[trigger] default_metas(e[i].1),
    ensures
        default_metas_pairs(e),
    decreases e.len(),
{
    if e.len() > 0 {
        let d = e.subrange(0, e.len() - 1);
        assert forall|i: int| 0 <= i < d.len() implies #[trigger] default_metas(d[i].1) by {
            assert(d[i] == e[i]);
        }
        lemma_default_metas_pairs(d);
        assert(default_metas(e[e.len() - 1].1));
    }
}

proof fn lemma_default_metas_items<T: Default>(l: Seq<MetaV<T>>)
    requires
        forall|i: int| 0 <= i < l.len() ==> #[trigger] default_metas(l[i]),
    ensures
        default_metas_items(l),
    decreases l.len(),
{
    if l.len() > 0 {
        let d = l.subrange(0, l.len() - 1);
        assert forall|i: int| 0 <= i < d.len() implies #[trigger] default_metas(d[i]) by {
            assert(d[i] == l[i]);
        }
        lemma_default_metas_items(d);
        assert(default_metas(l[l.len() - 1]));
    }
}

impl<T> BamlValueWithMeta<T> {
    /// The value with `T::default()` as metadata at every node; a class
    /// becomes a map of its fields.
    pub fn with_default_meta(value: &BamlValue) -> (r: BamlValueWithMeta<T>)
        where
            T: Default,
        ensures
            strip(r@) == classes_as_maps(value@),
            default_metas(r@),
        decreases value,
    {
        proof {
            lemma_value_view_shapes(*value);
            lemma_classes_as_maps_shapes(value@);
        }
        let r = match value {
            BamlValue::String(s) => BamlValueWithMeta::String(s.clone(), T::default()),
            BamlValue::Int(i) => BamlValueWithMeta::Int(*i, T::default()),
            BamlValue::Float(f) => BamlValueWithMeta::Float(*f, T::default()),
            BamlValue::Bool(b) => BamlValueWithMeta::Bool(*b, T::default()),
            BamlValue::Mapping(entries) => {
                let e = default_meta_entries(&entries.entries);
                let r = BamlValueWithMeta::Mapping(BamlMap { entries: e }, T::default());
                proof {
                    lemma_meta_view_shapes(r);
                    lemma_default_metas_pairs(meta_entries_view(e@));
                    lemma_strip_shapes(r@);
                    let se = meta_entries_view(e@);
                    let ve = entries_view(entries.entries@);
                    assert(Seq::new(se.len(), |i: int| (se[i].0, strip(se[i].1))) =~= Seq::new(ve.len(), |i: int| (ve[i].0, classes_as_maps(ve[i].1))));
                }
                r
            },
            BamlValue::List(items) => {
                let l = default_meta_items(items);
                let r = BamlValueWithMeta::List(l, T::default());
                proof {
                    lemma_meta_view_shapes(r);
                    lemma_default_metas_items(metas_view(l@));
                    lemma_strip_shapes(r@);
                    let sl = metas_view(l@);
                    let vl = values_view(items@);
                    assert(Seq::new(sl.len(), |i: int| strip(sl[i])) =~= Seq::new(vl.len(), |i: int| classes_as_maps(vl[i])));
                }
                r
            },
            BamlValue::Media(m) => BamlValueWithMeta::Media(m.duplicate(), T::default()),
            BamlValue::Enum(n, v) => BamlValueWithMeta::Enum(n.clone(), v.clone(), T::default()),
            BamlValue::Class(_, items) => {
                let e = default_meta_entries(&items.entries);
                let r = BamlValueWithMeta::Mapping(BamlMap { entries: e }, T::default());
                proof {
                    lemma_meta_view_shapes(r);
                    lemma_default_metas_pairs(meta_entries_view(e@));
                    lemma_strip_shapes(r@);
                    let se = meta_entries_view(e@);
                    let ve = entries_view(items.entries@);
                    assert(Seq::new(se.len(), |i: int| (se[i].0, strip(se[i].1))) =~= Seq::new(ve.len(), |i: int| (ve[i].0, classes_as_maps(ve[i].1))));
                }
                r
            },
            BamlValue::Null => BamlValueWithMeta::Null(T::default()),
        };
        r
    }

    /// A copy of the value whose metadata is `f` applied to the metadata at
    /// the same place.
    pub fn map_meta<U, F: Fn(&T) -> U + Copy>(&self, f: F) -> (r: BamlValueWithMeta<U>)
        requires
            forall|t: &T| #[trigger] f.requires((t,)),
        ensures
            map_meta_rel(self@, r@, f),
        decreases self,
    {
        proof {
            lemma_meta_view_shapes(*self);
        }
        let r = match self {
            BamlValueWithMeta::String(v, m) => BamlValueWithMeta::String(v.clone(), f(m)),
            BamlValueWithMeta::Int(v, m) => BamlValueWithMeta::Int(*v, f(m)),
            BamlValueWithMeta::Float(v, m) => BamlValueWithMeta::Float(*v, f(m)),
            BamlValueWithMeta::Bool(v, m) => BamlValueWithMeta::Bool(*v, f(m)),
            BamlValueWithMeta::Mapping(v, m) => {
                let e = map_meta_entries(&v.entries, f);
                let r = BamlValueWithMeta::Mapping(BamlMap { entries: e }, f(m));
                proof {
                    lemma_meta_view_shapes(r);
                    lemma_map_meta_pairs_rel(meta_entries_view(v.entries@), meta_entries_view(e@), f);
                }
                r
            },
            BamlValueWithMeta::List(v, m) => {
                let l = map_meta_items(v, f);
                let r = BamlValueWithMeta::List(l, f(m));
                proof {
                    lemma_meta_view_shapes(r);
                    lemma_map_meta_items_rel(metas_view(v@), metas_view(l@), f);
                }
                r
            },
            BamlValueWithMeta::Media(v, m) => BamlValueWithMeta::Media(v.duplicate(), f(m)),
            BamlValueWithMeta::Enum(v, e, m) => BamlValueWithMeta::Enum(v.clone(), e.clone(), f(m)),
            BamlValueWithMeta::Class(n, fs, m) => {
                let e = map_meta_entries(&fs.entries, f);
                let r = BamlValueWithMeta::Class(n.clone(), BamlMap { entries: e }, f(m));
                proof {
                    lemma_meta_view_shapes(r);
                    lemma_map_meta_pairs_rel(meta_entries_view(fs.entries@), meta_entries_view(e@), f);
                }
                r
            },
            BamlValueWithMeta::Null(m) => BamlValueWithMeta::Null(f(m)),
        };
        r
    }
}

fn default_meta_entries<T: Default>(entries: &Vec<(String, BamlValue)>) -> (r: Vec<(String, BamlValueWithMeta<T>)>)
    ensures
        r@.len() == entries@.len(),
        forall|j: int| 0 <= j < r@.len() ==> (#[trigger] r@[j]).0@ == entries@[j].0@ && strip(r@[j].1@) == classes_as_maps(entries@[j].1@),
        forall|j: int| 0 <= j < r@.len() ==> default_metas((#[trigger] r@[j]).1@),
    decreases entries,
{
    let mut out: Vec<(String, BamlValueWithMeta<T>)> = Vec::new();
    let mut i: usize = 0;
    while i < entries.len()
        invariant
            i <= entries@.len(),
            out@.len() == i,
            forall|j: int| 0 <= j < i ==> (#[trigger] out@[j]).0@ == entries@[j].0@ && strip(out@[j].1@) == classes_as_maps(entries@[j].1@),
            forall|j: int| 0 <= j < i ==> default_metas((#[trigger] out@[j]).1@),
        decreases entries@.len() - i,
    {
        proof {
            assert(decreases_to!(entries => entries@[i as int].1));
        }
        let k = entries[i].0.clone();
        let y = BamlValueWithMeta::<T>::with_default_meta(&entries[i].1);
        out.push((k, y));
        i = i + 1;
    }
    out
}

fn default_meta_items<T: Default>(items: &Vec<BamlValue>) -> (r: Vec<BamlValueWithMeta<T>>)
    ensures
        r@.len() == items@.len(),
        forall|j: int| 0 <= j < r@.len() ==> strip((#[trigger] r@[j])@) == classes_as_maps(items@[j]@),
        forall|j: int| 0 <= j < r@.len() ==> default_metas((#[trigger] r@[j])@),
    decreases items,
{
    let mut out: Vec<BamlValueWithMeta<T>> = Vec::new();
    let mut i: usize = 0;
    while i < items.len()
        invariant
            i <= items@.len(),
            out@.len() == i,
            forall|j: int| 0 <= j < i ==> strip((#[trigger] out@[j])@) == classes_as_maps(items@[j]@),
            forall|j: int| 0 <= j < i ==> default_metas((#[trigger] out@[j])@),
        decreases items@.len() - i,
    {
        proof {
            assert(decreases_to!(items => items@[i as int]));
        }
        let y = BamlValueWithMeta::<T>::with_default_meta(&items[i]);
        out.push(y);
        i = i + 1;
    }
    out
}

fn map_meta_entries<T, U, F: Fn(&T) -> U + Copy>(entries: &Vec<(String, BamlValueWithMeta<T>)>, f: F) -> (r: Vec<(String, BamlValueWithMeta<U>)>)
    requires
        forall|t: &T| #[trigger] f.requires((t,)),
    ensures
        r@.len() == entries@.len(),
        forall|j: int| 0 <= j < r@.len() ==> (#[trigger] r@[j]).0@ == entries@[j].0@ && map_meta_rel(entries@[j].1@, r@[j].1@, f),
    decreases entries,
{
    let mut out: Vec<(String, BamlValueWithMeta<U>)> = Vec::new();
    let mut i: usize = 0;
    while i < entries.len()
        invariant
            i <= entries@.len(),
            out@.len() == i,
            forall|t: &T| #[trigger] f.requires((t,)),
            forall|j: int| 0 <= j < i ==> (#[trigger] out@[j]).0@ == entries@[j].0@ && map_meta_rel(entries@[j].1@, out@[j].1@, f),
        decreases entries@.len() - i,
    {
        proof {
            assert(decreases_to!(entries => entries@[i as int].1));
        }
        let k = entries[i].0.clone();
        let y = entries[i].1.map_meta(f);
        out.push((k, y));
        i = i + 1;
    }
    out
}

fn map_meta_items<T, U, F: Fn(&T) -> U + Copy>(items: &Vec<BamlValueWithMeta<T>>, f: F) -> (r: Vec<BamlValueWithMeta<U>>)
    requires
        forall|t: &T| #[trigger] f.requires((t,)),
    ensures
        r@.len() == items@.len(),
        forall|j: int| 0 <= j < r@.len() ==> map_meta_rel(items@[j]@, (#[trigger] r@[j])@, f),
    decreases items,
{
    let mut out: Vec<BamlValueWithMeta<U>> = Vec::new();
    let mut i: usize = 0;
    while i < items.len()
        invariant
            i <= items@.len(),
            out@.len() == i,
            forall|t: &T| #[trigger] f.requires((t,)),
            forall|j: int| 0 <= j < i ==> map_meta_rel(items@[j]@, (#[trigger] out@[j])@, f),
        decreases items@.len() - i,
    {
        proof {
            assert(decreases_to!(items => items@[i as int]));
        }
        let y = items[i].map_meta(f);
        out.push(y);
        i = i + 1;
    }
    out
}

fn copy_entries(entries: &Vec<(String, BamlValue)>) -> (r: Vec<(String, BamlValue)>)
    ensures
        entries_view(r@) == entries_view(entries@),
    decreases entries,
{
    let mut out: Vec<(String, BamlValue)> = Vec::new();
    let mut i: usize = 0;
    while i < entries.len()
        invariant
            i <= entries@.len(),
            out@.len() == i,
            forall|j: int| 0 <= j < i ==> (#[trigger] out@[j]).0@ == entries@[j].0@ && out@[j].1@ == entries@[j].1@,
        decreases entries@.len() - i,
    {
        proof {
            assert(decreases_to!(entries => entries@[i as int].1));
        }
        let k = entries[i].0.clone();
        let v = copy_value(&entries[i].1);
        out.push((k, v));
        i = i + 1;
    }
    assert(entries_view(out@) =~= entries_view(entries@));
    out
}

fn copy_items(items: &Vec<BamlValue>) -> (r: Vec<BamlValue>)
    ensures
        values_view(r@) == values_view(items@),
    decreases items,
{
    let mut out: Vec<BamlValue> = Vec::new();
    let mut i: usize = 0;
    while i < items.len()
        invariant
            i <= items@.len(),
            out@.len() == i,
            forall|j: int| 0 <= j < i ==> (#[trigger] out@[j])@ == items@[j]@,
        decreases items@.len() - i,
    {
        proof {
            assert(decreases_to!(items => items@[i as int]));
        }
        let v = copy_value(&items[i]);
        out.push(v);
        i = i + 1;
    }
    assert(values_view(out@) =~= values_view(items@));
    out
}

/// A copy of a plain value.
fn copy_value(v: &BamlValue) -> (r: BamlValue)
    ensures
        r@ == v@,
    decreases v,
{
    proof {
        lemma_value_view_shapes(*v);
    }
    let r = match v {
        BamlValue::String(s) => BamlValue::String(s.clone()),
        BamlValue::Int(i) => BamlValue::Int(*i),
        BamlValue::Float(f) => BamlValue::Float(*f),
        BamlValue::Bool(b) => BamlValue::Bool(*b),
        BamlValue::Mapping(m) => BamlValue::Mapping(BamlMap { entries: copy_entries(&m.entries) }),
        BamlValue::List(l) => BamlValue::List(copy_items(l)),
        BamlValue::Media(m) => BamlValue::Media(m.duplicate()),
        BamlValue::Enum(n, x) => BamlValue::Enum(n.clone(), x.clone()),
        BamlValue::Class(n, m) => BamlValue::Class(n.clone(), BamlMap { entries: copy_entries(&m.entries) }),
        BamlValue::Null => BamlValue::Null,
    };
    proof {
        lemma_value_view_shapes(r);
    }
    r
}

impl Clone for BamlValue {
    /// A copy with the same view.
    fn clone(&self) -> (r: Self)
        ensures
            r@ == self@,
    {
        copy_value(self)
    }
}

impl<T: Clone> Clone for BamlValueWithMeta<T> {
    /// A copy: the same plain contents, each piece of metadata cloned.
    fn clone(&self) -> (r: Self)
        ensures
            map_meta_rel(self@, r@, T::clone),
    {
        self.map_meta(T::clone)
    }
}

} // verus!
