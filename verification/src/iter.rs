use std::collections::VecDeque;

use vstd::prelude::*;

use crate::value::{lemma_meta_view_shapes, meta_entries_view, metas_view, BamlValueWithMeta, MetaV};

verus! {

/// The nodes of a value in the order a stack-based depth-first walk visits
/// them: the node itself, then the subtrees of its children from the last
/// child to the first.
pub open spec fn walk<T>(v: MetaV<T>) -> Seq<MetaV<T>>
    decreases v, 1nat,
{
    seq![v] + match v {
        MetaV::Mapping(e, _) => walk_entries_rev(e),
        MetaV::Class(_, e, _) => walk_entries_rev(e),
        MetaV::List(l, _) => walk_items_rev(l),
        _ => Seq::empty(),
    }
}

/// The walks of the values of entries, last entry first.
pub open spec fn walk_entries_rev<T>(e: Seq<(Seq<char>, MetaV<T>)>) -> Seq<MetaV<T>>
    decreases e, 0nat,
{
    if e.len() == 0 {
        Seq::empty()
    } else {
        walk(e[e.len() - 1].1) + walk_entries_rev(e.subrange(0, e.len() - 1))
    }
}

/// The walks of items, last item first.
pub open spec fn walk_items_rev<T>(l: Seq<MetaV<T>>) -> Seq<MetaV<T>>
    decreases l, 0nat,
{
    if l.len() == 0 {
        Seq::empty()
    } else {
        walk(l[l.len() - 1]) + walk_items_rev(l.subrange(0, l.len() - 1))
    }
}

/// What a walk still has to visit when `s` is its stack (top last).
pub open spec fn walk_stack<T>(s: Seq<MetaV<T>>) -> Seq<MetaV<T>>
    decreases s.len(),
{
    if s.len() == 0 {
        Seq::empty()
    } else {
        walk(s.last()) + walk_stack(s.drop_last())
    }
}

/// Views of the referenced values.
pub open spec fn refs_view<'a, T>(s: Seq<&'a BamlValueWithMeta<T>>) -> Seq<MetaV<T>> {
    Seq::new(s.len(), |i: int| s[i]@)
}

proof fn lemma_walk_stack_append<T>(s: Seq<MetaV<T>>, t: Seq<MetaV<T>>)
    ensures
        walk_stack(s + t) == walk_stack(t) + walk_stack(s),
    decreases t.len(),
{
    if t.len() == 0 {
        assert(s + t =~= s);
        assert(walk_stack(t) + walk_stack(s) =~= walk_stack(s));
    } else {
        assert((s + t).drop_last() =~= s + t.drop_last());
        assert((s + t).last() == t.last());
        lemma_walk_stack_append(s, t.drop_last());
        assert(walk_stack(s + t) =~= walk(t.last()) + (walk_stack(t.drop_last()) + walk_stack(s)));
    }
}

proof fn lemma_walk_stack_items<T>(l: Seq<MetaV<T>>)
    ensures
        walk_stack(l) == walk_items_rev(l),
    decreases l.len(),
{
    if l.len() > 0 {
        lemma_walk_stack_items(l.drop_last());
        assert(l.drop_last() =~= l.subrange(0, l.len() - 1));
    }
}

proof fn lemma_walk_stack_entries<T>(e: Seq<(Seq<char>, MetaV<T>)>)
    ensures
        walk_stack(Seq::new(e.len(), |i: int| e[i].1)) == walk_entries_rev(e),
    decreases e.len(),
{
    if e.len() > 0 {
        let d = e.subrange(0, e.len() - 1);
        lemma_walk_stack_entries(d);
        assert(Seq::new(e.len(), |i: int| e[i].1).drop_last() =~= Seq::new(d.len(), |i: int| d[i].1));
    }
}

/// A depth-first walk over a value and all the values inside it.
pub struct BamlValueWithMetaIterator<'a, T> {
    stack: VecDeque<&'a BamlValueWithMeta<T>>,
}

impl<'a, T> BamlValueWithMetaIterator<'a, T> {
    /// The nodes this walk has yet to visit, in order.
    pub closed spec fn remaining(&self) -> Seq<MetaV<T>> {
        walk_stack(refs_view(self.stack@))
    }

    /// A walk that starts at `root`.
    fn new(root: &'a BamlValueWithMeta<T>) -> (r: Self)
        ensures
            r.remaining() == walk(root@),
    {
        let mut stack: VecDeque<&'a BamlValueWithMeta<T>> = VecDeque::new();
        stack.push_back(root);
        let r = BamlValueWithMetaIterator { stack };
        proof {
            assert(refs_view(r.stack@) =~= seq![root@]);
            assert(seq![root@].drop_last() =~= Seq::<MetaV<T>>::empty());
            assert(walk_stack(seq![root@]) == walk(root@) + walk_stack(Seq::<MetaV<T>>::empty()));
            assert(refs_view(r.stack@).drop_last() =~= Seq::empty());
            assert(walk(root@) + Seq::<MetaV<T>>::empty() =~= walk(root@));
        }
        r
    }

    /// The next node of the walk, or `None` when every node has been visited.
    pub fn next(&mut self) -> (r: Option<&'a BamlValueWithMeta<T>>)
        ensures
            match r {
                Some(v) => old(self).remaining() == seq![v@] + final(self).remaining(),
                None => old(self).remaining().len() == 0 && final(self).remaining().len() == 0,
            },
    {
        let ghost before = refs_view(self.stack@);
        match self.stack.pop_back() {
            Some(value) => {
                let ghost rest = refs_view(self.stack@);
                proof {
                    assert(before.drop_last() =~= rest);
                    assert(before.last() == value@);
                    lemma_meta_view_shapes(*value);
                }
                match value {
                    BamlValueWithMeta::List(items, _) => {
                        let mut i: usize = 0;
                        while i < items.len()
                            invariant
                                i <= items@.len(),
                                refs_view(self.stack@) == rest + metas_view(items@).take(i as int),
                            decreases items@.len() - i,
                        {
                            let ghost s0 = self.stack@;
                            let it = &items[i];
                            self.stack.push_back(it);
                            assert(self.stack@ == s0.push(it));
                            assert(refs_view(self.stack@).len() == refs_view(s0).len() + 1);
                            assert(refs_view(self.stack@)[refs_view(s0).len() as int] == it@);
                            assert(it@ == metas_view(items@)[i as int]);
                            assert(refs_view(self.stack@) =~= refs_view(s0).push(it@));
                            assert(rest + metas_view(items@).take(i + 1) =~= (rest + metas_view(items@).take(i as int)).push(it@));
                            i = i + 1;
                        }
                        proof {
                            assert(metas_view(items@).take(i as int) =~= metas_view(items@));
                            lemma_walk_stack_append(rest, metas_view(items@));
                            lemma_walk_stack_items(metas_view(items@));
                        }
                    },
                    BamlValueWithMeta::Mapping(fields, _) => {
                        let ghost ch = Seq::new(meta_entries_view(fields.entries@).len(), |k: int| meta_entries_view(fields.entries@)[k].1);
                        let mut i: usize = 0;
                        while i < fields.entries.len()
                            invariant
                                i <= fields.entries@.len(),
                                ch == Seq::new(meta_entries_view(fields.entries@).len(), |k: int| meta_entries_view(fields.entries@)[k].1),
                                refs_view(self.stack@) == rest + ch.take(i as int),
                            decreases fields.entries@.len() - i,
                        {
                            let ghost s0 = self.stack@;
                            let it = &fields.entries[i].1;
                            self.stack.push_back(it);
                            assert(it@ == ch[i as int]);
                            assert(refs_view(self.stack@) =~= refs_view(s0).push(it@));
                            assert(rest + ch.take(i + 1) =~= (rest + ch.take(i as int)).push(it@));
                            i = i + 1;
                        }
                        proof {
                            assert(ch.take(i as int) =~= ch);
                            lemma_walk_stack_append(rest, ch);
                            lemma_walk_stack_entries(meta_entries_view(fields.entries@));
                        }
                    },
                    BamlValueWithMeta::Class(_, fields, _) => {
                        let ghost ch = Seq::new(meta_entries_view(fields.entries@).len(), |k: int| meta_entries_view(fields.entries@)[k].1);
                        let mut i: usize = 0;
                        while i < fields.entries.len()
                            invariant
                                i <= fields.entries@.len(),
                                ch == Seq::new(meta_entries_view(fields.entries@).len(), |k: int| meta_entries_view(fields.entries@)[k].1),
                                refs_view(self.stack@) == rest + ch.take(i as int),
                            decreases fields.entries@.len() - i,
                        {
                            let ghost s0 = self.stack@;
                            let it = &fields.entries[i].1;
                            self.stack.push_back(it);
                            assert(it@ == ch[i as int]);
                            assert(refs_view(self.stack@) =~= refs_view(s0).push(it@));
                            assert(rest + ch.take(i + 1) =~= (rest + ch.take(i as int)).push(it@));
                            i = i + 1;
                        }
                        proof {
                            assert(ch.take(i as int) =~= ch);
                            lemma_walk_stack_append(rest, ch);
                            lemma_walk_stack_entries(meta_entries_view(fields.entries@));
                        }
                    },
                    _ => {
                        assert(rest + Seq::<MetaV<T>>::empty() =~= rest);
                        assert(walk(value@) =~= seq![value@]);
                    },
                }
                proof {
                    assert(walk_stack(before) =~= seq![value@] + walk_stack(refs_view(self.stack@)));
                }
                Some(value)
            },
            None => {
                None
            },
        }
    }
}

impl<T> BamlValueWithMeta<T> {
    /// A depth-first walk over this value and every value inside it.
    pub fn iter<'a>(&'a self) -> (r: BamlValueWithMetaIterator<'a, T>)
        ensures
            r.remaining() == walk(self@),
    {
        BamlValueWithMetaIterator::new(self)
    }

    /// Every node of this value, in the order of the depth-first walk.
    pub fn nodes<'a>(&'a self) -> (r: Vec<&'a BamlValueWithMeta<T>>)
        ensures
            refs_view(r@) == walk(self@),
    {
        let mut it = self.iter();
        let mut out: Vec<&'a BamlValueWithMeta<T>> = Vec::new();
        loop
            invariant
                refs_view(out@) + it.remaining() == walk(self@),
            decreases it.remaining().len(),
        {
            let ghost before = it.remaining();
            match it.next() {
                Some(v) => {
                    out.push(v);
                    assert(refs_view(out@) + it.remaining() =~= walk(self@)) by {
                        assert(refs_view(out@) =~= refs_view(out@).drop_last().push(v@));
                        assert(refs_view(out@).drop_last() =~= refs_view(out@.drop_last()));
                    }
                },
                None => {
                    assert(refs_view(out@) =~= walk(self@));
                    return out;
                },
            }
        }
    }
}

} // verus!
