//! The capability table of a node: its capabilities by identifier, and the
//! order in which they came.

use crate::capabilities::{CapRef, CapView, Capability};
use crate::packet_types::CapID;
use std::collections::HashMap;
use vstd::prelude::*;

verus! {

broadcast use vstd::std_specs::hash::group_hash_axioms;

/// `order` without `id`.
pub open spec fn without(order: Seq<CapID>, id: CapID) -> Seq<CapID>
    decreases order.len(),
{
    if order.len() == 0 {
        Seq::empty()
    } else if order.last() == id {
        without(order.drop_last(), id)
    } else {
        without(order.drop_last(), id).push(order.last())
    }
}

/// The capabilities of a node.
pub struct CapTable<F> {
    pub caps: HashMap<CapID, Capability<F>>,
    /// The identifiers in the table, oldest first.
    pub order: Vec<CapID>,
}

impl<F: Fn(Vec<Option<CapRef>>) -> Result<(), ()>> CapTable<F> {
    /// The table as a map from identifier to capability.
    pub open spec fn view(&self) -> Map<CapID, CapView> {
        self.caps@.map_values(|c: Capability<F>| c@)
    }

    /// The identifiers in the table, oldest first.
    pub open spec fn ids(&self) -> Seq<CapID> {
        self.order@
    }

    /// Each capability stands under its own identifier and is well formed,
    /// and `order` lists the identifiers of the table, each once.
    pub open spec fn wf(&self) -> bool {
        &&& self.order@.no_duplicates()
        &&& forall|id: CapID| self.order@.contains(id) <==> self.caps@.contains_key(id)
        &&& forall|id: CapID| #[trigger]
            self.caps@.contains_key(id) ==> self.caps@[id].cap_id == id && self.caps@[id].wf()
    }

    /// The empty table.
    pub fn new() -> (r: CapTable<F>)
        ensures
            r.wf(),
            r@ == Map::<CapID, CapView>::empty(),
            r.ids() == Seq::<CapID>::empty(),
    {
        let r = CapTable { caps: HashMap::new(), order: Vec::new() };
        assert(r@ =~= Map::<CapID, CapView>::empty());
        r
    }

    /// Whether a capability stands under `cap_id`.
    pub fn contains(&self, cap_id: CapID) -> (r: bool)
        ensures
            r == self@.contains_key(cap_id),
            r == self.caps@.contains_key(cap_id),
    {
        self.caps.contains_key(&cap_id)
    }

    /// The capability under `id`.
    pub fn get(&self, id: CapID) -> (r: Option<&Capability<F>>)
        ensures
            match r {
                Some(c) => self.caps@.contains_key(id) && *c == self.caps@[id],
                None => !self.caps@.contains_key(id),
            },
            r is Some <==> self@.contains_key(id),
            r matches Some(c) ==> c@ == self@[id],
    {
        self.caps.get(&id)
    }

    /// Puts `cap` under its identifier, in place of what stood there.  A new
    /// identifier goes to the end of the order.
    pub fn insert(&mut self, cap: Capability<F>)
        requires
            old(self).wf(),
            cap.wf(),
        ensures
            final(self).wf(),
            final(self)@ == old(self)@.insert(cap.cap_id, cap@),
            final(self).caps@ == old(self).caps@.insert(cap.cap_id, cap),
            final(self).ids() == if old(self)@.contains_key(cap.cap_id) {
                old(self).ids()
            } else {
                old(self).ids().push(cap.cap_id)
            },
    {
        let id = cap.cap_id;
        let present = self.caps.contains_key(&id);
        self.caps.insert(id, cap);
        if !present {
            self.order.push(id);
            proof {
                let old_order = old(self).order@;
                assert forall|x: CapID| self.order@.contains(x) <==> self.caps@.contains_key(
                    x,
                ) by {
                    if self.order@.contains(x) {
                        let i = choose|i: int| 0 <= i < self.order@.len() && self.order@[i] == x;
                        if i < old_order.len() {
                            assert(old_order[i] == x);
                            assert(old_order.contains(x));
                        }
                    }
                    if self.caps@.contains_key(x) {
                        if x == id {
                            assert(self.order@[old_order.len() as int] == id);
                        } else {
                            assert(old_order.contains(x));
                            let i = choose|i: int| 0 <= i < old_order.len() && old_order[i] == x;
                            assert(self.order@[i] == x);
                        }
                    }
                }
                assert(self.order@.no_duplicates()) by {
                    assert forall|i: int, j: int|
                        0 <= i < self.order@.len() && 0 <= j < self.order@.len() && i
                            != j implies self.order@[i] != self.order@[j] by {
                        if i == old_order.len() {
                            assert(old_order[j] == self.order@[j]);
                            assert(old_order.contains(old_order[j]));
                        } else if j == old_order.len() {
                            assert(old_order[i] == self.order@[i]);
                            assert(old_order.contains(old_order[i]));
                        } else {
                            assert(old_order[i] == self.order@[i]);
                            assert(old_order[j] == self.order@[j]);
                        }
                    }
                }
            }
        }
        assert(self@ =~= old(self)@.insert(id, cap@));
    }

    /// Takes the capability under `cap_id` out of the table.
    pub fn take(&mut self, cap_id: CapID) -> (r: Option<Capability<F>>)
        requires
            old(self).wf(),
        ensures
            final(self).wf(),
            final(self)@ == old(self)@.remove(cap_id),
            final(self).caps@ == old(self).caps@.remove(cap_id),
            final(self).ids() == without(old(self).ids(), cap_id),
            match r {
                Some(c) => old(self).caps@.contains_key(cap_id) && c == old(self).caps@[cap_id]
                    && c.wf() && c.cap_id == cap_id,
                None => !old(self).caps@.contains_key(cap_id),
            },
    {
        let r = self.caps.remove(&cap_id);
        let ghost old_order = self.order@;
        let mut kept: Vec<CapID> = Vec::new();
        let n: usize = self.order.len();
        let mut i: usize = 0;
        assert(old_order.subrange(0, 0) =~= Seq::<CapID>::empty());
        while i < n
            invariant
                i <= n == self.order@.len(),
                self.order@ == old_order,
                kept@ == without(old_order.subrange(0, i as int), cap_id),
            decreases n - i,
        {
            let id: CapID = self.order[i];
            proof {
                let before = old_order.subrange(0, i as int);
                let after = old_order.subrange(0, i + 1);
                assert(after =~= before.push(id));
                lemma_without_push(before, id, cap_id);
            }
            if id != cap_id {
                kept.push(id);
            }
            i = i + 1;
        }
        proof {
            assert(old_order.subrange(0, n as int) =~= old_order);
            lemma_without(old_order, cap_id);
        }
        self.order = kept;
        proof {
            assert forall|id: CapID| self.order@.contains(id) <==> self.caps@.contains_key(
                id,
            ) by {
                assert(old_order.contains(id) <==> old(self).caps@.contains_key(id));
            }
        }
        assert(self@ =~= old(self)@.remove(cap_id));
        r
    }

    /// Whether the table is well formed but for the capability `cap_id`,
    /// which its order lists and which is taken out for a change.
    pub open spec fn wf_but(&self, cap_id: CapID) -> bool {
        &&& self.order@.no_duplicates()
        &&& self.order@.contains(cap_id)
        &&& !self.caps@.contains_key(cap_id)
        &&& forall|id: CapID|
            self.order@.contains(id) <==> (self.caps@.contains_key(id) || id == cap_id)
        &&& forall|id: CapID| #[trigger]
            self.caps@.contains_key(id) ==> self.caps@[id].cap_id == id && self.caps@[id].wf()
    }

    /// Takes the capability under `cap_id` out for a change.  Its place in
    /// the order is kept.
    pub fn lift(&mut self, cap_id: CapID) -> (r: Option<Capability<F>>)
        requires
            old(self).wf(),
        ensures
            final(self).order == old(self).order,
            match r {
                Some(c) => {
                    &&& old(self).caps@.contains_key(cap_id)
                    &&& c == old(self).caps@[cap_id]
                    &&& c.wf()
                    &&& c.cap_id == cap_id
                    &&& final(self).caps@ == old(self).caps@.remove(cap_id)
                    &&& final(self).wf_but(cap_id)
                },
                None => !old(self).caps@.contains_key(cap_id) && final(self).caps@ == old(
                    self,
                ).caps@ && final(self).wf(),
            },
    {
        let r = self.caps.remove(&cap_id);
        proof {
            if r is None {
                assert(self.caps@ =~= old(self).caps@);
            }
        }
        r
    }

    /// Puts back the capability that was taken out for a change.
    pub fn settle(&mut self, cap: Capability<F>)
        requires
            old(self).wf_but(cap.cap_id),
            cap.wf(),
        ensures
            final(self).wf(),
            final(self).order == old(self).order,
            final(self).caps@ == old(self).caps@.insert(cap.cap_id, cap),
    {
        let id = cap.cap_id;
        self.caps.insert(id, cap);
    }

    /// Removes the capability under `cap_id`, if there is one.
    pub fn remove(&mut self, cap_id: CapID)
        requires
            old(self).wf(),
        ensures
            final(self).wf(),
            final(self)@ == old(self)@.remove(cap_id),
            final(self).caps@ == old(self).caps@.remove(cap_id),
            final(self).ids() == without(old(self).ids(), cap_id),
    {
        let _ = self.take(cap_id);
    }

    /// The identifiers in the table, oldest first.
    pub fn get_capids(&self) -> (r: Vec<CapID>)
        ensures
            r@ == self.ids(),
    {
        let mut out: Vec<CapID> = Vec::new();
        let n: usize = self.order.len();
        let mut i: usize = 0;
        while i < n
            invariant
                i <= n == self.order@.len(),
                out@ == self.order@.subrange(0, i as int),
            decreases n - i,
        {
            out.push(self.order[i]);
            assert(out@ =~= self.order@.subrange(0, i + 1));
            i = i + 1;
        }
        assert(self.order@.subrange(0, n as int) =~= self.order@);
        out
    }

    /// Empties the table.
    pub fn reset(&mut self)
        ensures
            final(self).wf(),
            final(self)@ == Map::<CapID, CapView>::empty(),
            final(self).caps@ == Map::<CapID, Capability<F>>::empty(),
            final(self).ids() == Seq::<CapID>::empty(),
    {
        self.caps = HashMap::new();
        self.order = Vec::new();
        assert(self@ =~= Map::<CapID, CapView>::empty());
    }
}

/// Leaving one out of an order with one more element.
pub proof fn lemma_without_push(order: Seq<CapID>, id: CapID, gone: CapID)
    ensures
        without(order.push(id), gone) == if id != gone {
            without(order, gone).push(id)
        } else {
            without(order, gone)
        },
{
    assert(order.push(id).drop_last() =~= order);
    assert(order.push(id).last() == id);
}

/// What is left of an order without duplicates when one identifier goes:
/// the others, each once, in the order they had.
pub proof fn lemma_without(order: Seq<CapID>, gone: CapID)
    requires
        order.no_duplicates(),
    ensures
        without(order, gone).no_duplicates(),
        forall|x: CapID| without(order, gone).contains(x) <==> (order.contains(x) && x != gone),
        !order.contains(gone) ==> without(order, gone) == order,
    decreases order.len(),
{
    if order.len() == 0 {
        assert(without(order, gone) =~= order);
    } else {
        let head = order.drop_last();
        let last = order.last();
        assert(head.no_duplicates());
        lemma_without(head, gone);
        let w = without(order, gone);
        let wh = without(head, gone);
        assert forall|x: CapID| head.contains(x) implies order.contains(x) by {
            let j = choose|j: int| 0 <= j < head.len() && head[j] == x;
            assert(order[j] == x);
        }
        assert forall|x: CapID| order.contains(x) implies head.contains(x) || x == last by {
            let j = choose|j: int| 0 <= j < order.len() && order[j] == x;
            if j < head.len() {
                assert(head[j] == x);
            }
        }
        assert(order.contains(last)) by {
            assert(order[order.len() - 1] == last);
        }
        assert(!head.contains(last)) by {
            if head.contains(last) {
                let j = choose|j: int| 0 <= j < head.len() && head[j] == last;
                assert(order[j] == order[order.len() - 1]);
            }
        }
        if last == gone {
            assert(w == wh);
        } else {
            assert(w == wh.push(last));
            assert forall|x: CapID| w.contains(x) <==> (wh.contains(x) || x == last) by {
                if w.contains(x) {
                    let i = choose|i: int| 0 <= i < w.len() && w[i] == x;
                    if i < wh.len() {
                        assert(wh[i] == x);
                    }
                }
                if wh.contains(x) {
                    let i = choose|i: int| 0 <= i < wh.len() && wh[i] == x;
                    assert(w[i] == x);
                }
                if x == last {
                    assert(w[w.len() - 1] == x);
                }
            }
            assert forall|i: int, j: int|
                0 <= i < w.len() && 0 <= j < w.len() && i != j implies w[i] != w[j] by {
                if i < wh.len() && j < wh.len() {
                    assert(w[i] == wh[i] && w[j] == wh[j]);
                } else if i < wh.len() {
                    assert(wh.contains(wh[i]));
                } else {
                    assert(wh.contains(wh[j]));
                }
            }
        }
        if !order.contains(gone) {
            assert(w =~= order);
        }
    }
}

} // verus!
