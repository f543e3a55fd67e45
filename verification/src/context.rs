//! The construction context: per-session readiness of fork handles.
//!
//! During reconstruction every fork handle named by an inbound item must be
//! resolvable; a handle becomes ready exactly once — when its fork's
//! construction has begun on this side — and is never un-readied.  An item
//! whose referenced handles are all ready satisfies the dependency
//! predicate and may be admitted into the decoded output.

use vstd::prelude::*;
use crate::wire::{item_handles, WireItem, WireItemV};

verus! {

/// Readiness registry of one reconstruction session.
pub struct Context {
    ready: Vec<u64>,
}

impl Context {
    /// Whether a handle has become ready.
    pub closed spec fn spec_ready(&self, h: u64) -> bool {
        self.ready@.contains(h)
    }

    /// The dependency predicate: every handle the item references is ready.
    pub open spec fn admits(&self, i: WireItemV) -> bool {
        forall|k: int|
            0 <= k < item_handles(i).len() ==> self.spec_ready(#[trigger] item_handles(i)[k])
    }

    /// A fresh context: no handle is ready.
    pub fn new() -> (c: Context)
        ensures
            forall|h: u64| !c.spec_ready(h),
    {
        let c = Context { ready: Vec::new() };
        proof {
            assert forall|h: u64| !c.spec_ready(h) by {
                assert(!c.ready@.contains(h));
            }
        }
        c
    }

    /// Marks a handle ready.  Readiness is monotone: no handle is ever
    /// un-readied, and marking an already ready handle changes nothing.
    pub fn mark_ready(&mut self, h: u64)
        ensures
            forall|x: u64| final(self).spec_ready(x) <==> old(self).spec_ready(x) || x == h,
    {
        if !self.is_ready(h) {
            self.ready.push(h);
            proof {
                assert forall|x: u64|
                    self.spec_ready(x) <==> old(self).spec_ready(x) || x == h by {
                    if x == h {
                        assert(self.ready@[self.ready@.len() - 1] == h);
                    } else if old(self).spec_ready(x) {
                        let k = choose|k: int| 0 <= k < old(self).ready@.len() && old(
                            self,
                        ).ready@[k] == x;
                        assert(self.ready@[k] == x);
                    } else {
                        assert forall|k: int| 0 <= k < self.ready@.len() implies self.ready@[k]
                            != x by {
                            if k < old(self).ready@.len() {
                                assert(old(self).ready@[k] != x);
                            }
                        }
                    }
                }
            }
        }
    }

    /// Whether a handle is ready.
    pub fn is_ready(&self, h: u64) -> (r: bool)
        ensures
            r == self.spec_ready(h),
    {
        let mut k: usize = 0;
        while k < self.ready.len()
            invariant
                k <= self.ready@.len(),
                forall|j: int| 0 <= j < k ==> self.ready@[j] != h,
            decreases self.ready@.len() - k,
        {
            if self.ready[k] == h {
                return true;
            }
            k += 1;
        }
        proof {
            assert(!self.ready@.contains(h));
        }
        false
    }

    /// The dependency predicate on an item: true exactly when every fork
    /// handle the item references is ready.
    pub fn predicate(&self, item: &WireItem) -> (r: bool)
        ensures
            r == self.admits(item@),
    {
        match item {
            WireItem::Handle(h) => {
                let r = self.is_ready(h.id);
                proof {
                    assert(item_handles(item@) =~= seq![h.id]);
                    assert(item_handles(item@)[0] == h.id);
                    if r {
                        assert forall|k: int| 0 <= k < item_handles(item@).len() implies self
                            .spec_ready(#[trigger] item_handles(item@)[k]) by {
                            assert(item_handles(item@)[k] == h.id);
                        }
                    }
                }
                r
            },
            WireItem::Handles(hs) => {
                let ghost ids = item_handles(item@);
                proof {
                    assert(ids =~= hs@.map_values(|fh: crate::wire::ForkHandle| fh.id));
                }
                let mut k: usize = 0;
                while k < hs.len()
                    invariant
                        k <= hs@.len(),
                        ids == item_handles(item@),
                        ids.len() == hs@.len(),
                        forall|j: int| 0 <= j < ids.len() ==> ids[j] == hs@[j].id,
                        forall|j: int| 0 <= j < k ==> self.spec_ready(#[trigger] ids[j]),
                    decreases hs@.len() - k,
                {
                    if !self.is_ready(hs[k].id) {
                        proof {
                            assert(!self.spec_ready(item_handles(item@)[k as int]));
                        }
                        return false;
                    }
                    k += 1;
                }
                proof {
                    assert forall|j: int| 0 <= j < item_handles(item@).len() implies self
                        .spec_ready(#[trigger] item_handles(item@)[j]) by {
                        assert(self.spec_ready(ids[j]));
                    }
                }
                true
            },
            _ => {
                proof {
                    assert(item_handles(item@) =~= Seq::<u64>::empty());
                }
                true
            },
        }
    }
}

} // verus!
