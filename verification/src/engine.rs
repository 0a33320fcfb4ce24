//! The scene invariants engine: after every batch of edits it restores
//! the derived state, in a fixed order of rules. One pass (1) drops the
//! selection helpers of deselected elements, (2) settles each flow's
//! completion marker, re-sums every interface subsystem's aggregate from
//! the flows crossing its interface, and re-applies the zoom to every
//! element with a recorded initial position, (3) gives every subsystem a
//! name label, and (4) attaches a helper to every selected element that
//! takes one. Running the pass twice without intervening edits is a
//! no-op.

use vstd::prelude::*;
use crate::elements::{
    Element, EntityId, Endpoint, FlowData, HelperData, InterfaceAggregate, LabelData,
    SubstanceType, SystemData,
};
use crate::geom::{zoomed, Transform};
use crate::scene::{clone_string, Entry, Scene};

verus! {

impl Scene {
    /// Some live label names element `k`.
    pub open spec fn has_label(self, k: int) -> bool {
        exists|l: int|
            0 <= l < self.slots@.len() && self.live(l) && self.entry_at(l).kind is Label
                && (#[trigger] self.entry_at(l).kind)->Label_0.target == k
    }

    /// Some live helper highlights element `k`.
    pub open spec fn has_helper(self, k: int) -> bool {
        exists|l: int|
            0 <= l < self.slots@.len() && self.live(l) && self.entry_at(l).kind is Helper
                && (#[trigger] self.entry_at(l).kind)->Helper_0.target == k
    }

    /// The element kinds that get a selection helper.
    pub open spec fn helper_eligible(self, k: int) -> bool {
        self.live(k) && (self.entry_at(k).kind is Iface || self.entry_at(k).kind is Flow
            || self.entry_at(k).kind is Ext)
    }

    /// A live helper whose target is no longer selected.
    pub open spec fn stale_helper(self, k: int) -> bool {
        self.live(k) && self.entry_at(k).kind is Helper && !self.entry_at(
            self.entry_at(k).kind->Helper_0.target as int,
        ).selected
    }

    /// A label pushed by the engine: unselected, unplaced, naming some
    /// element.
    pub open spec fn label_extra_at(self, k: int) -> bool {
        &&& self.live(k)
        &&& self.entry_at(k).kind is Label
        &&& self.entry_at(k).initial_position is None
        &&& !self.entry_at(k).selected
    }

    /// A helper pushed by the engine: unselected, unplaced, highlighting a
    /// selected element below the given bound.
    pub open spec fn helper_extra_at(self, n: int, k: int) -> bool {
        &&& self.live(k)
        &&& self.entry_at(k).kind is Helper
        &&& self.entry_at(k).initial_position is None
        &&& !self.entry_at(k).selected
        &&& self.entry_at(k).kind->Helper_0.target < n
        &&& self.entry_at(self.entry_at(k).kind->Helper_0.target as int).selected
    }

    /// The settled state of slot `k`: the flow completion marker matches
    /// the endpoints, the aggregate equals the sums over the crossing
    /// flows, and the position matches the zoomed initial position.
    pub open spec fn settled_at(self, k: int) -> bool {
        &&& (self.is_flow(k) ==> self.flow_at(k).incomplete == !(self.flow_at(
            k,
        ).source.is_attached() && self.flow_at(k).sink.is_attached()))
        &&& (self.is_interface_subsystem(k) ==> self.aggregate_totals_ok(
            self.sys_at(k).aggregate->0.interface,
            self.sys_at(k).aggregate->0,
        ))
        &&& (self.live(k) && self.entry_at(k).initial_position is Some && self.entry_at(
            k,
        ).initial_position->0.pos_bounded() ==> self.entry_at(k).transform.translation == zoomed(
            self.entry_at(k).initial_position->0,
            self.zoom as int,
        ))
    }

    /// How the settling pass may change slot `k` of `older`: liveness and
    /// the entry shell are kept; a flow may change only its completion
    /// marker; a system may change only the recomputed part of its
    /// aggregate; every element may have the zoom re-applied to its
    /// translation.
    pub open spec fn settle_rel(self, older: Scene, k: int) -> bool {
        &&& self.live(k) == older.live(k)
        &&& (self.live(k) ==> {
            &&& self.entry_at(k) == (Entry {
                kind: self.entry_at(k).kind,
                transform: Transform {
                    translation: self.entry_at(k).transform.translation,
                    ..older.entry_at(k).transform
                },
                ..older.entry_at(k)
            })
            &&& match older.entry_at(k).kind {
                Element::Flow(d) => self.entry_at(k).kind == Element::Flow(
                    FlowData { incomplete: self.flow_at(k).incomplete, ..d },
                ),
                Element::Sys(d) => {
                    &&& self.entry_at(k).kind is Sys
                    &&& self.sys_at(k) == (SystemData { aggregate: self.sys_at(k).aggregate, ..d })
                    &&& (self.sys_at(k).aggregate is Some <==> d.aggregate is Some)
                    &&& (d.aggregate is Some ==> {
                        &&& self.sys_at(k).aggregate->0.interface == d.aggregate->0.interface
                        &&& self.sys_at(k).aggregate->0.is_import == d.aggregate->0.is_import
                        &&& self.sys_at(k).aggregate->0.is_export == d.aggregate->0.is_export
                    })
                },
                _ => self.entry_at(k).kind == older.entry_at(k).kind,
            }
        })
    }

    /// How one engine pass may change slot `k` of `older`: a helper of a
    /// deselected element is gone; every other element is kept with the
    /// settling relation — its shell (name, description, parent,
    /// selection, depth, rotation, initial position) intact, a flow
    /// changed at most in its completion marker, a system at most in the
    /// recomputed part of its aggregate, and any element's translation
    /// re-zoomed.
    pub open spec fn engine_rel(self, older: Scene, k: int) -> bool {
        if older.stale_helper(k) {
            !self.live(k)
        } else {
            self.settle_rel(older, k)
        }
    }

    /// No two live labels name the same element.
    pub open spec fn labels_unique(self) -> bool {
        forall|l1: int, l2: int|
            #![trigger self.entry_at(l1).kind, self.entry_at(l2).kind]
            0 <= l1 < self.slots@.len() && 0 <= l2 < self.slots@.len() && self.live(l1)
                && self.live(l2) && self.entry_at(l1).kind is Label && self.entry_at(
                l2,
            ).kind is Label && self.entry_at(l1).kind->Label_0.target == self.entry_at(
                l2,
            ).kind->Label_0.target ==> l1 == l2
    }

    /// No two live helpers highlight the same element.
    pub open spec fn helpers_unique(self) -> bool {
        forall|l1: int, l2: int|
            #![trigger self.entry_at(l1).kind, self.entry_at(l2).kind]
            0 <= l1 < self.slots@.len() && 0 <= l2 < self.slots@.len() && self.live(l1)
                && self.live(l2) && self.entry_at(l1).kind is Helper && self.entry_at(
                l2,
            ).kind is Helper && self.entry_at(l1).kind->Helper_0.target == self.entry_at(
                l2,
            ).kind->Helper_0.target ==> l1 == l2
    }

    /// An element the engine itself added during a pass: an unselected,
    /// unplaced label or helper.
    pub open spec fn engine_added_at(self, k: int) -> bool {
        &&& self.live(k)
        &&& (self.entry_at(k).kind is Label || self.entry_at(k).kind is Helper)
        &&& self.entry_at(k).initial_position is None
        &&& !self.entry_at(k).selected
    }

    /// Everything the engine restores holds.
    pub open spec fn engine_stable(self) -> bool {
        &&& forall|k: int| 0 <= k < self.slots@.len() ==> #[trigger] self.settled_at(k)
        &&& forall|k: int| 0 <= k < self.slots@.len() ==> !#[trigger] self.stale_helper(k)
        &&& forall|k: int| #[trigger] self.is_subsystem(k) ==> self.has_label(k)
        &&& forall|k: int|
            #[trigger] self.helper_eligible(k) && self.entry_at(k).selected ==> self.has_helper(k)
    }

    /// Rule one of the pass: drop the helpers of deselected elements.
    #[verifier::rlimit(100)]
    #[verifier::spinoff_prover]
    fn remove_stale_helpers(&mut self)
        requires
            old(self).wf(),
        ensures
            final(self).wf(),
            final(self).same_frame(*old(self)),
            final(self).slots@.len() == old(self).slots@.len(),
            forall|k: int|
                0 <= k < old(self).slots@.len() ==> final(self).slots@[k] == (
                if old(self).stale_helper(k) {
                    Option::<Entry>::None
                } else {
                    #[trigger] old(self).slots@[k]
                }),
            old(self).labels_unique() ==> final(self).labels_unique(),
            old(self).helpers_unique() ==> final(self).helpers_unique(),
    {
        let n = self.slots.len();
        let mut j: usize = 0;
        while j < n
            invariant
                old(self).wf(),
                self.wf(),
                self.same_frame(*old(self)),
                n == self.slots@.len(),
                n == old(self).slots@.len(),
                j <= n,
                forall|k: int|
                    0 <= k < j ==> self.slots@[k] == (if old(self).stale_helper(k) {
                        Option::<Entry>::None
                    } else {
                        #[trigger] old(self).slots@[k]
                    }),
                forall|k: int| j <= k < n ==> self.slots@[k] == #[trigger] old(self).slots@[k],
            decreases n - j,
        {
            let ghost prev = *self;
            let stale = match &self.slots[j] {
                Option::Some(e) => match &e.kind {
                    Element::Helper(h) => {
                        proof {
                            assert(old(self).wf_at(j as int));
                            assert(old(self).live(h.target as int));
                            assert(self.slots@[h.target as int] == old(self).slots@[h.target as int]) by {
                                if h.target < j {
                                    assert(!old(self).stale_helper(h.target as int));
                                }
                            }
                        }
                        !self.slots[h.target].as_ref().unwrap().selected
                    },
                    _ => false,
                },
                Option::None => false,
            };
            if stale {
                self.slots[j] = Option::None;
                proof {
                    assert forall|k: int| 0 <= k < self.slots@.len() implies #[trigger] self.wf_at(
                        k,
                    ) by {
                        assert(prev.wf_at(k));
                        if self.live(k) {
                            assert(prev.wf_at(j as int));
                        }
                    }
                    assert(prev.wf_at(prev.root as int));
                }
            }
            j = j + 1;
        }
        proof {
            if old(self).labels_unique() {
                lemma_labels_unique_preserved(*old(self), *self);
            }
            if old(self).helpers_unique() {
                lemma_helpers_unique_preserved(*old(self), *self);
            }
        }
    }

    /// Rule two of the pass: settle completion markers, aggregates and
    /// zoomed positions, in place.
    #[verifier::rlimit(100)]
    #[verifier::spinoff_prover]
    fn settle_pass(&mut self)
        requires
            old(self).wf(),
        ensures
            final(self).wf(),
            final(self).same_frame(*old(self)),
            final(self).slots@.len() == old(self).slots@.len(),
            forall|k: int|
                0 <= k < old(self).slots@.len() ==> #[trigger] final(self).settle_rel(
                    *old(self),
                    k,
                ),
            forall|k: int| 0 <= k < old(self).slots@.len() ==> #[trigger] final(self).settled_at(k),
            (forall|k: int| 0 <= k < old(self).slots@.len() ==> #[trigger] old(self).settled_at(k))
                ==> final(self).slots@ == old(self).slots@,
            old(self).labels_unique() ==> final(self).labels_unique(),
            old(self).helpers_unique() ==> final(self).helpers_unique(),
    {
        let n = self.slots.len();
        let mut j: usize = 0;
        while j < n
            invariant
                old(self).wf(),
                self.wf(),
                self.same_frame(*old(self)),
                n == self.slots@.len(),
                n == old(self).slots@.len(),
                j <= n,
                forall|k: int| j <= k < n ==> self.slots@[k] == #[trigger] old(self).slots@[k],
                forall|k: int| 0 <= k < n ==> #[trigger] self.settle_rel(*old(self), k),
                forall|k: int| 0 <= k < j ==> #[trigger] self.settled_at(k),
                (forall|k: int|
                    0 <= k < old(self).slots@.len() ==> #[trigger] old(self).settled_at(k))
                    ==> self.slots@ == old(self).slots@,
            decreases n - j,
        {
            let ghost prev = *self;
            self.settle_slot(j);
            proof {
                assert forall|k: int|
                    0 <= k < n implies #[trigger] self.settle_rel(*old(self), k) by {
                    assert(prev.settle_rel(*old(self), k));
                    if k != j {
                        assert(self.slots@[k] == prev.slots@[k]);
                    }
                }
                assert forall|k: int| 0 <= k < j + 1 implies #[trigger] self.settled_at(k) by {
                    if k < j {
                        assert(prev.settled_at(k));
                        assert(self.slots@[k] == prev.slots@[k]);
                        if prev.is_interface_subsystem(k) {
                            assert forall|m: int|
                                0 <= m < n implies #[trigger] self.settle_rel(prev, m) by {
                                if m != j {
                                    assert(self.slots@[m] == prev.slots@[m]);
                                }
                            }
                            lemma_sums_via_rel(
                                *self,
                                prev,
                                prev.sys_at(k).aggregate->0.interface,
                            );
                        }
                    }
                }
                if forall|k: int|
                    0 <= k < old(self).slots@.len() ==> #[trigger] old(self).settled_at(k) {
                    assert(prev.slots@ == old(self).slots@);
                    assert(old(self).settled_at(j as int));
                    assert(prev.settled_at(j as int)) by {
                        lemma_same_slots_settled(*old(self), prev, j as int);
                    }
                    assert(self.slots@ == prev.slots@);
                }
            }
            j = j + 1;
        }
        proof {
            if old(self).labels_unique() {
                assert forall|k: int|
                    #![trigger self.entry_at(k).kind]
                    0 <= k < self.slots@.len() && self.live(k) && self.entry_at(k).kind is Label
                    implies 0 <= k < old(self).slots@.len() && old(self).live(k) && old(
                    self,
                ).entry_at(k).kind is Label && self.entry_at(k).kind->Label_0.target == old(
                    self,
                ).entry_at(k).kind->Label_0.target by {
                    assert(self.settle_rel(*old(self), k));
                }
                lemma_labels_unique_preserved(*old(self), *self);
            }
            if old(self).helpers_unique() {
                assert forall|k: int|
                    #![trigger self.entry_at(k).kind]
                    0 <= k < self.slots@.len() && self.live(k) && self.entry_at(k).kind is Helper
                    implies 0 <= k < old(self).slots@.len() && old(self).live(k) && old(
                    self,
                ).entry_at(k).kind is Helper && self.entry_at(k).kind->Helper_0.target == old(
                    self,
                ).entry_at(k).kind->Helper_0.target by {
                    assert(self.settle_rel(*old(self), k));
                }
                lemma_helpers_unique_preserved(*old(self), *self);
            }
        }
    }

    /// Settle one slot in place: canonical completion marker, recomputed
    /// aggregate, re-applied zoom. Nothing else moves, and a slot that is
    /// already settled is left untouched.
    #[verifier::rlimit(100)]
    #[verifier::spinoff_prover]
    fn settle_slot(&mut self, j: usize)
        requires
            old(self).wf(),
            j < old(self).slots@.len(),
        ensures
            final(self).wf(),
            final(self).same_frame(*old(self)),
            final(self).slots@.len() == old(self).slots@.len(),
            forall|k: int|
                0 <= k < old(self).slots@.len() && k != j ==> final(self).slots@[k]
                    == #[trigger] old(self).slots@[k],
            final(self).settle_rel(*old(self), j as int),
            final(self).settled_at(j as int),
            old(self).settled_at(j as int) ==> final(self).slots@ == old(self).slots@,
    {
        let ghost prev = *self;
        let n_all = self.slots.len();
        let updated: Option<Entry> = match &self.slots[j] {
            Option::Some(e) => {
                let new_kind: Option<Element> = match &e.kind {
                    Element::Flow(d) => {
                        let canonical = !(crate::catalog::endpoint_attached(d.source)
                            && crate::catalog::endpoint_attached(d.sink));
                        if canonical != d.incomplete {
                            Option::Some(
                                Element::Flow(
                                    FlowData { incomplete: canonical, ..clone_flow_data(d) },
                                ),
                            )
                        } else {
                            Option::None
                        }
                    },
                    Element::Sys(d) => match d.aggregate {
                        Option::Some(a) => {
                            let fresh = self.compute_aggregate(a.interface, a);
                            proof {
                                self.lemma_inflow_sum_bound(
                                    a.interface,
                                    self.slots@.len() as int,
                                );
                                self.lemma_outflow_sum_bound(
                                    a.interface,
                                    self.slots@.len() as int,
                                );
                                assert((n_all as int) * 0xffff_ffff_ffff_ffff
                                    < 0x1_0000_0000_0000_0000_0000_0000_0000_0000)
                                    by (nonlinear_arith)
                                    requires
                                        0 <= n_all < 0x1_0000_0000_0000_0000,
                                ;
                                assert(n_all == self.slots@.len());
                            }
                            if !aggregate_eq(&fresh, &a) {
                                Option::Some(
                                    Element::Sys(
                                        SystemData {
                                            aggregate: Option::Some(fresh),
                                            ..clone_sys_data(d)
                                        },
                                    ),
                                )
                            } else {
                                Option::None
                            }
                        },
                        Option::None => Option::None,
                    },
                    _ => Option::None,
                };
                let new_translation = match e.initial_position {
                    Option::Some(p) => {
                        if crate::catalog::position_pos_bounded(p) {
                            let t = crate::geom::scale_by_zoom(p, self.zoom);
                            if !(t.x == e.transform.translation.x && t.y
                                == e.transform.translation.y) {
                                Option::Some(t)
                            } else {
                                Option::None
                            }
                        } else {
                            Option::None
                        }
                    },
                    Option::None => Option::None,
                };
                if new_kind.is_some() || new_translation.is_some() {
                    let e2 = e.clone_entry();
                    let kind = match new_kind {
                        Option::Some(nk) => nk,
                        Option::None => e2.kind,
                    };
                    let translation = match new_translation {
                        Option::Some(t) => t,
                        Option::None => e2.transform.translation,
                    };
                    Option::Some(
                        Entry { kind, transform: Transform { translation, ..e2.transform }, ..e2 },
                    )
                } else {
                    Option::None
                }
            },
            Option::None => Option::None,
        };
        match updated {
            Option::Some(new_e) => {
                proof {
                    assert(!old(self).settled_at(j as int));
                }
                self.slots[j] = Option::Some(new_e);
                proof {
                    assert forall|k: int|
                        0 <= k < self.slots@.len() implies #[trigger] self.wf_at(k) by {
                        assert(prev.wf_at(k));
                        assert(prev.wf_at(j as int));
                    }
                    assert(prev.wf_at(prev.root as int));
                    assert forall|m: int|
                        0 <= m < self.slots@.len() implies #[trigger] self.settle_rel(
                        prev,
                        m,
                    ) by {
                        if m != j {
                            assert(self.slots@[m] == prev.slots@[m]);
                        }
                    }
                    if self.is_interface_subsystem(j as int) {
                        lemma_sums_via_rel(
                            *self,
                            prev,
                            self.sys_at(j as int).aggregate->0.interface,
                        );
                    }
                }
            },
            Option::None => {
                proof {
                    if self.is_interface_subsystem(j as int) {
                        assert(self.aggregate_totals_ok(
                            self.sys_at(j as int).aggregate->0.interface,
                            self.sys_at(j as int).aggregate->0,
                        ));
                    }
                }
            },
        }
    }

    /// Rule three of the pass: a label for every subsystem that lacks
    /// one.
    #[verifier::rlimit(100)]
    #[verifier::spinoff_prover]
    fn add_labels(&mut self)
        requires
            old(self).wf(),
            old(self).slots@.len() * 2 < usize::MAX,
        ensures
            final(self).wf(),
            final(self).same_frame(*old(self)),
            old(self).slots@.len() <= final(self).slots@.len(),
            final(self).slots@.len() <= old(self).slots@.len() * 2,
            forall|k: int|
                0 <= k < old(self).slots@.len() ==> final(self).slots@[k] == #[trigger] old(self).slots@[k],
            forall|k: int|
                old(self).slots@.len() <= k < final(self).slots@.len() ==> #[trigger] final(self).label_extra_at(k),
            forall|k: int| #[trigger] final(self).is_subsystem(k) ==> final(self).has_label(k),
            (forall|k: int| #[trigger] old(self).is_subsystem(k) ==> old(self).has_label(k))
                ==> final(self).slots@ == old(self).slots@,
            old(self).labels_unique() ==> final(self).labels_unique(),
            old(self).helpers_unique() ==> final(self).helpers_unique(),
    {
        let n = self.slots.len();
        let mut j: usize = 0;
        while j < n
            invariant
                old(self).wf(),
                self.wf(),
                self.same_frame(*old(self)),
                n == old(self).slots@.len(),
                n <= self.slots@.len(),
                self.slots@.len() <= n + j,
                n * 2 < usize::MAX,
                j <= n,
                forall|k: int| 0 <= k < n ==> self.slots@[k] == #[trigger] old(self).slots@[k],
                forall|k: int|
                    n <= k < self.slots@.len() ==> #[trigger] self.label_extra_at(k),
                forall|k: int|
                    0 <= k < j && old(self).is_subsystem(k) ==> #[trigger] self.has_label(k),
                (forall|k: int| #[trigger] old(self).is_subsystem(k) ==> old(self).has_label(k))
                    ==> self.slots@ == old(self).slots@,
                old(self).labels_unique() ==> self.labels_unique(),
            decreases n - j,
        {
            let is_sub = match &self.slots[j] {
                Option::Some(e) => match &e.kind {
                    Element::Sys(d) => d.parent_system.is_some(),
                    _ => false,
                },
                Option::None => false,
            };
            if is_sub && !self.scan_has_label(j) {
                proof {
                    assert(old(self).is_subsystem(j as int));
                    assert(!old(self).has_label(j as int)) by {
                        if old(self).has_label(j as int) {
                            let l = choose|l: int|
                                0 <= l < old(self).slots@.len() && old(self).live(l) && old(self).entry_at(l).kind is Label && (#[trigger] old(self).entry_at(
                                    l,
                                ).kind)->Label_0.target == j as int;
                            assert(self.live(l) && self.entry_at(l).kind is Label
                                && self.entry_at(l).kind->Label_0.target == j as int);
                        }
                    }
                }
                let ghost prev = *self;
                let entry = Entry {
                    name: String::new(),
                    description: String::new(),
                    parent: Option::Some(j),
                    transform: Transform::at_origin(),
                    initial_position: Option::None,
                            selected: false,
                    since: self.generation,
                    kind: Element::Label(LabelData { target: j }),
                };
                let lid = self.push_entry(entry);
                proof {
                    assert forall|k: int| 0 <= k < self.slots@.len() implies #[trigger] self.wf_at(
                        k,
                    ) by {
                        if k < prev.slots@.len() {
                            assert(prev.wf_at(k));
                        }
                    }
                    assert(self.live(lid as int) && self.entry_at(lid as int).kind is Label
                        && self.entry_at(lid as int).kind->Label_0.target == j as int);
                    if old(self).labels_unique() {
                        assert(prev.labels_unique());
                        assert forall|l1: int, l2: int|
                            #![trigger self.entry_at(l1).kind, self.entry_at(l2).kind]
                            0 <= l1 < self.slots@.len() && 0 <= l2 < self.slots@.len()
                                && self.live(l1) && self.live(l2) && self.entry_at(l1).kind
                                is Label && self.entry_at(l2).kind is Label && self.entry_at(
                                l1,
                            ).kind->Label_0.target == self.entry_at(l2).kind->Label_0.target
                            implies l1 == l2 by {
                            if l1 < prev.slots@.len() && l2 < prev.slots@.len() {
                                assert(self.slots@[l1] == prev.slots@[l1]);
                                assert(self.slots@[l2] == prev.slots@[l2]);
                                assert(prev.entry_at(l1).kind is Label && prev.entry_at(
                                    l2,
                                ).kind is Label);
                            } else if l1 < prev.slots@.len() {
                                assert(l2 == lid);
                                assert(self.slots@[l1] == prev.slots@[l1]);
                                assert(!prev.has_label(j as int));
                                assert(prev.live(l1) && prev.entry_at(l1).kind is Label
                                    && prev.entry_at(l1).kind->Label_0.target == j as int);
                            } else if l2 < prev.slots@.len() {
                                assert(l1 == lid);
                                assert(self.slots@[l2] == prev.slots@[l2]);
                                assert(!prev.has_label(j as int));
                                assert(prev.live(l2) && prev.entry_at(l2).kind is Label
                                    && prev.entry_at(l2).kind->Label_0.target == j as int);
                            }
                        }
                    }
                    assert forall|k: int|
                        n <= k < self.slots@.len() implies #[trigger] self.label_extra_at(k) by {
                        if k < prev.slots@.len() {
                            assert(prev.label_extra_at(k));
                            assert(self.slots@[k] == prev.slots@[k]);
                        }
                    }
                    assert forall|k: int|
                        0 <= k < j + 1 && old(self).is_subsystem(k)
                        implies #[trigger] self.has_label(k) by {
                        if k < j {
                            assert(prev.has_label(k));
                            let l = choose|l: int|
                                0 <= l < prev.slots@.len() && prev.live(l) && prev.entry_at(
                                    l,
                                ).kind is Label && (#[trigger] prev.entry_at(
                                    l,
                                ).kind)->Label_0.target == k;
                            assert(self.live(l) && self.entry_at(l).kind is Label
                                && self.entry_at(l).kind->Label_0.target == k);
                        } else {
                            assert(self.entry_at(lid as int).kind->Label_0.target == k);
                        }
                    }
                }
            } else {
                proof {
                    if is_sub {
                        assert(self.has_label(j as int));
                        assert(old(self).is_subsystem(j as int));
                    }
                }
            }
            j = j + 1;
        }
        proof {
            assert forall|k: int| #[trigger] self.is_subsystem(k) implies self.has_label(k) by {
                if k < n {
                    assert(old(self).is_subsystem(k));
                } else {
                    assert(self.label_extra_at(k));
                    assert(!(self.entry_at(k).kind is Sys));
                }
            }
            if old(self).helpers_unique() {
                assert forall|k: int|
                    #![trigger self.entry_at(k).kind]
                    0 <= k < self.slots@.len() && self.live(k) && self.entry_at(k).kind is Helper
                    implies 0 <= k < old(self).slots@.len() && old(self).live(k) && old(
                    self,
                ).entry_at(k).kind is Helper && self.entry_at(k).kind->Helper_0.target == old(
                    self,
                ).entry_at(k).kind->Helper_0.target by {
                    if k >= n {
                        assert(self.label_extra_at(k));
                    } else {
                        assert(self.slots@[k] == old(self).slots@[k]);
                    }
                }
                lemma_helpers_unique_preserved(*old(self), *self);
            }
        }
    }

    /// Rule four of the pass: a helper for every selected element that
    /// takes one and lacks one.
    #[verifier::rlimit(100)]
    #[verifier::spinoff_prover]
    fn add_helpers(&mut self)
        requires
            old(self).wf(),
            old(self).slots@.len() * 2 < usize::MAX,
        ensures
            final(self).wf(),
            final(self).same_frame(*old(self)),
            old(self).slots@.len() <= final(self).slots@.len(),
            final(self).slots@.len() <= old(self).slots@.len() * 2,
            forall|k: int|
                0 <= k < old(self).slots@.len() ==> final(self).slots@[k] == #[trigger] old(self).slots@[k],
            forall|k: int|
                old(self).slots@.len() <= k < final(self).slots@.len() ==> #[trigger] final(self).helper_extra_at(old(self).slots@.len() as int, k),
            forall|k: int|
                #[trigger] final(self).helper_eligible(k) && final(self).entry_at(k).selected
                    ==> final(self).has_helper(k),
            (forall|k: int|
                #[trigger] old(self).helper_eligible(k) && old(self).entry_at(k).selected ==> old(self).has_helper(k)) ==> final(self).slots@ == old(self).slots@,
            old(self).labels_unique() ==> final(self).labels_unique(),
            old(self).helpers_unique() ==> final(self).helpers_unique(),
    {
        let n = self.slots.len();
        let mut j: usize = 0;
        while j < n
            invariant
                old(self).wf(),
                self.wf(),
                self.same_frame(*old(self)),
                n == old(self).slots@.len(),
                n <= self.slots@.len(),
                self.slots@.len() <= n + j,
                n * 2 < usize::MAX,
                j <= n,
                forall|k: int| 0 <= k < n ==> self.slots@[k] == #[trigger] old(self).slots@[k],
                forall|k: int|
                    n <= k < self.slots@.len() ==> #[trigger] self.helper_extra_at(n as int, k),
                forall|k: int|
                    0 <= k < j && old(self).helper_eligible(k) && old(self).entry_at(k).selected
                        ==> #[trigger] self.has_helper(k),
                (forall|k: int|
                    #[trigger] old(self).helper_eligible(k) && old(self).entry_at(k).selected
                        ==> old(self).has_helper(k)) ==> self.slots@ == old(self).slots@,
                old(self).helpers_unique() ==> self.helpers_unique(),
            decreases n - j,
        {
            let eligible = match &self.slots[j] {
                Option::Some(e) => e.selected && match &e.kind {
                    Element::Iface(_) => true,
                    Element::Flow(_) => true,
                    Element::Ext(_) => true,
                    _ => false,
                },
                Option::None => false,
            };
            if eligible && !self.scan_has_helper(j) {
                proof {
                    assert(old(self).helper_eligible(j as int) && old(self).entry_at(
                        j as int,
                    ).selected);
                    assert(!old(self).has_helper(j as int)) by {
                        if old(self).has_helper(j as int) {
                            let l = choose|l: int|
                                0 <= l < old(self).slots@.len() && old(self).live(l) && old(self).entry_at(l).kind is Helper && (#[trigger] old(self).entry_at(
                                    l,
                                ).kind)->Helper_0.target == j as int;
                            assert(self.live(l) && self.entry_at(l).kind is Helper
                                && self.entry_at(l).kind->Helper_0.target == j as int);
                        }
                    }
                }
                let ghost prev = *self;
                let entry = Entry {
                    name: String::new(),
                    description: String::new(),
                    parent: Option::Some(j),
                    transform: Transform::at_origin(),
                    initial_position: Option::None,
                            selected: false,
                    since: self.generation,
                    kind: Element::Helper(HelperData { target: j }),
                };
                let hid = self.push_entry(entry);
                proof {
                    assert forall|k: int| 0 <= k < self.slots@.len() implies #[trigger] self.wf_at(
                        k,
                    ) by {
                        if k < prev.slots@.len() {
                            assert(prev.wf_at(k));
                        }
                    }
                    assert(self.live(hid as int) && self.entry_at(hid as int).kind is Helper
                        && self.entry_at(hid as int).kind->Helper_0.target == j as int);
                    if old(self).helpers_unique() {
                        assert(prev.helpers_unique());
                        assert forall|l1: int, l2: int|
                            #![trigger self.entry_at(l1).kind, self.entry_at(l2).kind]
                            0 <= l1 < self.slots@.len() && 0 <= l2 < self.slots@.len()
                                && self.live(l1) && self.live(l2) && self.entry_at(l1).kind
                                is Helper && self.entry_at(l2).kind is Helper && self.entry_at(
                                l1,
                            ).kind->Helper_0.target == self.entry_at(l2).kind->Helper_0.target
                            implies l1 == l2 by {
                            if l1 < prev.slots@.len() && l2 < prev.slots@.len() {
                                assert(self.slots@[l1] == prev.slots@[l1]);
                                assert(self.slots@[l2] == prev.slots@[l2]);
                                assert(prev.entry_at(l1).kind is Helper && prev.entry_at(
                                    l2,
                                ).kind is Helper);
                            } else if l1 < prev.slots@.len() {
                                assert(l2 == hid);
                                assert(self.slots@[l1] == prev.slots@[l1]);
                                assert(!prev.has_helper(j as int));
                                assert(prev.live(l1) && prev.entry_at(l1).kind is Helper
                                    && prev.entry_at(l1).kind->Helper_0.target == j as int);
                            } else if l2 < prev.slots@.len() {
                                assert(l1 == hid);
                                assert(self.slots@[l2] == prev.slots@[l2]);
                                assert(!prev.has_helper(j as int));
                                assert(prev.live(l2) && prev.entry_at(l2).kind is Helper
                                    && prev.entry_at(l2).kind->Helper_0.target == j as int);
                            }
                        }
                    }
                    assert forall|k: int|
                        n <= k < self.slots@.len() implies #[trigger] self.helper_extra_at(
                        n as int,
                        k,
                    ) by {
                        if k < prev.slots@.len() {
                            assert(prev.helper_extra_at(n as int, k));
                            assert(self.slots@[k] == prev.slots@[k]);
                            let t = prev.entry_at(k).kind->Helper_0.target as int;
                            assert(self.slots@[t] == prev.slots@[t]);
                        } else {
                            assert(self.slots@[j as int] == prev.slots@[j as int]);
                        }
                    }
                    assert forall|k: int|
                        0 <= k < j + 1 && old(self).helper_eligible(k) && old(self).entry_at(
                            k,
                        ).selected implies #[trigger] self.has_helper(k) by {
                        if k < j {
                            assert(prev.has_helper(k));
                            let l = choose|l: int|
                                0 <= l < prev.slots@.len() && prev.live(l) && prev.entry_at(
                                    l,
                                ).kind is Helper && (#[trigger] prev.entry_at(
                                    l,
                                ).kind)->Helper_0.target == k;
                            assert(self.live(l) && self.entry_at(l).kind is Helper
                                && self.entry_at(l).kind->Helper_0.target == k);
                        } else {
                            assert(self.entry_at(hid as int).kind->Helper_0.target == k);
                        }
                    }
                }
            } else {
                proof {
                    if eligible {
                        assert(self.has_helper(j as int));
                        assert(old(self).helper_eligible(j as int) && old(self).entry_at(
                            j as int,
                        ).selected);
                    }
                }
            }
            j = j + 1;
        }
        proof {
            assert forall|k: int|
                #[trigger] self.helper_eligible(k) && self.entry_at(k).selected
                implies self.has_helper(k) by {
                if k < n {
                    assert(old(self).helper_eligible(k) && old(self).entry_at(k).selected);
                } else {
                    assert(self.helper_extra_at(n as int, k));
                    assert(!self.entry_at(k).selected);
                }
            }
            if old(self).labels_unique() {
                assert forall|k: int|
                    #![trigger self.entry_at(k).kind]
                    0 <= k < self.slots@.len() && self.live(k) && self.entry_at(k).kind is Label
                    implies 0 <= k < old(self).slots@.len() && old(self).live(k) && old(
                    self,
                ).entry_at(k).kind is Label && self.entry_at(k).kind->Label_0.target == old(
                    self,
                ).entry_at(k).kind->Label_0.target by {
                    if k >= n {
                        assert(self.helper_extra_at(n as int, k));
                    } else {
                        assert(self.slots@[k] == old(self).slots@[k]);
                    }
                }
                lemma_labels_unique_preserved(*old(self), *self);
            }
        }
    }

    /// Run one engine pass: the four rules in order.
    #[verifier::rlimit(100)]
    #[verifier::spinoff_prover]
    pub fn run_engine(&mut self)
        requires
            old(self).wf(),
            old(self).slots@.len() * 4 < usize::MAX,
        ensures
            final(self).wf(),
            final(self).same_frame(*old(self)),
            final(self).engine_stable(),
            old(self).engine_stable() ==> final(self).slots@ == old(self).slots@,
            old(self).slots@.len() <= final(self).slots@.len() <= old(self).slots@.len() * 4,
            forall|k: int|
                0 <= k < old(self).slots@.len() ==> #[trigger] final(self).engine_rel(
                    *old(self),
                    k,
                ),
            forall|k: int|
                old(self).slots@.len() <= k < final(self).slots@.len() ==> #[trigger] final(self).engine_added_at(k),
            old(self).labels_unique() ==> final(self).labels_unique(),
            old(self).helpers_unique() ==> final(self).helpers_unique(),
    {
        let ghost s0 = *self;
        self.remove_stale_helpers();
        let ghost s1 = *self;
        proof {
            if s0.engine_stable() {
                assert forall|k: int|
                    0 <= k < s0.slots@.len() implies self.slots@[k] == #[trigger] s0.slots@[k] by {
                    assert(!s0.stale_helper(k));
                }
                assert(self.slots@ =~= s0.slots@);
                assert(s1.slots@ == s0.slots@);
            }
        }
        self.settle_pass();
        let ghost s2 = *self;
        proof {
            if s0.engine_stable() {
                assert forall|k: int|
                    0 <= k < s1.slots@.len() implies #[trigger] s1.settled_at(k) by {
                    assert(s0.settled_at(k));
                    lemma_same_slots_settled(s0, s1, k);
                }
                assert(self.slots@ == s0.slots@);
            }
        }
        self.add_labels();
        let ghost s3 = *self;
        proof {
            if s0.engine_stable() {
                assert forall|k: int| #[trigger] s2.is_subsystem(k) implies s2.has_label(k) by {
                    assert(s0.is_subsystem(k));
                    assert(s0.has_label(k));
                    let l = choose|l: int|
                        0 <= l < s0.slots@.len() && s0.live(l) && s0.entry_at(l).kind is Label && (
                        #[trigger] s0.entry_at(l).kind)->Label_0.target == k;
                    assert(s2.live(l) && s2.entry_at(l).kind is Label && s2.entry_at(
                        l,
                    ).kind->Label_0.target == k);
                }
                assert(self.slots@ == s0.slots@);
            }
        }
        self.add_helpers();
        proof {
            if s0.engine_stable() {
                assert forall|k: int|
                    #[trigger] s3.helper_eligible(k) && s3.entry_at(k).selected
                    implies s3.has_helper(k) by {
                    assert(s0.helper_eligible(k) && s0.entry_at(k).selected);
                    assert(s0.has_helper(k));
                    let l = choose|l: int|
                        0 <= l < s0.slots@.len() && s0.live(l) && s0.entry_at(l).kind is Helper
                            && (#[trigger] s0.entry_at(l).kind)->Helper_0.target == k;
                    assert(s3.live(l) && s3.entry_at(l).kind is Helper && s3.entry_at(
                        l,
                    ).kind->Helper_0.target == k);
                }
                assert(self.slots@ == s0.slots@);
            }
            // The composed pass is stable: every clause holds of the
            // final scene.
            let n2 = s2.slots@.len() as int;
            let n3 = s3.slots@.len() as int;
            let nf = self.slots@.len() as int;
            assert forall|k: int| 0 <= k < nf implies #[trigger] self.settled_at(k) by {
                if k < n2 {
                    assert(s2.settled_at(k));
                    assert(self.slots@[k] == s3.slots@[k]);
                    assert(s3.slots@[k] == s2.slots@[k]);
                    if s2.is_interface_subsystem(k) {
                        assert forall|m: int|
                            0 <= m < n2 implies #[trigger] s2.is_flow(m) == self.is_flow(m) by {
                            assert(self.slots@[m] == s3.slots@[m]);
                            assert(s3.slots@[m] == s2.slots@[m]);
                        }
                        assert forall|m: int|
                            0 <= m < n2 && s2.is_flow(m) implies #[trigger] self.flow_at(m).sink
                            == s2.flow_at(m).sink && self.flow_at(m).source == s2.flow_at(
                            m,
                        ).source && self.flow_at(m).amount == s2.flow_at(m).amount
                            && self.flow_at(m).substance_type == s2.flow_at(m).substance_type
                            && self.flow_at(m).is_useful == s2.flow_at(m).is_useful by {
                            assert(self.slots@[m] == s3.slots@[m]);
                            assert(s3.slots@[m] == s2.slots@[m]);
                        }
                        assert forall|m: int| n2 <= m < nf implies !#[trigger] self.is_flow(
                            m,
                        ) by {
                            if m < n3 {
                                assert(s3.label_extra_at(m));
                                assert(self.slots@[m] == s3.slots@[m]);
                            } else {
                                assert(self.helper_extra_at(n3, m));
                            }
                        }
                        lemma_sums_agree(s2, *self, s2.sys_at(k).aggregate->0.interface, n2, nf);
                    }
                } else if k < n3 {
                    assert(s3.label_extra_at(k));
                    assert(self.slots@[k] == s3.slots@[k]);
                } else {
                    assert(self.helper_extra_at(n3, k));
                }
            }
            assert forall|k: int| 0 <= k < nf implies !#[trigger] self.stale_helper(k) by {
                if self.live(k) && self.entry_at(k).kind is Helper {
                    if k < n2 {
                        assert(self.slots@[k] == s3.slots@[k]);
                        assert(s3.slots@[k] == s2.slots@[k]);
                        assert(s2.settle_rel(s1, k));
                        assert(s1.live(k) && s1.entry_at(k).kind is Helper);
                        assert(s1.slots@[k] == (if s0.stale_helper(k) {
                            Option::<Entry>::None
                        } else {
                            s0.slots@[k]
                        }));
                        assert(!s0.stale_helper(k));
                        assert(s0.live(k) && s0.entry_at(k).kind is Helper);
                        assert(s0.wf_at(k));
                        let t = s0.entry_at(k).kind->Helper_0.target as int;
                        assert(s0.live(t));
                        assert(s0.entry_at(t).selected);
                        assert(!(s0.entry_at(t).kind is Helper));
                        assert(!s0.stale_helper(t));
                        assert(s1.slots@[t] == s0.slots@[t]);
                        assert(s2.settle_rel(s1, t));
                        assert(s2.entry_at(t).selected);
                        assert(self.slots@[t] == s3.slots@[t]);
                        assert(s3.slots@[t] == s2.slots@[t]);
                        assert(self.entry_at(k).kind == s2.entry_at(k).kind);
                        assert(self.entry_at(t).selected);
                    } else if k < n3 {
                        assert(s3.label_extra_at(k));
                        assert(self.slots@[k] == s3.slots@[k]);
                    } else {
                        assert(self.helper_extra_at(n3, k));
                    }
                }
            }
            let n0 = s0.slots@.len() as int;
            assert forall|k: int|
                0 <= k < n0 implies #[trigger] self.engine_rel(s0, k) by {
                assert(self.slots@[k] == s3.slots@[k]);
                assert(s3.slots@[k] == s2.slots@[k]);
                assert(s2.settle_rel(s1, k));
                if s0.stale_helper(k) {
                    assert(s1.slots@[k] is None);
                    assert(!s2.live(k));
                } else {
                    assert(s1.slots@[k] == s0.slots@[k]);
                    assert(self.settle_rel(s0, k));
                }
            }
            assert forall|k: int|
                n0 <= k < nf implies #[trigger] self.engine_added_at(k) by {
                assert(s1.slots@.len() == n0);
                assert(n2 == n0);
                if k < n3 {
                    assert(s3.label_extra_at(k));
                    assert(self.slots@[k] == s3.slots@[k]);
                } else {
                    assert(self.helper_extra_at(n3, k));
                }
            }
            assert forall|k: int| #[trigger] self.is_subsystem(k) implies self.has_label(k) by {
                if k < n3 {
                    assert(self.slots@[k] == s3.slots@[k]);
                    assert(s3.is_subsystem(k));
                    assert(s3.has_label(k));
                    let l = choose|l: int|
                        0 <= l < s3.slots@.len() && s3.live(l) && s3.entry_at(l).kind is Label && (
                        #[trigger] s3.entry_at(l).kind)->Label_0.target == k;
                    assert(self.live(l) && self.entry_at(l).kind is Label && self.entry_at(
                        l,
                    ).kind->Label_0.target == k);
                } else {
                    assert(self.helper_extra_at(n3, k));
                    assert(!(self.entry_at(k).kind is Sys));
                }
            }
        }
    }


    /// Recompute the aggregate of the interface subsystem of `iface`,
    /// keeping the import and export marks of `prior`.
    pub fn compute_aggregate(&self, iface: EntityId, prior: InterfaceAggregate) -> (r:
        InterfaceAggregate)
        ensures
            r == (InterfaceAggregate {
                interface: iface,
                total_inflow: self.inflow_sum(iface, self.slots@.len() as int) as u128,
                total_outflow: self.outflow_sum(iface, self.slots@.len() as int) as u128,
                substance_type: self.crossing_substance(iface, self.slots@.len() as int),
                is_useful: self.crossing_useful(iface, self.slots@.len() as int),
                is_import: prior.is_import,
                is_export: prior.is_export,
            }),
    {
        let mut total_inflow: u128 = 0;
        let mut total_outflow: u128 = 0;
        let mut substance_type = SubstanceType::Matter;
        let mut is_useful = false;
        let n = self.slots.len();
        let mut m: usize = 0;
        while m < n
            invariant
                n == self.slots@.len(),
                m <= n,
                total_inflow == self.inflow_sum(iface, m as int),
                total_outflow == self.outflow_sum(iface, m as int),
                substance_type == self.crossing_substance(iface, m as int),
                is_useful == self.crossing_useful(iface, m as int),
            decreases n - m,
        {
            proof {
                self.lemma_inflow_sum_bound(iface, m as int);
                self.lemma_outflow_sum_bound(iface, m as int);
                assert((m as int) * 0xffff_ffff_ffff_ffff + 0xffff_ffff_ffff_ffff == (m as int + 1)
                    * 0xffff_ffff_ffff_ffff);
                assert((m as int + 1) * 0xffff_ffff_ffff_ffff
                    < 0x1_0000_0000_0000_0000_0000_0000_0000_0000) by (nonlinear_arith)
                    requires
                        0 <= m < 0x1_0000_0000_0000_0000,
                ;
            }
            match &self.slots[m] {
                Option::Some(e) => match &e.kind {
                    Element::Flow(d) => {
                        let mut crossed = false;
                        let sink_hit = match d.sink {
                            Endpoint::OnInterface(t) => t == iface,
                            _ => false,
                        };
                        let source_hit = match d.source {
                            Endpoint::OnInterface(t) => t == iface,
                            _ => false,
                        };
                        if sink_hit {
                            total_inflow = total_inflow + d.amount as u128;
                            crossed = true;
                        }
                        if source_hit {
                            total_outflow = total_outflow + d.amount as u128;
                            crossed = true;
                        }
                        if crossed {
                            substance_type = d.substance_type;
                            is_useful = d.is_useful;
                        }
                    },
                    _ => {},
                },
                Option::None => {},
            }
            m = m + 1;
        }
        InterfaceAggregate {
            interface: iface,
            total_inflow,
            total_outflow,
            substance_type,
            is_useful,
            is_import: prior.is_import,
            is_export: prior.is_export,
        }
    }

    /// Whether some live label names element `k`, as executable code.
    pub fn scan_has_label(&self, k: EntityId) -> (r: bool)
        ensures
            r == self.has_label(k as int),
    {
        let n = self.slots.len();
        let mut l: usize = 0;
        while l < n
            invariant
                n == self.slots@.len(),
                l <= n,
                forall|m: int|
                    0 <= m < l ==> !(self.live(m) && self.entry_at(m).kind is Label && (
                    #[trigger] self.entry_at(m).kind)->Label_0.target == k as int),
            decreases n - l,
        {
            match &self.slots[l] {
                Option::Some(e) => match &e.kind {
                    Element::Label(d) => {
                        if d.target == k {
                            proof {
                                assert(self.live(l as int) && self.entry_at(l as int).kind
                                    is Label && self.entry_at(l as int).kind->Label_0.target
                                    == k as int);
                            }
                            return true;
                        }
                    },
                    _ => {},
                },
                Option::None => {},
            }
            l = l + 1;
        }
        false
    }

    /// Whether some live helper highlights element `k`, as executable
    /// code.
    pub fn scan_has_helper(&self, k: EntityId) -> (r: bool)
        ensures
            r == self.has_helper(k as int),
    {
        let n = self.slots.len();
        let mut l: usize = 0;
        while l < n
            invariant
                n == self.slots@.len(),
                l <= n,
                forall|m: int|
                    0 <= m < l ==> !(self.live(m) && self.entry_at(m).kind is Helper && (
                    #[trigger] self.entry_at(m).kind)->Helper_0.target == k as int),
            decreases n - l,
        {
            match &self.slots[l] {
                Option::Some(e) => match &e.kind {
                    Element::Helper(d) => {
                        if d.target == k {
                            proof {
                                assert(self.live(l as int) && self.entry_at(l as int).kind
                                    is Helper && self.entry_at(l as int).kind->Helper_0.target
                                    == k as int);
                            }
                            return true;
                        }
                    },
                    _ => {},
                },
                Option::None => {},
            }
            l = l + 1;
        }
        false
    }
}

/// Two scenes with the same slots and zoom agree on being settled at
/// every index.
pub proof fn lemma_same_slots_settled(a: Scene, b: Scene, k: int)
    requires
        a.slots@ == b.slots@,
        a.zoom == b.zoom,
        a.settled_at(k),
    ensures
        b.settled_at(k),
{
    if b.is_interface_subsystem(k) {
        lemma_sums_agree_full(a, b, b.sys_at(k).aggregate->0.interface);
    }
}

/// Uniqueness of labels carries over to any scene whose live labels all
/// come from the old scene's slots unchanged in target.
pub proof fn lemma_labels_unique_preserved(pre: Scene, post: Scene)
    requires
        pre.labels_unique(),
        forall|k: int|
            #![trigger post.entry_at(k).kind]
            0 <= k < post.slots@.len() && post.live(k) && post.entry_at(k).kind is Label ==> 0 <= k
                < pre.slots@.len() && pre.live(k) && pre.entry_at(k).kind is Label
                && post.entry_at(k).kind->Label_0.target == pre.entry_at(k).kind->Label_0.target,
    ensures
        post.labels_unique(),
{
    assert forall|l1: int, l2: int|
        #![trigger post.entry_at(l1).kind, post.entry_at(l2).kind]
        0 <= l1 < post.slots@.len() && 0 <= l2 < post.slots@.len() && post.live(l1) && post.live(
            l2,
        ) && post.entry_at(l1).kind is Label && post.entry_at(l2).kind is Label && post.entry_at(
            l1,
        ).kind->Label_0.target == post.entry_at(l2).kind->Label_0.target implies l1 == l2 by {
        assert(pre.entry_at(l1).kind is Label && pre.entry_at(l2).kind is Label);
    }
}

/// Uniqueness of helpers carries over in the same way.
pub proof fn lemma_helpers_unique_preserved(pre: Scene, post: Scene)
    requires
        pre.helpers_unique(),
        forall|k: int|
            #![trigger post.entry_at(k).kind]
            0 <= k < post.slots@.len() && post.live(k) && post.entry_at(k).kind is Helper ==> 0
                <= k < pre.slots@.len() && pre.live(k) && pre.entry_at(k).kind is Helper
                && post.entry_at(k).kind->Helper_0.target == pre.entry_at(
                k,
            ).kind->Helper_0.target,
    ensures
        post.helpers_unique(),
{
    assert forall|l1: int, l2: int|
        #![trigger post.entry_at(l1).kind, post.entry_at(l2).kind]
        0 <= l1 < post.slots@.len() && 0 <= l2 < post.slots@.len() && post.live(l1) && post.live(
            l2,
        ) && post.entry_at(l1).kind is Helper && post.entry_at(l2).kind is Helper
            && post.entry_at(l1).kind->Helper_0.target == post.entry_at(
            l2,
        ).kind->Helper_0.target implies l1 == l2 by {
        assert(pre.entry_at(l1).kind is Helper && pre.entry_at(l2).kind is Helper);
    }
}

/// Sums agree between a scene and a settled version of it: the settle
/// relation keeps every field the sums read.
pub proof fn lemma_sums_via_rel(s: Scene, older: Scene, iface: EntityId)
    requires
        s.slots@.len() == older.slots@.len(),
        forall|k: int| 0 <= k < older.slots@.len() ==> #[trigger] s.settle_rel(older, k),
    ensures
        s.inflow_sum(iface, s.slots@.len() as int) == older.inflow_sum(
            iface,
            s.slots@.len() as int,
        ),
        s.outflow_sum(iface, s.slots@.len() as int) == older.outflow_sum(
            iface,
            s.slots@.len() as int,
        ),
        s.crossing_substance(iface, s.slots@.len() as int) == older.crossing_substance(
            iface,
            s.slots@.len() as int,
        ),
        s.crossing_useful(iface, s.slots@.len() as int) == older.crossing_useful(
            iface,
            s.slots@.len() as int,
        ),
{
    assert forall|m: int|
        0 <= m < older.slots@.len() implies #[trigger] older.is_flow(m) == s.is_flow(m) by {
        assert(s.settle_rel(older, m));
    }
    assert forall|m: int|
        0 <= m < older.slots@.len() && older.is_flow(m) implies #[trigger] s.flow_at(m).sink
        == older.flow_at(m).sink && s.flow_at(m).source == older.flow_at(m).source && s.flow_at(
        m,
    ).amount == older.flow_at(m).amount && s.flow_at(m).substance_type == older.flow_at(
        m,
    ).substance_type && s.flow_at(m).is_useful == older.flow_at(m).is_useful by {
        assert(s.settle_rel(older, m));
    }
    lemma_sums_agree_full(older, s, iface);
}

/// Sums agree between two scenes of the same size whose flows agree in
/// endpoints, amount, substance and usefulness.
pub proof fn lemma_sums_agree_full(s1: Scene, s2: Scene, iface: EntityId)
    requires
        s1.slots@.len() == s2.slots@.len(),
        forall|m: int| 0 <= m < s1.slots@.len() ==> #[trigger] s1.is_flow(m) == s2.is_flow(m),
        forall|m: int|
            0 <= m < s1.slots@.len() && s1.is_flow(m) ==> #[trigger] s2.flow_at(m).sink
                == s1.flow_at(m).sink && s2.flow_at(m).source == s1.flow_at(m).source
                && s2.flow_at(m).amount == s1.flow_at(m).amount && s2.flow_at(m).substance_type
                == s1.flow_at(m).substance_type && s2.flow_at(m).is_useful == s1.flow_at(
                m,
            ).is_useful,
    ensures
        s1.inflow_sum(iface, s1.slots@.len() as int) == s2.inflow_sum(
            iface,
            s1.slots@.len() as int,
        ),
        s1.outflow_sum(iface, s1.slots@.len() as int) == s2.outflow_sum(
            iface,
            s1.slots@.len() as int,
        ),
        s1.crossing_substance(iface, s1.slots@.len() as int) == s2.crossing_substance(
            iface,
            s1.slots@.len() as int,
        ),
        s1.crossing_useful(iface, s1.slots@.len() as int) == s2.crossing_useful(
            iface,
            s1.slots@.len() as int,
        ),
{
    lemma_sums_agree(s1, s2, iface, s1.slots@.len() as int, s1.slots@.len() as int);
}

/// The sums over `s1` up to `n1` agree with the sums over `s2` up to
/// `n2 >= n1` when the flows of the shared prefix agree in endpoints,
/// amount, substance and usefulness, and nothing in `s2` past `n1` is a
/// flow.
pub proof fn lemma_sums_agree(s1: Scene, s2: Scene, iface: EntityId, n1: int, n2: int)
    requires
        0 <= n1 <= n2,
        forall|m: int| 0 <= m < n1 ==> #[trigger] s1.is_flow(m) == s2.is_flow(m),
        forall|m: int|
            0 <= m < n1 && s1.is_flow(m) ==> #[trigger] s2.flow_at(m).sink == s1.flow_at(m).sink
                && s2.flow_at(m).source == s1.flow_at(m).source && s2.flow_at(m).amount
                == s1.flow_at(m).amount && s2.flow_at(m).substance_type == s1.flow_at(
                m,
            ).substance_type && s2.flow_at(m).is_useful == s1.flow_at(m).is_useful,
        forall|m: int| n1 <= m < n2 ==> !#[trigger] s2.is_flow(m),
    ensures
        s1.inflow_sum(iface, n1) == s2.inflow_sum(iface, n2),
        s1.outflow_sum(iface, n1) == s2.outflow_sum(iface, n2),
        s1.crossing_substance(iface, n1) == s2.crossing_substance(iface, n2),
        s1.crossing_useful(iface, n1) == s2.crossing_useful(iface, n2),
    decreases n2,
{
    if n2 > n1 {
        lemma_sums_agree(s1, s2, iface, n1, n2 - 1);
    } else if n2 > 0 {
        lemma_sums_agree(s1, s2, iface, n1 - 1, n2 - 1);
    }
}

/// Copy flow data so that the result provably equals the original.
pub fn clone_flow_data(d: &FlowData) -> (r: FlowData)
    ensures
        r == *d,
{
    FlowData {
        substance_type: d.substance_type,
        usability: d.usability,
        amount: d.amount,
        is_useful: d.is_useful,
        source: d.source,
        sink: d.sink,
        incomplete: d.incomplete,
        curve: d.curve,
    }
}

/// Copy system data so that the result provably equals the original.
pub fn clone_sys_data(d: &SystemData) -> (r: SystemData)
    ensures
        r == *d,
{
    SystemData {
        radius: d.radius,
        porosity: d.porosity,
        perceptive_fuzziness: d.perceptive_fuzziness,
        boundary_name: clone_string(&d.boundary_name),
        boundary_description: clone_string(&d.boundary_description),
        complexity: d.complexity,
        nesting_level: d.nesting_level,
        parent_system: d.parent_system,
        aggregate: d.aggregate,
        is_child_of_interface: d.is_child_of_interface,
    }
}

/// Compare two aggregates, as executable code.
fn aggregate_eq(a: &InterfaceAggregate, b: &InterfaceAggregate) -> (r: bool)
    ensures
        r == (*a == *b),
{
    a.interface == b.interface && a.total_inflow == b.total_inflow && a.total_outflow
        == b.total_outflow && a.substance_type == b.substance_type && a.is_useful == b.is_useful
        && a.is_import == b.is_import && a.is_export == b.is_export
}

} // verus!
