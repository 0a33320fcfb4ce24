//! Deleting a system: the cascade to its interfaces, child subsystems,
//! labels and helpers, and the reversion of dangling flows to the
//! incomplete state. Flows are never deleted by a cascade.

use vstd::prelude::*;
use crate::elements::{Element, EntityId, Endpoint, FlowData, InterfaceData};
use crate::scene::{Entry, Scene, SceneError};

verus! {

impl Scene {
    /// Slot `j` is doomed within `fuel` steps: it is the deletion target,
    /// or its spatial parent is doomed, or it is the interface subsystem
    /// of a doomed interface.
    pub open spec fn doomed(self, target: EntityId, j: int, fuel: nat) -> bool
        decreases fuel,
    {
        ||| j == target
        ||| (fuel > 0 && self.live(j) && {
            ||| (self.entry_at(j).parent is Some && self.doomed(
                target,
                self.entry_at(j).parent->0 as int,
                (fuel - 1) as nat,
            ))
            ||| (self.entry_at(j).kind is Sys && self.sys_at(j).aggregate is Some && self.doomed(
                target,
                self.sys_at(j).aggregate->0.interface as int,
                (fuel - 1) as nat,
            ))
            ||| (self.entry_at(j).kind is Sys && self.sys_at(j).parent_system is Some
                && self.doomed(
                target,
                self.sys_at(j).parent_system->0 as int,
                (fuel - 1) as nat,
            ))
        })
    }

    /// Slot `j` goes when `target` is deleted: doomed within any number of
    /// steps.
    pub open spec fn in_doom(self, target: EntityId, j: int) -> bool {
        exists|fuel: nat| self.doomed(target, j, fuel)
    }

    /// Any set that contains the target and is closed under the two doom
    /// edges contains everything doomed.
    pub proof fn lemma_closed_covers_doom(
        self,
        target: EntityId,
        mask: Seq<bool>,
        j: int,
        fuel: nat,
    )
        requires
            mask.len() == self.slots@.len(),
            0 <= target < mask.len(),
            mask[target as int],
            forall|k: int|
                0 <= k < mask.len() && self.live(k) && self.entry_at(k).parent is Some
                    && 0 <= self.entry_at(k).parent->0 < mask.len() && mask[self.entry_at(
                    k,
                ).parent->0 as int] ==> #[trigger] mask[k],
            forall|k: int|
                0 <= k < mask.len() && self.live(k) && self.entry_at(k).kind is Sys && self.sys_at(
                    k,
                ).aggregate is Some && 0 <= self.sys_at(k).aggregate->0.interface < mask.len()
                    && mask[self.sys_at(k).aggregate->0.interface as int] ==> #[trigger] mask[k],
            forall|k: int|
                0 <= k < mask.len() && self.live(k) && self.entry_at(k).kind is Sys && self.sys_at(
                    k,
                ).parent_system is Some && 0 <= self.sys_at(k).parent_system->0 < mask.len()
                    && mask[self.sys_at(k).parent_system->0 as int] ==> #[trigger] mask[k],
            self.doomed(target, j, fuel),
            0 <= j < mask.len(),
            forall|k: int|
                0 <= k < mask.len() && self.live(k) && self.entry_at(k).parent is Some
                    ==> 0 <= #[trigger] self.entry_at(k).parent->0 < mask.len(),
            forall|k: int|
                0 <= k < mask.len() && self.live(k) && self.entry_at(k).kind is Sys && self.sys_at(
                    k,
                ).aggregate is Some ==> 0 <= #[trigger] self.sys_at(k).aggregate->0.interface
                    < mask.len(),
            forall|k: int|
                0 <= k < mask.len() && self.live(k) && self.entry_at(k).kind is Sys && self.sys_at(
                    k,
                ).parent_system is Some ==> 0 <= #[trigger] self.sys_at(k).parent_system->0
                    < mask.len(),
        ensures
            mask[j],
        decreases fuel,
    {
        if j != target && fuel > 0 {
            if self.entry_at(j).parent is Some && self.doomed(
                target,
                self.entry_at(j).parent->0 as int,
                (fuel - 1) as nat,
            ) {
                self.lemma_closed_covers_doom(
                    target,
                    mask,
                    self.entry_at(j).parent->0 as int,
                    (fuel - 1) as nat,
                );
            } else if self.entry_at(j).kind is Sys && self.sys_at(j).aggregate is Some
                && self.doomed(
                target,
                self.sys_at(j).aggregate->0.interface as int,
                (fuel - 1) as nat,
            ) {
                self.lemma_closed_covers_doom(
                    target,
                    mask,
                    self.sys_at(j).aggregate->0.interface as int,
                    (fuel - 1) as nat,
                );
            } else {
                self.lemma_closed_covers_doom(
                    target,
                    mask,
                    self.sys_at(j).parent_system->0 as int,
                    (fuel - 1) as nat,
                );
            }
        }
    }

    /// What a flow endpoint becomes when the target's cascade runs: it is
    /// detached exactly when the element it referenced goes away.
    pub open spec fn endpoint_after_delete(self, target: EntityId, e: Endpoint) -> Endpoint {
        match e {
            Endpoint::Unattached => Endpoint::Unattached,
            Endpoint::OnInterface(t) => if self.in_doom(target, t as int) {
                Endpoint::Unattached
            } else {
                e
            },
            Endpoint::OnExternal(t) => if self.in_doom(target, t as int) {
                Endpoint::Unattached
            } else {
                e
            },
        }
    }

    /// After the cascade for `target`, slot `j` of `self` is live exactly
    /// when it was live in `older` and not doomed.
    pub open spec fn liveness_after_delete(self, older: Scene, target: EntityId, j: int) -> bool {
        self.live(j) <==> older.live(j) && !older.in_doom(target, j)
    }

    /// After the cascade for `target`, a flow of `older` survives in
    /// `self` with doomed endpoints detached, reverting to incomplete if
    /// anything was detached; nothing else about it changes.
    pub open spec fn flow_after_delete(self, older: Scene, target: EntityId, j: int) -> bool {
        older.is_flow(j) ==> {
            &&& self.is_flow(j)
            &&& self.flow_at(j) == (FlowData {
                source: older.endpoint_after_delete(target, older.flow_at(j).source),
                sink: older.endpoint_after_delete(target, older.flow_at(j).sink),
                incomplete: older.flow_at(j).incomplete || older.endpoint_after_delete(
                    target,
                    older.flow_at(j).source,
                ) != older.flow_at(j).source || older.endpoint_after_delete(
                    target,
                    older.flow_at(j).sink,
                ) != older.flow_at(j).sink,
                ..older.flow_at(j)
            })
            &&& self.entry_at(j) == (Entry { kind: self.entry_at(j).kind, ..older.entry_at(j) })
        }
    }

    /// After the cascade for `target`, a surviving interface of `older`
    /// keeps everything but a reference to a doomed interface subsystem.
    pub open spec fn iface_after_delete(self, older: Scene, target: EntityId, j: int) -> bool {
        older.is_interface(j) && !older.in_doom(target, j) ==> {
            &&& self.is_interface(j)
            &&& self.iface_at(j) == (InterfaceData {
                subsystem: match older.iface_at(j).subsystem {
                    Option::Some(s) => if older.in_doom(target, s as int) {
                        Option::None
                    } else {
                        Option::Some(s)
                    },
                    Option::None => Option::None,
                },
                ..older.iface_at(j)
            })
            &&& self.entry_at(j) == (Entry { kind: self.entry_at(j).kind, ..older.entry_at(j) })
        }
    }

    /// After the cascade for `target`, every other surviving element is
    /// carried over untouched.
    pub open spec fn rest_after_delete(self, older: Scene, target: EntityId, j: int) -> bool {
        older.live(j) && !older.in_doom(target, j) && !(older.entry_at(j).kind is Flow) && !(
        older.entry_at(j).kind is Iface) ==> self.slots@[j] == older.slots@[j]
    }

    /// Delete a system. The cascade removes its interfaces, its child
    /// subsystems (transitively, with their own interfaces and labels),
    /// the interface subsystems of removed interfaces, and labels and
    /// helpers of removed elements. Flows are never deleted: a flow whose
    /// endpoint was attached to a removed element has that endpoint
    /// detached and reverts to the incomplete state. The root cannot be
    /// deleted.
    #[verifier::rlimit(100)]
    #[verifier::spinoff_prover]
    pub fn delete_system(&mut self, target: EntityId) -> (r: Result<(), SceneError>)
        requires
            old(self).wf(),
        ensures
            final(self).wf(),
            final(self).same_frame(*old(self)),
            r is Ok <==> old(self).is_system(target as int) && target != old(self).root,
            r is Err ==> *final(self) == *old(self),
            r is Ok ==> {
                &&& final(self).slots@.len() == old(self).slots@.len()
                &&& forall|j: int|
                    0 <= j < old(self).slots@.len() ==> #[trigger] final(self).liveness_after_delete(*old(self), target, j)
                &&& forall|j: int|
                    0 <= j < old(self).slots@.len() ==> #[trigger] final(self).flow_after_delete(
                        *old(self),
                        target,
                        j,
                    )
                &&& forall|j: int|
                    0 <= j < old(self).slots@.len() ==> #[trigger] final(self).iface_after_delete(
                        *old(self),
                        target,
                        j,
                    )
                &&& forall|j: int|
                    0 <= j < old(self).slots@.len() ==> #[trigger] final(self).rest_after_delete(
                        *old(self),
                        target,
                        j,
                    )
            },
    {
        if !(target < self.slots.len() && self.slots[target].is_some()) {
            return Result::Err(SceneError::UnknownEntity);
        }
        if !matches!(&self.slots[target].as_ref().unwrap().kind, Element::Sys(_)) {
            return Result::Err(SceneError::InvariantViolation);
        }
        if target == self.root {
            return Result::Err(SceneError::InvariantViolation);
        }
        let n = self.slots.len();
        // Phase one: compute the doomed set as a fixpoint of the two
        // cascade edges.
        let mut mask: Vec<bool> = Vec::new();
        let mut i: usize = 0;
        while i < n
            invariant
                i <= n,
                mask@.len() == i,
                forall|k: int| 0 <= k < i ==> !#[trigger] mask@[k],
            decreases n - i,
        {
            mask.push(false);
            i = i + 1;
        }
        proof {
            lemma_count_true_zero(mask@, n as int);
            lemma_count_true_update(mask@, n as int, target as int);
            assert(self.doomed(target, target as int, 0));
        }
        mask[target] = true;
        let mut masked_total: usize = 1;
        loop
            invariant
                self == old(self),
                old(self).wf(),
                n == self.slots@.len(),
                target < n,
                self.live(target as int),
                mask@.len() == n,
                mask@[target as int],
                1 <= masked_total <= n,
                masked_total == count_true(mask@, n as int),
                forall|k: int|
                    0 <= k < n && #[trigger] mask@[k] ==> self.in_doom(target, k) && self.live(k),
            ensures
                mask@.len() == n,
                mask@[target as int],
                forall|k: int|
                    0 <= k < n && #[trigger] mask@[k] ==> self.in_doom(target, k) && self.live(k),
                forall|k: int|
                    0 <= k < n && self.live(k) && #[trigger] self.in_doom(target, k)
                        ==> mask@[k],
            decreases n - masked_total,
        {
            let mut changed = false;
            let mut j: usize = 0;
            let ghost mask_at_pass = mask@;
            while j < n
                invariant
                    self == old(self),
                    old(self).wf(),
                    n == self.slots@.len(),
                    target < n,
                    self.live(target as int),
                    mask@.len() == n,
                    mask_at_pass.len() == n,
                    mask@[target as int],
                    j <= n,
                    masked_total == count_true(mask@, n as int),
                    masked_total <= n,
                    forall|k: int|
                        0 <= k < n && #[trigger] mask@[k] ==> self.in_doom(target, k) && self.live(
                            k,
                        ),
                    forall|k: int| 0 <= k < n && mask_at_pass[k] ==> #[trigger] mask@[k],
                    !changed ==> mask@ == mask_at_pass,
                    changed ==> count_true(mask@, n as int) > count_true(mask_at_pass, n as int),
                    // Every slot already scanned in this pass is stable
                    // with respect to the mask as it was then; since the
                    // mask only grows, a stable full pass means closure.
                    forall|k: int|
                        0 <= k < j && self.live(k) && self.entry_at(k).parent is Some
                            && 0 <= self.entry_at(k).parent->0 < n && mask_at_pass[self.entry_at(
                            k,
                        ).parent->0 as int] ==> #[trigger] mask@[k],
                    forall|k: int|
                        0 <= k < j && self.live(k) && self.entry_at(k).kind is Sys && self.sys_at(
                            k,
                        ).aggregate is Some && 0 <= self.sys_at(k).aggregate->0.interface < n
                            && mask_at_pass[self.sys_at(k).aggregate->0.interface as int]
                            ==> #[trigger] mask@[k],
                    forall|k: int|
                        0 <= k < j && self.live(k) && self.entry_at(k).kind is Sys && self.sys_at(
                            k,
                        ).parent_system is Some && 0 <= self.sys_at(k).parent_system->0 < n
                            && mask_at_pass[self.sys_at(k).parent_system->0 as int]
                            ==> #[trigger] mask@[k],
                decreases n - j,
            {
                if !mask[j] {
                    let doom_edge = match &self.slots[j] {
                        Option::Some(e) => {
                            let parent_doomed = match e.parent {
                                Option::Some(p) => p < n && mask[p],
                                Option::None => false,
                            };
                            let agg_doomed = match &e.kind {
                                Element::Sys(d) => match d.aggregate {
                                    Option::Some(a) => a.interface < n && mask[a.interface],
                                    Option::None => false,
                                },
                                _ => false,
                            };
                            let sys_parent_doomed = match &e.kind {
                                Element::Sys(d) => match d.parent_system {
                                    Option::Some(p) => p < n && mask[p],
                                    Option::None => false,
                                },
                                _ => false,
                            };
                            parent_doomed || agg_doomed || sys_parent_doomed
                        },
                        Option::None => false,
                    };
                    if doom_edge {
                        let ghost before = mask@;
                        mask[j] = true;
                        proof {
                            // The newly masked slot is doomed through its
                            // masked edge.
                            let k = j as int;
                            assert(self.in_doom(target, k)) by {
                                if self.entry_at(k).parent is Some && 0 <= self.entry_at(
                                    k,
                                ).parent->0 < n && before[self.entry_at(k).parent->0 as int] {
                                    let p = self.entry_at(k).parent->0 as int;
                                    let f = choose|f: nat| self.doomed(target, p, f);
                                    assert(self.doomed(target, k, f + 1));
                                } else if self.entry_at(k).kind is Sys && self.sys_at(
                                    k,
                                ).aggregate is Some && 0 <= self.sys_at(
                                    k,
                                ).aggregate->0.interface < n && before[self.sys_at(
                                    k,
                                ).aggregate->0.interface as int] {
                                    let p = self.sys_at(k).aggregate->0.interface as int;
                                    let f = choose|f: nat| self.doomed(target, p, f);
                                    assert(self.doomed(target, k, f + 1));
                                } else {
                                    let p = self.sys_at(k).parent_system->0 as int;
                                    let f = choose|f: nat| self.doomed(target, p, f);
                                    assert(self.doomed(target, k, f + 1));
                                }
                            };
                            lemma_count_true_update(before, n as int, k);
                            lemma_count_true_mono(mask_at_pass, mask@, n as int);
                            lemma_count_true_mono(mask@, mask@, n as int);
                        }
                        masked_total = masked_total + 1;
                        changed = true;
                    }
                }
                j = j + 1;
            }
            if !changed {
                proof {
                    // A stable pass: the mask is closed under both edges,
                    // so it covers everything doomed.
                    assert forall|k: int|
                        0 <= k < n && self.live(k) && #[trigger] self.in_doom(target, k)
                        implies mask@[k] by {
                        let f = choose|f: nat| self.doomed(target, k, f);
                        assert forall|k2: int|
                            0 <= k2 < n && self.live(k2) && self.entry_at(k2).parent is Some
                            implies 0 <= #[trigger] self.entry_at(k2).parent->0 < n by {
                            assert(self.wf_at(k2));
                        }
                        assert forall|k2: int|
                            0 <= k2 < n && self.live(k2) && self.entry_at(k2).kind is Sys
                                && self.sys_at(k2).aggregate is Some implies 0
                            <= #[trigger] self.sys_at(k2).aggregate->0.interface < n by {
                            assert(self.wf_at(k2));
                        }
                        assert forall|k2: int|
                            0 <= k2 < n && self.live(k2) && self.entry_at(k2).kind is Sys
                                && self.sys_at(k2).parent_system is Some implies 0
                            <= #[trigger] self.sys_at(k2).parent_system->0 < n by {
                            assert(self.wf_at(k2));
                        }
                        self.lemma_closed_covers_doom(target, mask@, k, f);
                    }
                }
                break;
            }
        }
        self.apply_cascade(target, &mask);
        Result::Ok(())
    }

    /// Apply a computed cascade: empty the masked slots, detach flows
    /// from masked elements, and clear surviving interfaces' references
    /// to masked interface subsystems.
    #[verifier::rlimit(100)]
    #[verifier::spinoff_prover]
    fn apply_cascade(&mut self, target: EntityId, mask: &Vec<bool>)
        requires
            old(self).wf(),
            old(self).is_system(target as int),
            target != old(self).root,
            mask@.len() == old(self).slots@.len(),
            forall|k: int|
                0 <= k < mask@.len() && #[trigger] mask@[k] ==> old(self).in_doom(target, k)
                    && old(self).live(k),
            forall|k: int|
                0 <= k < mask@.len() && old(self).live(k) && #[trigger] old(self).in_doom(
                    target,
                    k,
                ) ==> mask@[k],
        ensures
            final(self).wf(),
            final(self).same_frame(*old(self)),
            final(self).slots@.len() == old(self).slots@.len(),
            forall|j: int|
                0 <= j < old(self).slots@.len() ==> #[trigger] final(self).liveness_after_delete(
                    *old(self),
                    target,
                    j,
                ),
            forall|j: int|
                0 <= j < old(self).slots@.len() ==> #[trigger] final(self).flow_after_delete(
                    *old(self),
                    target,
                    j,
                ),
            forall|j: int|
                0 <= j < old(self).slots@.len() ==> #[trigger] final(self).iface_after_delete(
                    *old(self),
                    target,
                    j,
                ),
            forall|j: int|
                0 <= j < old(self).slots@.len() ==> #[trigger] final(self).rest_after_delete(
                    *old(self),
                    target,
                    j,
                ),
    {
        let n = self.slots.len();
        let ghost doomset = mask@;
        // Phase two: apply the cascade: doomed slots are emptied, flows
        // are detached from doomed elements, and surviving interfaces
        // forget a doomed interface subsystem.
        let mut j: usize = 0;
        while j < n
            invariant
                n == self.slots@.len(),
                n == old(self).slots@.len(),
                j <= n,
                target < n,
                mask@ == doomset,
                mask@.len() == n,
                self.same_frame(*old(self)),
                old(self).wf(),
                old(self).is_system(target as int),
                target != old(self).root,
                forall|k: int|
                    0 <= k < n && #[trigger] doomset[k] ==> old(self).live(k) && old(self).in_doom(
                        target,
                        k,
                    ),
                forall|k: int|
                    0 <= k < n && old(self).live(k) && old(self).in_doom(target, k)
                        ==> #[trigger] doomset[k],
                forall|k: int| j <= k < n ==> self.slots@[k] == #[trigger] old(self).slots@[k],
                forall|k: int|
                    0 <= k < j ==> #[trigger] self.liveness_after_delete(*old(self), target, k),
                forall|k: int|
                    0 <= k < j ==> #[trigger] self.flow_after_delete(*old(self), target, k),
                forall|k: int|
                    0 <= k < j ==> #[trigger] self.iface_after_delete(*old(self), target, k),
                forall|k: int|
                    0 <= k < j ==> #[trigger] self.rest_after_delete(*old(self), target, k),
            decreases n - j,
        {
            let ghost iter0 = *self;
            if mask[j] {
                self.slots[j] = Option::None;
            } else {
                let needs_patch = match &self.slots[j] {
                    Option::Some(e) => match &e.kind {
                        Element::Flow(d) => {
                            endpoint_doomed(&mask, d.source) || endpoint_doomed(&mask, d.sink)
                        },
                        Element::Iface(d) => match d.subsystem {
                            Option::Some(s) => s < n && mask[s],
                            Option::None => false,
                        },
                        _ => false,
                    },
                    Option::None => false,
                };
                if needs_patch {
                    let e = self.slots[j].as_ref().unwrap().clone_entry();
                    match e.kind {
                        Element::Flow(d) => {
                            let source = clear_doomed_endpoint(&mask, d.source);
                            let sink = clear_doomed_endpoint(&mask, d.sink);
                            let incomplete = d.incomplete || source != d.source || sink != d.sink;
                            let new_e = Entry {
                                kind: Element::Flow(FlowData { source, sink, incomplete, ..d }),
                                ..e
                            };
                            proof {
                                assert(old(self).wf_at(j as int));
                            }
                            self.slots[j] = Option::Some(new_e);
                        },
                        Element::Iface(d) => {
                            let new_e = Entry {
                                kind: Element::Iface(
                                    InterfaceData { subsystem: Option::None, ..d },
                                ),
                                ..e
                            };
                            self.slots[j] = Option::Some(new_e);
                        },
                        _ => {},
                    }
                }
            }
            proof {
                let k = j as int;
                assert(old(self).wf_at(k));
                if old(self).is_flow(k) {
                    lemma_flow_not_doomed(*old(self), target, k);
                    assert(!doomset[k]);
                }
                if !doomset[k] && old(self).live(k) {
                    assert(!old(self).in_doom(target, k));
                    match old(self).entry_at(k).kind {
                        Element::Flow(d) => {
                            // The exec mask test on each endpoint agrees
                            // with the doom predicate, since endpoint
                            // targets are live.
                            match d.source {
                                Endpoint::OnInterface(t) => {
                                    assert(old(self).live(t as int));
                                    assert(doomset[t as int] == old(self).in_doom(
                                        target,
                                        t as int,
                                    ));
                                },
                                Endpoint::OnExternal(t) => {
                                    assert(old(self).live(t as int));
                                    assert(doomset[t as int] == old(self).in_doom(
                                        target,
                                        t as int,
                                    ));
                                },
                                Endpoint::Unattached => {},
                            }
                            match d.sink {
                                Endpoint::OnInterface(t) => {
                                    assert(old(self).live(t as int));
                                    assert(doomset[t as int] == old(self).in_doom(
                                        target,
                                        t as int,
                                    ));
                                },
                                Endpoint::OnExternal(t) => {
                                    assert(old(self).live(t as int));
                                    assert(doomset[t as int] == old(self).in_doom(
                                        target,
                                        t as int,
                                    ));
                                },
                                Endpoint::Unattached => {},
                            }
                            assert(self.flow_at(k).source == old(self).endpoint_after_delete(
                                target,
                                d.source,
                            ));
                            assert(self.flow_at(k).sink == old(self).endpoint_after_delete(
                                target,
                                d.sink,
                            ));
                        },
                        Element::Iface(d) => {
                            match d.subsystem {
                                Option::Some(sb) => {
                                    assert(old(self).live(sb as int));
                                    assert(doomset[sb as int] == old(self).in_doom(
                                        target,
                                        sb as int,
                                    ));
                                },
                                Option::None => {},
                            }
                        },
                        _ => {},
                    }
                }
                assert forall|k: int|
                    0 <= k < j + 1 implies #[trigger] self.liveness_after_delete(
                    *old(self),
                    target,
                    k,
                ) by {
                    if k < j {
                        assert(iter0.liveness_after_delete(*old(self), target, k));
                        assert(self.slots@[k] == iter0.slots@[k]);
                    }
                }
                assert forall|k: int|
                    0 <= k < j + 1 implies #[trigger] self.flow_after_delete(
                    *old(self),
                    target,
                    k,
                ) by {
                    if k < j {
                        assert(iter0.flow_after_delete(*old(self), target, k));
                        assert(self.slots@[k] == iter0.slots@[k]);
                    }
                }
                assert forall|k: int|
                    0 <= k < j + 1 implies #[trigger] self.iface_after_delete(
                    *old(self),
                    target,
                    k,
                ) by {
                    if k < j {
                        assert(iter0.iface_after_delete(*old(self), target, k));
                        assert(self.slots@[k] == iter0.slots@[k]);
                    }
                }
                assert forall|k: int|
                    0 <= k < j + 1 implies #[trigger] self.rest_after_delete(
                    *old(self),
                    target,
                    k,
                ) by {
                    if k < j {
                        assert(iter0.rest_after_delete(*old(self), target, k));
                        assert(self.slots@[k] == iter0.slots@[k]);
                    }
                }
            }
            j = j + 1;
        }
        proof {
            assert(old(self).slots@.len() <= usize::MAX) by {
                assert(n == old(self).slots@.len());
            }
            lemma_cascade_wf(*old(self), *self, target);
        }
    }

}

/// A cascade that satisfies the per-slot relations yields a well-formed
/// scene again.
#[verifier::rlimit(100)]
#[verifier::spinoff_prover]
proof fn lemma_cascade_wf(pre: Scene, post: Scene, target: EntityId)
    requires
        pre.wf(),
        pre.is_system(target as int),
        target != pre.root,
        pre.slots@.len() <= usize::MAX,
        post.slots@.len() == pre.slots@.len(),
        post.root == pre.root,
        post.zoom == pre.zoom,
        forall|k: int|
            0 <= k < pre.slots@.len() ==> #[trigger] post.liveness_after_delete(pre, target, k),
        forall|k: int|
            0 <= k < pre.slots@.len() ==> #[trigger] post.flow_after_delete(pre, target, k),
        forall|k: int|
            0 <= k < pre.slots@.len() ==> #[trigger] post.iface_after_delete(pre, target, k),
        forall|k: int|
            0 <= k < pre.slots@.len() ==> #[trigger] post.rest_after_delete(pre, target, k),
    ensures
        post.wf(),
{
            lemma_root_not_doomed(pre, target);
            assert(pre.wf_at(pre.root as int));
            assert(post.liveness_after_delete(pre, target, pre.root as int));
            assert(post.rest_after_delete(pre, target, pre.root as int));
            assert forall|k: int| 0 <= k < post.slots@.len() implies #[trigger] post.wf_at(k) by {
                assert(post.liveness_after_delete(pre, target, k));
                assert(post.flow_after_delete(pre, target, k));
                assert(post.iface_after_delete(pre, target, k));
                assert(post.rest_after_delete(pre, target, k));
                if post.live(k) {
                    assert(pre.wf_at(k));
                    let e = pre.entry_at(k);
                    if e.parent is Some {
                        assert(pre.wf_at(e.parent->0 as int));
                        assert(post.liveness_after_delete(pre, target, e.parent->0 as int));
                        assert(post.flow_after_delete(pre, target, e.parent->0 as int));
                        assert(post.iface_after_delete(pre, target, e.parent->0 as int));
                        assert(post.rest_after_delete(pre, target, e.parent->0 as int));
                        assert(!pre.in_doom(target, e.parent->0 as int)) by {
                            if pre.in_doom(target, e.parent->0 as int) {
                                let f = choose|f: nat|
                                    pre.doomed(target, e.parent->0 as int, f);
                                assert(pre.doomed(target, k, f + 1));
                            }
                        }
                    }
                    match e.kind {
                        Element::Sys(d) => {
                            if d.parent_system is Some {
                                assert(!pre.in_doom(target, d.parent_system->0 as int)) by {
                                    if pre.in_doom(target, d.parent_system->0 as int) {
                                        let f = choose|f: nat|
                                            pre.doomed(target, d.parent_system->0 as int, f);
                                        assert(pre.doomed(target, k, f + 1));
                                    }
                                }
                                assert(pre.wf_at(d.parent_system->0 as int));
                        assert(post.liveness_after_delete(pre, target, d.parent_system->0 as int));
                        assert(post.flow_after_delete(pre, target, d.parent_system->0 as int));
                        assert(post.iface_after_delete(pre, target, d.parent_system->0 as int));
                        assert(post.rest_after_delete(pre, target, d.parent_system->0 as int));
                            }
                            if d.aggregate is Some {
                                assert(pre.wf_at(d.aggregate->0.interface as int));
                        assert(post.liveness_after_delete(pre, target, d.aggregate->0.interface as int));
                        assert(post.flow_after_delete(pre, target, d.aggregate->0.interface as int));
                        assert(post.iface_after_delete(pre, target, d.aggregate->0.interface as int));
                        assert(post.rest_after_delete(pre, target, d.aggregate->0.interface as int));
                                assert(!pre.in_doom(
                                    target,
                                    d.aggregate->0.interface as int,
                                )) by {
                                    if pre.in_doom(
                                        target,
                                        d.aggregate->0.interface as int,
                                    ) {
                                        let f = choose|f: nat|
                                            pre.doomed(
                                                target,
                                                d.aggregate->0.interface as int,
                                                f,
                                            );
                                        assert(pre.doomed(target, k, f + 1));
                                    }
                                }
                                assert(pre.iface_at(
                                    d.aggregate->0.interface as int,
                                ).subsystem == Option::Some(k as EntityId));
                                assert((k as EntityId) as int == k);
                                assert(!pre.in_doom(target, (k as EntityId) as int));
                            }
                        },
                        Element::Iface(d) => {
                            assert(pre.wf_at(d.parent_system as int));
                        assert(post.liveness_after_delete(pre, target, d.parent_system as int));
                        assert(post.flow_after_delete(pre, target, d.parent_system as int));
                        assert(post.iface_after_delete(pre, target, d.parent_system as int));
                        assert(post.rest_after_delete(pre, target, d.parent_system as int));
                            match d.subsystem {
                                Option::Some(s) => {
                                    assert(pre.wf_at(s as int));
                        assert(post.liveness_after_delete(pre, target, s as int));
                        assert(post.flow_after_delete(pre, target, s as int));
                        assert(post.iface_after_delete(pre, target, s as int));
                        assert(post.rest_after_delete(pre, target, s as int));
                                },
                                Option::None => {},
                            }
                        },
                        Element::Flow(d) => {
                            match d.source {
                                Endpoint::OnInterface(t) => {
                                    assert(pre.wf_at(t as int));
                        assert(post.liveness_after_delete(pre, target, t as int));
                        assert(post.flow_after_delete(pre, target, t as int));
                        assert(post.iface_after_delete(pre, target, t as int));
                        assert(post.rest_after_delete(pre, target, t as int));
                                },
                                Endpoint::OnExternal(t) => {
                                    assert(pre.wf_at(t as int));
                        assert(post.liveness_after_delete(pre, target, t as int));
                        assert(post.flow_after_delete(pre, target, t as int));
                        assert(post.iface_after_delete(pre, target, t as int));
                        assert(post.rest_after_delete(pre, target, t as int));
                                },
                                Endpoint::Unattached => {},
                            }
                            match d.sink {
                                Endpoint::OnInterface(t) => {
                                    assert(pre.wf_at(t as int));
                        assert(post.liveness_after_delete(pre, target, t as int));
                        assert(post.flow_after_delete(pre, target, t as int));
                        assert(post.iface_after_delete(pre, target, t as int));
                        assert(post.rest_after_delete(pre, target, t as int));
                                },
                                Endpoint::OnExternal(t) => {
                                    assert(pre.wf_at(t as int));
                        assert(post.liveness_after_delete(pre, target, t as int));
                        assert(post.flow_after_delete(pre, target, t as int));
                        assert(post.iface_after_delete(pre, target, t as int));
                        assert(post.rest_after_delete(pre, target, t as int));
                                },
                                Endpoint::Unattached => {},
                            }
                        },
                        Element::Ext(_) => {},
                        Element::Label(d) => {
                            assert(pre.wf_at(d.target as int));
                        assert(post.liveness_after_delete(pre, target, d.target as int));
                        assert(post.flow_after_delete(pre, target, d.target as int));
                        assert(post.iface_after_delete(pre, target, d.target as int));
                        assert(post.rest_after_delete(pre, target, d.target as int));
                        },
                        Element::Helper(d) => {
                            assert(pre.wf_at(d.target as int));
                        assert(post.liveness_after_delete(pre, target, d.target as int));
                        assert(post.flow_after_delete(pre, target, d.target as int));
                        assert(post.iface_after_delete(pre, target, d.target as int));
                        assert(post.rest_after_delete(pre, target, d.target as int));
                        },
                    }
                }
            }
}

/// A flow is never doomed: it is not the target (which is a system), it
/// has no spatial parent, and it aggregates nothing.
proof fn lemma_flow_not_doomed(s: Scene, target: EntityId, j: int)
    requires
        s.wf(),
        s.is_system(target as int),
        s.is_flow(j),
    ensures
        !s.in_doom(target, j),
{
    assert(s.wf_at(j));
    if s.in_doom(target, j) {
        let f = choose|f: nat| s.doomed(target, j, f);
        assert(j == target ==> false);
        assert(s.entry_at(j).parent is None);
        assert(!(s.entry_at(j).kind is Sys));
    }
}

/// The root is never doomed: nothing above it can be, because its parent
/// chain is empty and it aggregates no interface.
proof fn lemma_root_not_doomed(s: Scene, target: EntityId)
    requires
        s.wf(),
        s.is_system(target as int),
        target != s.root,
    ensures
        !s.in_doom(target, s.root as int),
{
    assert(s.wf_at(s.root as int));
    if s.in_doom(target, s.root as int) {
        let f = choose|f: nat| s.doomed(target, s.root as int, f);
        assert(s.root as int == target as int || f > 0);
        assert(s.entry_at(s.root as int).parent is None);
        assert(s.sys_at(s.root as int).aggregate is None);
    }
}

/// How many of the first `n` entries are set.
pub open spec fn count_true(mask: Seq<bool>, n: int) -> int
    decreases n,
{
    if n <= 0 {
        0
    } else {
        count_true(mask, n - 1) + if mask[n - 1] {
            1int
        } else {
            0int
        }
    }
}

/// An all-false prefix counts zero.
proof fn lemma_count_true_zero(mask: Seq<bool>, n: int)
    requires
        0 <= n <= mask.len(),
        forall|k: int| 0 <= k < n ==> !#[trigger] mask[k],
    ensures
        count_true(mask, n) == 0,
    decreases n,
{
    if n > 0 {
        lemma_count_true_zero(mask, n - 1);
    }
}

/// Setting one unset entry raises the count by one.
proof fn lemma_count_true_update(mask: Seq<bool>, n: int, j: int)
    requires
        0 <= j < n <= mask.len(),
        !mask[j],
    ensures
        count_true(mask.update(j, true), n) == count_true(mask, n) + 1,
    decreases n,
{
    if n > 0 {
        if j == n - 1 {
            lemma_count_true_same(mask, mask.update(j, true), n - 1);
        } else {
            lemma_count_true_update(mask, n - 1, j);
        }
    }
}

/// Counting only reads the first `n` entries.
proof fn lemma_count_true_same(a: Seq<bool>, b: Seq<bool>, n: int)
    requires
        n <= a.len(),
        n <= b.len(),
        forall|k: int| 0 <= k < n ==> a[k] == b[k],
    ensures
        count_true(a, n) == count_true(b, n),
    decreases n,
{
    if n > 0 {
        lemma_count_true_same(a, b, n - 1);
    }
}

/// A pointwise larger mask has at least the count.
proof fn lemma_count_true_mono(a: Seq<bool>, b: Seq<bool>, n: int)
    requires
        0 <= n <= a.len(),
        n <= b.len(),
        forall|k: int| 0 <= k < n && a[k] ==> #[trigger] b[k],
    ensures
        count_true(a, n) <= count_true(b, n),
        count_true(a, n) <= n,
        count_true(b, n) <= n,
        count_true(a, n) >= 0,
        count_true(b, n) >= 0,
    decreases n,
{
    if n > 0 {
        lemma_count_true_mono(a, b, n - 1);
    }
}

/// Whether an endpoint references a masked element.
fn endpoint_doomed(mask: &Vec<bool>, e: Endpoint) -> (r: bool)
    ensures
        r == match e {
            Endpoint::Unattached => false,
            Endpoint::OnInterface(t) => t < mask@.len() && mask@[t as int],
            Endpoint::OnExternal(t) => t < mask@.len() && mask@[t as int],
        },
{
    match e {
        Endpoint::Unattached => false,
        Endpoint::OnInterface(t) => t < mask.len() && mask[t],
        Endpoint::OnExternal(t) => t < mask.len() && mask[t],
    }
}

/// Detach an endpoint that references a masked element.
fn clear_doomed_endpoint(mask: &Vec<bool>, e: Endpoint) -> (r: Endpoint)
    ensures
        r == match e {
            Endpoint::Unattached => Endpoint::Unattached,
            Endpoint::OnInterface(t) => if t < mask@.len() && mask@[t as int] {
                Endpoint::Unattached
            } else {
                e
            },
            Endpoint::OnExternal(t) => if t < mask@.len() && mask@[t as int] {
                Endpoint::Unattached
            } else {
                e
            },
        },
{
    if endpoint_doomed(mask, e) {
        Endpoint::Unattached
    } else {
        e
    }
}

} // verus!
