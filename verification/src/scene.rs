//! The entity store: a typed attribute store over stable element ids, with
//! spatial parent relations, change tracking, and the scene-wide
//! well-formedness invariant that every editing operation preserves.

use vstd::prelude::*;
use crate::elements::{
    Complexity, Element, EntityId, Endpoint, ExternalData, FlowData, HelperData,
    InterfaceAggregate, InterfaceData, LabelData, Placement, SubstanceType, SystemData, PI_MICRO,
};
use crate::geom::{Point, Transform};
use crate::layout::{ZOOM_MAX, ZOOM_MIN};

verus! {

/// Errors of the editing operations.
#[derive(Clone, Copy, Debug, PartialEq, Eq, Structural)]
pub enum SceneError {
    /// A referenced id has no live element.
    UnknownEntity,
    /// The operation would leave the scene inconsistent; it was refused and
    /// the store is unchanged.
    InvariantViolation,
}

/// A subsystem's disk radius is this fraction of its parent's: a quarter.
pub const SUBSYSTEM_RADIUS_DIVISOR: u64 = 4;

/// One slot of the store: the shared attributes of an element plus its
/// kind-specific attributes.
#[derive(Clone, Debug)]
pub struct Entry {
    pub name: String,
    pub description: String,
    /// The spatial parent: transforms are expressed in its frame, and
    /// deleting it deletes this element.
    pub parent: Option<EntityId>,
    pub transform: Transform,
    /// The world position before zoom is applied; the engine keeps
    /// `transform.translation` equal to this position scaled by the zoom.
    pub initial_position: Option<Point>,
    pub selected: bool,
    /// The store generation at which this element was added.
    pub since: u64,
    pub kind: Element,
}

/// The scene: the store of all elements plus the global view state.
pub struct Scene {
    /// Slot `i` holds the element with id `i`; deleted slots stay `None`
    /// so ids are never reused.
    pub slots: Vec<Option<Entry>>,
    /// The System of Interest; created with the scene, never deleted.
    pub root: EntityId,
    /// Global zoom in hundredths, clamped to `[ZOOM_MIN, ZOOM_MAX]`.
    pub zoom: u32,
    /// Bumped once per engine pass; newly added elements record it.
    pub generation: u64,
}

impl Scene {
    /// Slot `i` holds a live element.
    pub open spec fn live(self, i: int) -> bool {
        0 <= i < self.slots@.len() && self.slots@[i] is Some
    }

    pub open spec fn entry_at(self, i: int) -> Entry {
        self.slots@[i]->Some_0
    }

    pub open spec fn is_system(self, i: int) -> bool {
        self.live(i) && self.entry_at(i).kind is Sys
    }

    pub open spec fn sys_at(self, i: int) -> SystemData {
        self.entry_at(i).kind->Sys_0
    }

    pub open spec fn is_interface(self, i: int) -> bool {
        self.live(i) && self.entry_at(i).kind is Iface
    }

    pub open spec fn iface_at(self, i: int) -> InterfaceData {
        self.entry_at(i).kind->Iface_0
    }

    pub open spec fn is_flow(self, i: int) -> bool {
        self.live(i) && self.entry_at(i).kind is Flow
    }

    pub open spec fn flow_at(self, i: int) -> FlowData {
        self.entry_at(i).kind->Flow_0
    }

    pub open spec fn is_external(self, i: int) -> bool {
        self.live(i) && self.entry_at(i).kind is Ext
    }

    pub open spec fn ext_at(self, i: int) -> ExternalData {
        self.entry_at(i).kind->Ext_0
    }

    /// A subsystem: a live system contained in another system.
    pub open spec fn is_subsystem(self, i: int) -> bool {
        self.is_system(i) && self.sys_at(i).parent_system is Some
    }

    /// An interface subsystem: a subsystem carrying the aggregate of one
    /// interface.
    pub open spec fn is_interface_subsystem(self, i: int) -> bool {
        self.is_system(i) && self.sys_at(i).aggregate is Some
    }

    /// A flow endpoint is valid when it is unattached or references a live
    /// element of the right kind.
    pub open spec fn endpoint_ok(self, e: Endpoint) -> bool {
        match e {
            Endpoint::Unattached => true,
            Endpoint::OnInterface(j) => self.is_interface(j as int),
            Endpoint::OnExternal(j) => self.is_external(j as int),
        }
    }

    /// The per-element invariant. Trivially true of empty slots.
    pub open spec fn wf_at(self, i: int) -> bool {
        self.live(i) ==> {
            let e = self.entry_at(i);
            match e.kind {
                Element::Sys(d) => {
                    &&& match d.parent_system {
                        Option::None => {
                            // The root: unique, at nesting level 0, plain.
                            &&& i == self.root
                            &&& d.nesting_level == 0
                            &&& d.aggregate is None
                            &&& !d.is_child_of_interface
                            &&& e.parent is None
                        },
                        Option::Some(p) => {
                            // A subsystem: one level below its parent, a
                            // quarter of its radius.
                            &&& self.is_system(p as int)
                            &&& d.nesting_level == self.sys_at(p as int).nesting_level + 1
                            &&& d.radius == self.sys_at(p as int).radius / SUBSYSTEM_RADIUS_DIVISOR
                            &&& if d.is_child_of_interface {
                                &&& d.aggregate is Some
                                &&& e.parent == Option::Some(d.aggregate->0.interface)
                                &&& e.transform.z < self.entry_at(
                                    d.aggregate->0.interface as int,
                                ).transform.z
                            } else {
                                e.parent == Option::Some(p)
                            }
                        },
                    }
                    &&& match d.aggregate {
                        Option::None => true,
                        Option::Some(a) => {
                            // The interface it stands for points back here.
                            &&& d.parent_system is Some
                            &&& self.is_interface(a.interface as int)
                            &&& self.iface_at(a.interface as int).subsystem == Option::Some(
                                i as EntityId,
                            )
                        },
                    }
                },
                Element::Iface(d) => {
                    &&& self.is_system(d.parent_system as int)
                    &&& e.parent == Option::Some(d.parent_system)
                    &&& d.placement.valid()
                    &&& match d.subsystem {
                        Option::None => true,
                        Option::Some(s) => {
                            &&& self.is_system(s as int)
                            &&& self.sys_at(s as int).aggregate is Some
                            &&& self.sys_at(s as int).aggregate->0.interface == i as EntityId
                        },
                    }
                },
                Element::Flow(d) => {
                    &&& self.endpoint_ok(d.source)
                    &&& self.endpoint_ok(d.sink)
                    &&& !d.incomplete ==> d.source.is_attached() && d.sink.is_attached()
                    &&& e.parent is None
                },
                Element::Ext(_) => {
                    match e.parent {
                        Option::None => true,
                        Option::Some(p) => self.is_system(p as int),
                    }
                },
                Element::Label(d) => {
                    &&& self.is_system(d.target as int)
                    &&& e.parent == Option::Some(d.target)
                },
                Element::Helper(d) => {
                    &&& self.live(d.target as int)
                    &&& (self.entry_at(d.target as int).kind is Iface || self.entry_at(
                        d.target as int,
                    ).kind is Flow || self.entry_at(d.target as int).kind is Ext)
                    &&& e.parent == Option::Some(d.target)
                },
            }
        }
    }

    /// The scene-wide invariant: a live root System of Interest at nesting
    /// level 0, a zoom within its clamp range, and every slot well formed.
    pub open spec fn wf(self) -> bool {
        &&& self.is_system(self.root as int)
        &&& self.sys_at(self.root as int).parent_system is None
        &&& ZOOM_MIN <= self.zoom <= ZOOM_MAX
        &&& forall|i: int| 0 <= i < self.slots@.len() ==> #[trigger] self.wf_at(i)
    }

    /// Sum of `amount` over the flows among the first `n` slots whose sink
    /// endpoint is the given interface: the inflow crossing it.
    pub open spec fn inflow_sum(self, iface: EntityId, n: int) -> int
        decreases n,
    {
        if n <= 0 {
            0
        } else {
            self.inflow_sum(iface, n - 1) + if self.is_flow(n - 1) && self.flow_at(n - 1).sink
                == Endpoint::OnInterface(iface) {
                self.flow_at(n - 1).amount as int
            } else {
                0
            }
        }
    }

    /// Sum of `amount` over the flows among the first `n` slots whose
    /// source endpoint is the given interface: the outflow crossing it.
    pub open spec fn outflow_sum(self, iface: EntityId, n: int) -> int
        decreases n,
    {
        if n <= 0 {
            0
        } else {
            self.outflow_sum(iface, n - 1) + if self.is_flow(n - 1) && self.flow_at(n - 1).source
                == Endpoint::OnInterface(iface) {
                self.flow_at(n - 1).amount as int
            } else {
                0
            }
        }
    }

    /// Whether a flow among the first `n` slots crosses the interface in
    /// the given direction.
    pub open spec fn has_inflow(self, iface: EntityId, n: int) -> bool {
        exists|m: int|
            0 <= m < n && self.is_flow(m) && #[trigger] self.flow_at(m).sink
                == Endpoint::OnInterface(iface)
    }

    pub open spec fn has_outflow(self, iface: EntityId, n: int) -> bool {
        exists|m: int|
            0 <= m < n && self.is_flow(m) && #[trigger] self.flow_at(m).source
                == Endpoint::OnInterface(iface)
    }

    /// Whether the flow in slot `m` touches the interface at either end.
    pub open spec fn crosses(self, iface: EntityId, m: int) -> bool {
        self.is_flow(m) && (self.flow_at(m).sink == Endpoint::OnInterface(iface) || self.flow_at(
            m,
        ).source == Endpoint::OnInterface(iface))
    }

    /// The substance type carried through the interface: that of the last
    /// crossing flow in slot order, or matter when none crosses.
    pub open spec fn crossing_substance(self, iface: EntityId, n: int) -> SubstanceType
        decreases n,
    {
        if n <= 0 {
            SubstanceType::Matter
        } else if self.crosses(iface, n - 1) {
            self.flow_at(n - 1).substance_type
        } else {
            self.crossing_substance(iface, n - 1)
        }
    }

    /// The usefulness carried through the interface: that of the last
    /// crossing flow in slot order, or false when none crosses.
    pub open spec fn crossing_useful(self, iface: EntityId, n: int) -> bool
        decreases n,
    {
        if n <= 0 {
            false
        } else if self.crosses(iface, n - 1) {
            self.flow_at(n - 1).is_useful
        } else {
            self.crossing_useful(iface, n - 1)
        }
    }

    /// The aggregate an interface subsystem of the given interface must
    /// carry in this scene, except for its import and export marks, which
    /// are fixed when it is spawned.
    pub open spec fn aggregate_totals_ok(self, iface: EntityId, a: InterfaceAggregate) -> bool {
        let n = self.slots@.len() as int;
        &&& a.interface == iface
        &&& a.total_inflow == self.inflow_sum(iface, n)
        &&& a.total_outflow == self.outflow_sum(iface, n)
        &&& a.substance_type == self.crossing_substance(iface, n)
        &&& a.is_useful == self.crossing_useful(iface, n)
    }

    /// The inflow sum over `n` slots is bounded by `n` maximal amounts, so
    /// it always fits the wide total.
    pub proof fn lemma_inflow_sum_bound(self, iface: EntityId, n: int)
        requires
            n >= 0,
        ensures
            0 <= self.inflow_sum(iface, n) <= n * 0xffff_ffff_ffff_ffff,
        decreases n,
    {
        if n > 0 {
            self.lemma_inflow_sum_bound(iface, n - 1);
        }
    }

    pub proof fn lemma_outflow_sum_bound(self, iface: EntityId, n: int)
        requires
            n >= 0,
        ensures
            0 <= self.outflow_sum(iface, n) <= n * 0xffff_ffff_ffff_ffff,
        decreases n,
    {
        if n > 0 {
            self.lemma_outflow_sum_bound(iface, n - 1);
        }
    }

    /// Create a scene holding only the System of Interest.
    pub fn new(radius: u64, name: String, description: String) -> (s: Scene)
        ensures
            s.wf(),
            s.root == 0,
            s.slots@.len() == 1,
            s.is_system(0),
            s.sys_at(0).radius == radius,
            s.sys_at(0).nesting_level == 0,
            s.sys_at(0).parent_system is None,
            s.entry_at(0).name == name,
            s.entry_at(0).description == description,
            s.zoom == 100,
            s.labels_unique(),
            s.helpers_unique(),
    {
        let root_data = SystemData {
            radius,
            porosity: 0,
            perceptive_fuzziness: 0,
            boundary_name: String::new(),
            boundary_description: String::new(),
            complexity: Complexity::Complex { adaptable: false, evolveable: false },
            nesting_level: 0,
            parent_system: Option::None,
            aggregate: Option::None,
            is_child_of_interface: false,
        };
        let entry = Entry {
            name,
            description,
            parent: Option::None,
            transform: Transform::at_origin(),
            initial_position: Option::None,
            selected: false,
            since: 0,
            kind: Element::Sys(root_data),
        };
        let mut slots: Vec<Option<Entry>> = Vec::new();
        slots.push(Option::Some(entry));
        Scene { slots, root: 0, zoom: 100, generation: 0 }
    }

    /// Append a new element and return its id. The caller restores the
    /// scene invariant; this only grows the store.
    pub(crate) fn push_entry(&mut self, entry: Entry) -> (id: EntityId)
        requires
            old(self).slots@.len() < usize::MAX,
        ensures
            id == old(self).slots@.len(),
            final(self).slots@ == old(self).slots@.push(Option::Some(entry)),
            final(self).root == old(self).root,
            final(self).zoom == old(self).zoom,
            final(self).generation == old(self).generation,
    {
        let id = self.slots.len();
        self.slots.push(Option::Some(entry));
        id
    }

    /// Whether `id` refers to a live element.
    pub fn contains(&self, id: EntityId) -> (r: bool)
        ensures
            r == self.live(id as int),
    {
        id < self.slots.len() && self.slots[id].is_some()
    }

    /// Borrow the element with the given id; fails with `UnknownEntity`
    /// when the id references a removed or absent element.
    pub fn entry(&self, id: EntityId) -> (r: Result<&Entry, SceneError>)
        ensures
            match r {
                Result::Ok(e) => self.live(id as int) && *e == self.entry_at(id as int),
                Result::Err(err) => err == SceneError::UnknownEntity && !self.live(id as int),
            },
    {
        if id < self.slots.len() {
            match &self.slots[id] {
                Option::Some(e) => Result::Ok(e),
                Option::None => Result::Err(SceneError::UnknownEntity),
            }
        } else {
            Result::Err(SceneError::UnknownEntity)
        }
    }

    /// Every id in `r` is live and at least as new as `generation`, and
    /// every such id of the first `n` slots is in `r`.
    pub open spec fn added_set_ok(self, generation: u64, r: Seq<EntityId>, n: int) -> bool {
        &&& forall|k: int|
            0 <= k < r.len() ==> #[trigger] self.live(r[k] as int) && self.entry_at(
                r[k] as int,
            ).since >= generation
        &&& forall|j: int|
            0 <= j < n && self.live(j) && self.entry_at(j).since >= generation ==> r.contains(
                j as EntityId,
            )
    }

    /// The ids of the elements added at or after the given generation:
    /// the change-tracking query the invariants engine iterates. The
    /// contract fixes the set both ways and leaves the order open.
    pub fn added_since(&self, generation: u64) -> (r: Vec<EntityId>)
        ensures
            self.added_set_ok(generation, r@, self.slots@.len() as int),
    {
        let mut r: Vec<EntityId> = Vec::new();
        let n = self.slots.len();
        let mut i: usize = 0;
        while i < n
            invariant
                n == self.slots@.len(),
                i <= n,
                self.added_set_ok(generation, r@, i as int),
            decreases n - i,
        {
            let do_push = match &self.slots[i] {
                Option::Some(e) => e.since >= generation,
                Option::None => false,
            };
            if do_push {
                let ghost old_r = r@;
                r.push(i);
                proof {
                    assert(self.slots@[i as int] is Some);
                    assert(r@[old_r.len() as int] == i);
                    assert forall|k: int|
                        0 <= k < r@.len() implies #[trigger] self.live(r@[k] as int)
                        && self.entry_at(r@[k] as int).since >= generation by {
                        if k < old_r.len() {
                            assert(r@[k] == old_r[k]);
                        } else {
                            assert(r@[k] == i);
                        }
                    }
                    assert forall|j: int|
                        0 <= j < i + 1 && self.live(j) && self.entry_at(j).since >= generation
                        implies r@.contains(j as EntityId) by {
                        if j < i {
                            let k = choose|k: int|
                                0 <= k < old_r.len() && old_r[k] == j as EntityId;
                            assert(r@[k] == j as EntityId);
                        } else {
                            assert(r@[old_r.len() as int] == j as EntityId);
                        }
                    }
                }
            } else {
                proof {
                    assert(!self.live(i as int) || self.entry_at(i as int).since < generation);
                }
            }
            i = i + 1;
        }
        r
    }

    /// Set or clear the selection tag on an element: the atomic capability
    /// tagging of the store.
    pub fn set_selected(&mut self, id: EntityId, selected: bool) -> (r: Result<(), SceneError>)
        requires
            old(self).wf(),
        ensures
            final(self).wf(),
            match r {
                Result::Ok(()) => {
                    &&& old(self).live(id as int)
                    &&& final(self).slots@ == old(self).slots@.update(
                        id as int,
                        Option::Some(Entry { selected, ..old(self).entry_at(id as int) }),
                    )
                },
                Result::Err(err) => {
                    &&& err == SceneError::UnknownEntity
                    &&& !old(self).live(id as int)
                    &&& *final(self) == *old(self)
                },
            },
            final(self).root == old(self).root,
            final(self).zoom == old(self).zoom,
            final(self).generation == old(self).generation,
    {
        if id < self.slots.len() && self.slots[id].is_some() {
            let e = self.slots[id].as_ref().unwrap().clone_entry();
            let e2 = Entry { selected, ..e };
            self.slots[id] = Option::Some(e2);
            proof {
                assert forall|i: int| 0 <= i < self.slots@.len() implies #[trigger] self.wf_at(
                    i,
                ) by {
                    assert(old(self).wf_at(i));
                    assert(old(self).wf_at(id as int));
                }
            }
            Result::Ok(())
        } else {
            Result::Err(SceneError::UnknownEntity)
        }
    }
}

/// Clone one entry field for field so that the result provably equals the
/// original.
impl Entry {
    pub fn clone_entry(&self) -> (r: Entry)
        ensures
            r == *self,
    {
        Entry {
            name: clone_string(&self.name),
            description: clone_string(&self.description),
            parent: self.parent,
            transform: self.transform,
            initial_position: self.initial_position,
            selected: self.selected,
            since: self.since,
            kind: self.kind.clone_element(),
        }
    }
}

impl Element {
    pub fn clone_element(&self) -> (r: Element)
        ensures
            r == *self,
    {
        match self {
            Element::Sys(d) => Element::Sys(
                SystemData {
                    radius: d.radius,
                    porosity: d.porosity,
                    perceptive_fuzziness: d.perceptive_fuzziness,
                    boundary_name: clone_string(&d.boundary_name),
                    boundary_description: clone_string(&d.boundary_description),
                    complexity: d.complexity,
                    nesting_level: d.nesting_level,
                    parent_system: d.parent_system,
                    aggregate: d.aggregate,
                    is_child_of_interface: d.is_child_of_interface,
                },
            ),
            Element::Iface(d) => Element::Iface(
                InterfaceData {
                    parent_system: d.parent_system,
                    placement: d.placement,
                    protocol: clone_string(&d.protocol),
                    kind: d.kind,
                    subsystem: d.subsystem,
                },
            ),
            Element::Flow(d) => Element::Flow(
                FlowData {
                    substance_type: d.substance_type,
                    usability: d.usability,
                    amount: d.amount,
                    is_useful: d.is_useful,
                    source: d.source,
                    sink: d.sink,
                    incomplete: d.incomplete,
                    curve: d.curve,
                },
            ),
            Element::Ext(d) => Element::Ext(ExternalData { kind: d.kind }),
            Element::Label(d) => Element::Label(LabelData { target: d.target }),
            Element::Helper(d) => Element::Helper(HelperData { target: d.target }),
        }
    }
}

/// A `String` clone whose result is known to equal the original.
pub fn clone_string(s: &String) -> (r: String)
    ensures
        r == *s,
{
    s.clone()
}

} // verus!
