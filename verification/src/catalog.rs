//! The constructors and destructors of the element catalog. Each editing
//! operation validates its inputs, then either applies fully — restoring
//! every scene invariant — or refuses and leaves the store unchanged.

use vstd::prelude::*;
use crate::elements::{
    Complexity, Element, EntityId, Endpoint, ExternalData, ExternalKind, FlowData, FlowEnd,
    InterfaceAggregate, InterfaceData, InterfaceKind, Placement, SubstanceType, SystemData,
    Usability, PI_MICRO,
};
use crate::geom::{is_isqrt, tdiv, zoomed, FlowCurve, Point, Transform, COORD_LIMIT};
use crate::layout::{INTERFACE_Z, SUBSYSTEM_Z};
use crate::scene::{Entry, Scene, SceneError, SUBSYSTEM_RADIUS_DIVISOR};

verus! {

impl Scene {
    /// Every live element of the old store is carried over unchanged.
    pub open spec fn preserves_entries(self, older: Scene) -> bool {
        &&& self.slots@.len() >= older.slots@.len()
        &&& forall|j: int|
            0 <= j < older.slots@.len() ==> self.slots@[j] == #[trigger] older.slots@[j]
    }

    /// The store fields that no catalog operation moves.
    pub open spec fn same_frame(self, older: Scene) -> bool {
        &&& self.root == older.root
        &&& self.zoom == older.zoom
        &&& self.generation == older.generation
    }

    /// Create a flow: a directed substance transfer whose endpoints may
    /// still be unattached. A flow with a missing endpoint starts out in
    /// the incomplete state.
    pub fn spawn_flow(
        &mut self,
        substance_type: SubstanceType,
        usability: Usability,
        amount: u64,
        is_useful: bool,
        source: Endpoint,
        sink: Endpoint,
        curve: FlowCurve,
        name: String,
        description: String,
    ) -> (r: Result<EntityId, SceneError>)
        requires
            old(self).wf(),
            old(self).slots@.len() < usize::MAX,
        ensures
            final(self).wf(),
            final(self).same_frame(*old(self)),
            r is Ok <==> old(self).endpoint_ok(source) && old(self).endpoint_ok(sink),
            r is Err ==> *final(self) == *old(self),
            r matches Result::Ok(id) ==> {
                &&& id == old(self).slots@.len()
                &&& final(self).preserves_entries(*old(self))
                &&& final(self).slots@.len() == old(self).slots@.len() + 1
                &&& final(self).is_flow(id as int)
                &&& final(self).flow_at(id as int) == (FlowData {
                    substance_type,
                    usability,
                    amount,
                    is_useful,
                    source,
                    sink,
                    incomplete: !(source.is_attached() && sink.is_attached()),
                    curve,
                })
                &&& final(self).entry_at(id as int).name == name
                &&& final(self).entry_at(id as int).description == description
                &&& !final(self).entry_at(id as int).selected
            },
    {
        match self.check_endpoint(source) {
            Result::Ok(()) => {},
            Result::Err(e) => {
                return Result::Err(e);
            },
        }
        match self.check_endpoint(sink) {
            Result::Ok(()) => {},
            Result::Err(e) => {
                return Result::Err(e);
            },
        }
        let incomplete = !(endpoint_attached(source) && endpoint_attached(sink));
        let entry = Entry {
            name,
            description,
            parent: Option::None,
            transform: crate::geom::Transform::at_origin(),
            initial_position: Option::None,
            selected: false,
            since: self.generation,
            kind: Element::Flow(
                FlowData {
                    substance_type,
                    usability,
                    amount,
                    is_useful,
                    source,
                    sink,
                    incomplete,
                    curve,
                },
            ),
        };
        let id = self.push_entry(entry);
        proof {
            assert forall|j: int| 0 <= j < self.slots@.len() implies #[trigger] self.wf_at(j) by {
                if j < old(self).slots@.len() {
                    assert(old(self).wf_at(j));
                }
            }
        }
        Result::Ok(id)
    }

    /// Create an interface on the boundary of `focused_system`, and attach
    /// one end of `flow` to it: the sink end of an import interface, the
    /// source end of an export interface. Load passes no flow and may
    /// create hybrid interfaces; the editor always passes the flow that
    /// the new interface is for, and a hybrid interface is refused there
    /// because neither end would be determined.
    pub fn spawn_interface(
        &mut self,
        interface_type: InterfaceKind,
        flow: Option<EntityId>,
        focused_system: EntityId,
        placement: Placement,
        transform: Transform,
        initial_position: Point,
        selected: bool,
        protocol: String,
        name: String,
        description: String,
    ) -> (r: Result<EntityId, SceneError>)
        requires
            old(self).wf(),
            old(self).slots@.len() < usize::MAX,
        ensures
            final(self).wf(),
            final(self).same_frame(*old(self)),
            r is Ok <==> {
                &&& old(self).is_system(focused_system as int)
                &&& placement.valid()
                &&& match flow {
                    Option::Some(f) => old(self).is_flow(f as int) && !(interface_type is Hybrid),
                    Option::None => true,
                }
            },
            r is Err ==> *final(self) == *old(self),
            r matches Result::Ok(id) ==> {
                &&& id == old(self).slots@.len()
                &&& final(self).slots@.len() == old(self).slots@.len() + 1
                &&& final(self).is_interface(id as int)
                &&& final(self).iface_at(id as int) == (InterfaceData {
                    parent_system: focused_system,
                    placement,
                    protocol,
                    kind: interface_type,
                    subsystem: Option::None,
                })
                &&& final(self).entry_at(id as int).name == name
                &&& final(self).entry_at(id as int).description == description
                &&& final(self).entry_at(id as int).parent == Option::Some(focused_system)
                &&& final(self).entry_at(id as int).transform == transform
                &&& final(self).entry_at(id as int).initial_position == Option::Some(
                    initial_position,
                )
                &&& final(self).entry_at(id as int).selected == selected
                &&& match flow {
                    Option::Some(f) => {
                        &&& final(self).is_flow(f as int)
                        &&& final(self).flow_at(f as int) == (FlowData {
                            source: if interface_type is Export {
                                Endpoint::OnInterface(id)
                            } else {
                                old(self).flow_at(f as int).source
                            },
                            sink: if interface_type is Import {
                                Endpoint::OnInterface(id)
                            } else {
                                old(self).flow_at(f as int).sink
                            },
                            ..old(self).flow_at(f as int)
                        })
                        &&& forall|j: int|
                            0 <= j < old(self).slots@.len() && j != f ==> final(self).slots@[j]
                                == #[trigger] old(self).slots@[j]
                        &&& final(self).entry_at(f as int) == (Entry {
                            kind: final(self).entry_at(f as int).kind,
                            ..old(self).entry_at(f as int)
                        })
                    },
                    Option::None => final(self).preserves_entries(*old(self)),
                }
            },
    {
        if !(focused_system < self.slots.len() && self.slots[focused_system].is_some()) {
            return Result::Err(SceneError::UnknownEntity);
        }
        if !matches!(&self.slots[focused_system].as_ref().unwrap().kind, Element::Sys(_)) {
            return Result::Err(SceneError::InvariantViolation);
        }
        if !placement_valid(placement) {
            return Result::Err(SceneError::InvariantViolation);
        }
        match flow {
            Option::Some(f) => {
                if !(f < self.slots.len() && self.slots[f].is_some()) {
                    return Result::Err(SceneError::UnknownEntity);
                }
                if !matches!(&self.slots[f].as_ref().unwrap().kind, Element::Flow(_)) {
                    return Result::Err(SceneError::InvariantViolation);
                }
                if matches!(interface_type, InterfaceKind::Hybrid) {
                    return Result::Err(SceneError::InvariantViolation);
                }
            },
            Option::None => {},
        }
        let entry = Entry {
            name,
            description,
            parent: Option::Some(focused_system),
            transform,
            initial_position: Option::Some(initial_position),
            selected,
            since: self.generation,
            kind: Element::Iface(
                InterfaceData {
                    parent_system: focused_system,
                    placement,
                    protocol,
                    kind: interface_type,
                    subsystem: Option::None,
                },
            ),
        };
        let id = self.push_entry(entry);
        match flow {
            Option::Some(f) => {
                let fe = self.slots[f].as_ref().unwrap().clone_entry();
                match fe.kind {
                    Element::Flow(d) => {
                        let source = if matches!(interface_type, InterfaceKind::Export) {
                            Endpoint::OnInterface(id)
                        } else {
                            d.source
                        };
                        let sink = if matches!(interface_type, InterfaceKind::Import) {
                            Endpoint::OnInterface(id)
                        } else {
                            d.sink
                        };
                        let new_fe = Entry {
                            kind: Element::Flow(FlowData { source, sink, ..d }),
                            ..fe
                        };
                        self.slots[f] = Option::Some(new_fe);
                    },
                    _ => {},
                }
            },
            Option::None => {},
        }
        proof {
            assert forall|j: int| 0 <= j < self.slots@.len() implies #[trigger] self.wf_at(j) by {
                if j < old(self).slots@.len() {
                    assert(old(self).wf_at(j));
                }
            }
        }
        Result::Ok(id)
    }

    /// Create an external entity in the environment, and attach one end of
    /// `flow` directly to it: the source end when it feeds an import (a
    /// source), the sink end when it consumes an export (a sink). Its
    /// spatial parent is derived from the focused system: the parent of a
    /// focused subsystem, none when the root itself is focused.
    pub fn spawn_external_entity(
        &mut self,
        interface_type: InterfaceKind,
        flow: Option<EntityId>,
        focused_system: EntityId,
        transform: Transform,
        initial_position: Point,
        selected: bool,
        name: String,
        description: String,
    ) -> (r: Result<EntityId, SceneError>)
        requires
            old(self).wf(),
            old(self).slots@.len() < usize::MAX,
        ensures
            final(self).wf(),
            final(self).same_frame(*old(self)),
            r is Ok <==> {
                &&& !(interface_type is Hybrid)
                &&& old(self).is_system(focused_system as int)
                &&& match flow {
                    Option::Some(f) => old(self).is_flow(f as int),
                    Option::None => true,
                }
            },
            r is Err ==> *final(self) == *old(self),
            r matches Result::Ok(id) ==> {
                &&& id == old(self).slots@.len()
                &&& final(self).slots@.len() == old(self).slots@.len() + 1
                &&& final(self).is_external(id as int)
                &&& final(self).ext_at(id as int).kind == (if interface_type is Import {
                    ExternalKind::Source
                } else {
                    ExternalKind::Sink
                })
                &&& final(self).entry_at(id as int).name == name
                &&& final(self).entry_at(id as int).description == description
                &&& final(self).entry_at(id as int).parent == old(self).sys_at(
                    focused_system as int,
                ).parent_system
                &&& final(self).entry_at(id as int).transform == transform
                &&& final(self).entry_at(id as int).initial_position == Option::Some(
                    initial_position,
                )
                &&& final(self).entry_at(id as int).selected == selected
                &&& match flow {
                    Option::Some(f) => {
                        &&& final(self).is_flow(f as int)
                        &&& final(self).flow_at(f as int) == (FlowData {
                            source: if interface_type is Import {
                                Endpoint::OnExternal(id)
                            } else {
                                old(self).flow_at(f as int).source
                            },
                            sink: if interface_type is Export {
                                Endpoint::OnExternal(id)
                            } else {
                                old(self).flow_at(f as int).sink
                            },
                            ..old(self).flow_at(f as int)
                        })
                        &&& forall|j: int|
                            0 <= j < old(self).slots@.len() && j != f ==> final(self).slots@[j]
                                == #[trigger] old(self).slots@[j]
                        &&& final(self).entry_at(f as int) == (Entry {
                            kind: final(self).entry_at(f as int).kind,
                            ..old(self).entry_at(f as int)
                        })
                    },
                    Option::None => final(self).preserves_entries(*old(self)),
                }
            },
    {
        if matches!(interface_type, InterfaceKind::Hybrid) {
            return Result::Err(SceneError::InvariantViolation);
        }
        if !(focused_system < self.slots.len() && self.slots[focused_system].is_some()) {
            return Result::Err(SceneError::UnknownEntity);
        }
        let parent = match &self.slots[focused_system].as_ref().unwrap().kind {
            Element::Sys(d) => d.parent_system,
            _ => {
                return Result::Err(SceneError::InvariantViolation);
            },
        };
        proof {
            assert(self.wf_at(focused_system as int));
        }
        match flow {
            Option::Some(f) => {
                if !(f < self.slots.len() && self.slots[f].is_some()) {
                    return Result::Err(SceneError::UnknownEntity);
                }
                if !matches!(&self.slots[f].as_ref().unwrap().kind, Element::Flow(_)) {
                    return Result::Err(SceneError::InvariantViolation);
                }
            },
            Option::None => {},
        }
        let kind = if matches!(interface_type, InterfaceKind::Import) {
            ExternalKind::Source
        } else {
            ExternalKind::Sink
        };
        let entry = Entry {
            name,
            description,
            parent,
            transform,
            initial_position: Option::Some(initial_position),
            selected,
            since: self.generation,
            kind: Element::Ext(ExternalData { kind }),
        };
        let id = self.push_entry(entry);
        match flow {
            Option::Some(f) => {
                let fe = self.slots[f].as_ref().unwrap().clone_entry();
                match fe.kind {
                    Element::Flow(d) => {
                        let source = if matches!(interface_type, InterfaceKind::Import) {
                            Endpoint::OnExternal(id)
                        } else {
                            d.source
                        };
                        let sink = if matches!(interface_type, InterfaceKind::Export) {
                            Endpoint::OnExternal(id)
                        } else {
                            d.sink
                        };
                        let new_fe = Entry {
                            kind: Element::Flow(FlowData { source, sink, ..d }),
                            ..fe
                        };
                        self.slots[f] = Option::Some(new_fe);
                    },
                    _ => {},
                }
            },
            Option::None => {},
        }
        proof {
            assert forall|j: int| 0 <= j < self.slots@.len() implies #[trigger] self.wf_at(j) by {
                if j < old(self).slots@.len() {
                    assert(old(self).wf_at(j));
                }
            }
        }
        Result::Ok(id)
    }

    /// The conditions under which an interface subsystem can be spawned:
    /// a live interface that has none yet, a live focused system with room
    /// for one more nesting level and a bounded radius, and — when the
    /// subsystem is drawn inside the interface — a depth strictly below it.
    pub open spec fn interface_subsystem_spawn_ok(
        self,
        interface_entity: EntityId,
        focused_system: EntityId,
        is_child_of_interface: bool,
    ) -> bool {
        &&& self.is_interface(interface_entity as int)
        &&& self.iface_at(interface_entity as int).subsystem is None
        &&& self.is_system(focused_system as int)
        &&& self.sys_at(focused_system as int).nesting_level < u32::MAX
        &&& self.sys_at(focused_system as int).radius <= COORD_LIMIT as u64
        &&& (is_child_of_interface ==> SUBSYSTEM_Z - INTERFACE_Z < self.entry_at(
            interface_entity as int,
        ).transform.z)
    }

    /// Create the subsystem that represents the inside of one interface.
    /// It aggregates the traffic of every flow crossing the interface:
    /// summed inflow and outflow amounts, the substance type and
    /// usefulness carried through, and whether it imports or exports. It
    /// sits one nesting level below the focused system at a quarter of
    /// its radius, placed by the left-anchored default — one subsystem
    /// radius to the left of the disk center, scaled by the zoom — and
    /// the interface is patched to point at it.
    pub fn spawn_interface_subsystem(
        &mut self,
        is_child_of_interface: bool,
        interface_entity: EntityId,
        focused_system: EntityId,
        name: String,
        description: String,
    ) -> (r: Result<EntityId, SceneError>)
        requires
            old(self).wf(),
            old(self).slots@.len() < usize::MAX,
        ensures
            final(self).wf(),
            final(self).same_frame(*old(self)),
            r is Ok <==> old(self).interface_subsystem_spawn_ok(
                interface_entity,
                focused_system,
                is_child_of_interface,
            ),
            r is Err ==> *final(self) == *old(self),
            r matches Result::Ok(id) ==> {
                let n = old(self).slots@.len() as int;
                &&& id == old(self).slots@.len()
                &&& final(self).slots@.len() == n + 1
                &&& final(self).is_interface_subsystem(id as int)
                &&& final(self).sys_at(id as int).parent_system == Option::Some(focused_system)
                &&& final(self).sys_at(id as int).nesting_level == old(self).sys_at(
                    focused_system as int,
                ).nesting_level + 1
                &&& final(self).sys_at(id as int).radius == old(self).sys_at(
                    focused_system as int,
                ).radius / SUBSYSTEM_RADIUS_DIVISOR
                &&& final(self).sys_at(id as int).is_child_of_interface == is_child_of_interface
                &&& final(self).sys_at(id as int).aggregate == Option::Some(
                    InterfaceAggregate {
                        interface: interface_entity,
                        total_inflow: old(self).inflow_sum(interface_entity, n) as u128,
                        total_outflow: old(self).outflow_sum(interface_entity, n) as u128,
                        substance_type: old(self).crossing_substance(interface_entity, n),
                        is_useful: old(self).crossing_useful(interface_entity, n),
                        is_import: old(self).has_inflow(interface_entity, n),
                        is_export: old(self).has_outflow(interface_entity, n),
                    },
                )
                &&& final(self).entry_at(id as int).name == name
                &&& final(self).entry_at(id as int).description == description
                &&& final(self).entry_at(id as int).parent == Option::Some(
                    if is_child_of_interface {
                        interface_entity
                    } else {
                        focused_system
                    },
                )
                &&& final(self).entry_at(id as int).transform.translation == (Point {
                    x: (-tdiv(
                        (old(self).sys_at(focused_system as int).radius
                            / SUBSYSTEM_RADIUS_DIVISOR) * old(self).zoom,
                        100,
                    )) as i64,
                    y: 0,
                })
                &&& final(self).entry_at(id as int).transform.z == (if is_child_of_interface {
                    SUBSYSTEM_Z - INTERFACE_Z
                } else {
                    SUBSYSTEM_Z as int
                })
                &&& final(self).entry_at(id as int).transform.rotation == (crate::geom::Rot {
                    x: crate::elements::UNIT,
                    y: 0,
                })
                &&& final(self).entry_at(id as int).initial_position == Option::Some(
                    Point {
                        x: (-((old(self).sys_at(focused_system as int).radius
                            / SUBSYSTEM_RADIUS_DIVISOR) as i64)) as i64,
                        y: 0,
                    },
                )
                &&& final(self).iface_at(interface_entity as int) == (InterfaceData {
                    subsystem: Option::Some(id),
                    ..old(self).iface_at(interface_entity as int)
                })
                &&& forall|j: int|
                    0 <= j < n && j != interface_entity ==> final(self).slots@[j] == #[trigger] old(
                        self,
                    ).slots@[j]
                &&& final(self).entry_at(interface_entity as int) == (Entry {
                    kind: final(self).entry_at(interface_entity as int).kind,
                    ..old(self).entry_at(interface_entity as int)
                })
            },
    {
        if !(interface_entity < self.slots.len() && self.slots[interface_entity].is_some()) {
            return Result::Err(SceneError::UnknownEntity);
        }
        let iface_entry = self.slots[interface_entity].as_ref().unwrap();
        let iface_z = iface_entry.transform.z;
        match &iface_entry.kind {
            Element::Iface(d) => {
                if d.subsystem.is_some() {
                    return Result::Err(SceneError::InvariantViolation);
                }
            },
            _ => {
                return Result::Err(SceneError::InvariantViolation);
            },
        }
        if !(focused_system < self.slots.len() && self.slots[focused_system].is_some()) {
            return Result::Err(SceneError::UnknownEntity);
        }
        let (parent_radius, parent_nesting) = match &self.slots[focused_system].as_ref().unwrap().kind {
            Element::Sys(d) => (d.radius, d.nesting_level),
            _ => {
                return Result::Err(SceneError::InvariantViolation);
            },
        };
        if !(parent_nesting < u32::MAX && parent_radius <= COORD_LIMIT as u64) {
            return Result::Err(SceneError::InvariantViolation);
        }
        if is_child_of_interface && !(SUBSYSTEM_Z - INTERFACE_Z < iface_z) {
            return Result::Err(SceneError::InvariantViolation);
        }
        // Aggregate every flow crossing the interface, in slot order.
        let mut total_inflow: u128 = 0;
        let mut total_outflow: u128 = 0;
        let mut substance_type = SubstanceType::Matter;
        let mut is_useful = false;
        let mut is_import = false;
        let mut is_export = false;
        let n = self.slots.len();
        let mut m: usize = 0;
        while m < n
            invariant
                n == self.slots@.len(),
                m <= n,
                total_inflow == self.inflow_sum(interface_entity, m as int),
                total_outflow == self.outflow_sum(interface_entity, m as int),
                substance_type == self.crossing_substance(interface_entity, m as int),
                is_useful == self.crossing_useful(interface_entity, m as int),
                is_import == self.has_inflow(interface_entity, m as int),
                is_export == self.has_outflow(interface_entity, m as int),
            decreases n - m,
        {
            proof {
                self.lemma_inflow_sum_bound(interface_entity, m as int);
                self.lemma_outflow_sum_bound(interface_entity, m as int);
                assert((m as int) * 0xffff_ffff_ffff_ffff + 0xffff_ffff_ffff_ffff == (m as int + 1)
                    * 0xffff_ffff_ffff_ffff);
                assert((m as int + 1) * 0xffff_ffff_ffff_ffff < 0x1_0000_0000_0000_0000_0000_0000_0000_0000)
                    by (nonlinear_arith)
                    requires
                        0 <= m < 0x1_0000_0000_0000_0000,
                ;
            }
            match &self.slots[m] {
                Option::Some(e) => match &e.kind {
                    Element::Flow(d) => {
                        let mut crossed = false;
                        let sink_hit = match d.sink {
                            Endpoint::OnInterface(t) => t == interface_entity,
                            _ => false,
                        };
                        let source_hit = match d.source {
                            Endpoint::OnInterface(t) => t == interface_entity,
                            _ => false,
                        };
                        if sink_hit {
                            total_inflow = total_inflow + d.amount as u128;
                            crossed = true;
                            is_import = true;
                        }
                        if source_hit {
                            total_outflow = total_outflow + d.amount as u128;
                            crossed = true;
                            is_export = true;
                        }
                        if crossed {
                            substance_type = d.substance_type;
                            is_useful = d.is_useful;
                        }
                    },
                    _ => {},
                },
                Option::None => {},
            }
            m = m + 1;
        }
        let aggregate = InterfaceAggregate {
            interface: interface_entity,
            total_inflow,
            total_outflow,
            substance_type,
            is_useful,
            is_import,
            is_export,
        };
        let radius = parent_radius / 4;
        let radius_zoomed = radius_times_zoom(radius, self.zoom);
        let z = if is_child_of_interface {
            SUBSYSTEM_Z - INTERFACE_Z
        } else {
            SUBSYSTEM_Z
        };
        let entry = Entry {
            name,
            description,
            parent: Option::Some(
                if is_child_of_interface {
                    interface_entity
                } else {
                    focused_system
                },
            ),
            transform: Transform {
                translation: Point { x: -radius_zoomed, y: 0 },
                z,
                rotation: crate::geom::Rot::identity(),
            },
            initial_position: Option::Some(Point { x: -(radius as i64), y: 0 }),
            selected: false,
            since: self.generation,
            kind: Element::Sys(
                SystemData {
                    radius,
                    porosity: 0,
                    perceptive_fuzziness: 0,
                    boundary_name: String::new(),
                    boundary_description: String::new(),
                    complexity: Complexity::Complex { adaptable: false, evolveable: false },
                    nesting_level: parent_nesting + 1,
                    parent_system: Option::Some(focused_system),
                    aggregate: Option::Some(aggregate),
                    is_child_of_interface,
                },
            ),
        };
        let id = self.push_entry(entry);
        let ie = self.slots[interface_entity].as_ref().unwrap().clone_entry();
        match ie.kind {
            Element::Iface(d) => {
                let new_ie = Entry {
                    kind: Element::Iface(InterfaceData { subsystem: Option::Some(id), ..d }),
                    ..ie
                };
                self.slots[interface_entity] = Option::Some(new_ie);
            },
            _ => {},
        }
        proof {
            assert forall|j: int| 0 <= j < self.slots@.len() implies #[trigger] self.wf_at(j) by {
                if j < old(self).slots@.len() {
                    assert(old(self).wf_at(j));
                }
            }
        }
        Result::Ok(id)
    }

    /// The curve point of a flow that a new subsystem must catch: where an
    /// inflow starts, or where an outflow ends.
    pub open spec fn flow_anchor(self, fid: EntityId, import: bool) -> Point {
        if import {
            self.flow_at(fid as int).curve.start
        } else {
            self.flow_at(fid as int).curve.end
        }
    }

    /// Every listed flow is live, and its anchor is a bounded point apart
    /// from the subsystem center, so the line to the disk is defined.
    pub open spec fn subsystem_flows_ok(self, flows: Seq<EntityId>, import: bool, center: Point) -> bool {
        forall|k: int|
            0 <= k < flows.len() ==> {
                &&& #[trigger] self.is_flow(flows[k] as int)
                &&& self.flow_anchor(flows[k], import).in_bounds()
                &&& self.flow_anchor(flows[k], import) != center
            }
    }

    /// The conditions under which a subsystem with redirected flows can be
    /// spawned.
    pub open spec fn subsystem_spawn_ok(
        self,
        parent_system: EntityId,
        inflows: Seq<EntityId>,
        outflows: Seq<EntityId>,
        position: Point,
    ) -> bool {
        &&& self.is_system(parent_system as int)
        &&& self.sys_at(parent_system as int).nesting_level < u32::MAX
        &&& self.sys_at(parent_system as int).radius <= (COORD_LIMIT as u64) / 4
        &&& position.pos_bounded()
        &&& seq_distinct(inflows + outflows)
        &&& self.subsystem_flows_ok(inflows, true, zoomed(position, self.zoom as int))
        &&& self.subsystem_flows_ok(outflows, false, zoomed(position, self.zoom as int))
    }

    /// Create a subsystem of `parent_system` at `position` (in the parent's
    /// unzoomed frame), one nesting level deeper and a quarter of the
    /// radius, and re-terminate the listed flows on it: each one gets a
    /// fresh interface on the subsystem circumference where its line meets
    /// the disk, and its open end is patched onto that interface.
    pub fn spawn_subsystem(
        &mut self,
        parent_system: EntityId,
        inflows: &Vec<EntityId>,
        outflows: &Vec<EntityId>,
        position: Point,
        name: String,
        description: String,
    ) -> (r: Result<EntityId, SceneError>)
        requires
            old(self).wf(),
            old(self).slots@.len() + inflows@.len() + outflows@.len() + 1 < usize::MAX,
        ensures
            final(self).wf(),
            final(self).same_frame(*old(self)),
            r is Ok <==> old(self).subsystem_spawn_ok(parent_system, inflows@, outflows@, position),
            r is Err ==> *final(self) == *old(self),
            r matches Result::Ok(id) ==> {
                let n = old(self).slots@.len() as int;
                let ni = inflows@.len() as int;
                let pz = zoomed(position, old(self).zoom as int);
                &&& id == n
                &&& final(self).slots@.len() == n + 1 + ni + outflows@.len()
                &&& final(self).is_system(id as int)
                &&& final(self).sys_at(id as int).radius == old(self).sys_at(
                    parent_system as int,
                ).radius / SUBSYSTEM_RADIUS_DIVISOR
                &&& final(self).sys_at(id as int).nesting_level == old(self).sys_at(
                    parent_system as int,
                ).nesting_level + 1
                &&& final(self).sys_at(id as int).parent_system == Option::Some(parent_system)
                &&& final(self).sys_at(id as int).aggregate is None
                &&& !final(self).sys_at(id as int).is_child_of_interface
                &&& final(self).entry_at(id as int).name == name
                &&& final(self).entry_at(id as int).description == description
                &&& final(self).entry_at(id as int).parent == Option::Some(parent_system)
                &&& final(self).entry_at(id as int).transform.translation == pz
                &&& final(self).entry_at(id as int).initial_position == Option::Some(position)
                &&& forall|k: int|
                    0 <= k < ni ==> #[trigger] final(self).redirected(
                        *old(self),
                        inflows@[k],
                        (n + 1 + k) as EntityId,
                        id,
                        true,
                        pz,
                        tdiv((old(self).sys_at(parent_system as int).radius / SUBSYSTEM_RADIUS_DIVISOR) * old(self).zoom, 100),
                    )
                &&& forall|k: int|
                    0 <= k < outflows@.len() ==> #[trigger] final(self).redirected(
                        *old(self),
                        outflows@[k],
                        (n + 1 + ni + k) as EntityId,
                        id,
                        false,
                        pz,
                        tdiv((old(self).sys_at(parent_system as int).radius / SUBSYSTEM_RADIUS_DIVISOR) * old(self).zoom, 100),
                    )
                &&& forall|j: int|
                    0 <= j < n && !(inflows@ + outflows@).contains(j as EntityId)
                        ==> final(self).slots@[j] == #[trigger] old(self).slots@[j]
            },
    {
        let pz_ok = position_pos_bounded(position);
        if !pz_ok {
            return Result::Err(SceneError::InvariantViolation);
        }
        let pz = crate::geom::scale_by_zoom(position, self.zoom);
        if !(parent_system < self.slots.len() && self.slots[parent_system].is_some()) {
            return Result::Err(SceneError::UnknownEntity);
        }
        let (parent_radius, parent_nesting) = match &self.slots[parent_system].as_ref().unwrap().kind {
            Element::Sys(d) => (d.radius, d.nesting_level),
            _ => {
                return Result::Err(SceneError::InvariantViolation);
            },
        };
        if !(parent_nesting < u32::MAX && parent_radius <= (COORD_LIMIT as u64) / 4) {
            return Result::Err(SceneError::InvariantViolation);
        }
        if !self.lists_distinct(inflows, outflows) {
            return Result::Err(SceneError::InvariantViolation);
        }
        if !self.check_subsystem_flows(inflows, true, pz) {
            return Result::Err(SceneError::InvariantViolation);
        }
        if !self.check_subsystem_flows(outflows, false, pz) {
            return Result::Err(SceneError::InvariantViolation);
        }
        let radius = parent_radius / 4;
        let radius_zoomed = radius_times_zoom(radius, self.zoom);
        let entry = Entry {
            name,
            description,
            parent: Option::Some(parent_system),
            transform: Transform {
                translation: pz,
                z: SUBSYSTEM_Z,
                rotation: crate::geom::Rot::identity(),
            },
            initial_position: Option::Some(position),
            selected: false,
            since: self.generation,
            kind: Element::Sys(
                SystemData {
                    radius,
                    porosity: 0,
                    perceptive_fuzziness: 0,
                    boundary_name: String::new(),
                    boundary_description: String::new(),
                    complexity: Complexity::Complex { adaptable: false, evolveable: false },
                    nesting_level: parent_nesting + 1,
                    parent_system: Option::Some(parent_system),
                    aggregate: Option::None,
                    is_child_of_interface: false,
                },
            ),
        };
        let id = self.push_entry(entry);
        proof {
            assert forall|j: int| 0 <= j < self.slots@.len() implies #[trigger] self.wf_at(j) by {
                if j < old(self).slots@.len() {
                    assert(old(self).wf_at(j));
                }
            }
        }
        let mut k: usize = 0;
        let ni = inflows.len();
        while k < ni
            invariant
                self.wf(),
                self.same_frame(*old(self)),
                ni == inflows@.len(),
                k <= ni,
                old(self).slots@.len() + inflows@.len() + outflows@.len() + 1 < usize::MAX,
                old(self).subsystem_spawn_ok(parent_system, inflows@, outflows@, position),
                id == old(self).slots@.len(),
                pz == zoomed(position, old(self).zoom as int),
                pz.in_bounds(),
                0 <= radius_zoomed <= COORD_LIMIT,
                self.slots@.len() == old(self).slots@.len() + 1 + k,
                self.is_system(id as int),
                self.sys_at(id as int).radius == old(self).sys_at(parent_system as int).radius
                    / SUBSYSTEM_RADIUS_DIVISOR,
                self.sys_at(id as int).nesting_level == old(self).sys_at(
                    parent_system as int,
                ).nesting_level + 1,
                self.sys_at(id as int).parent_system == Option::Some(parent_system),
                self.sys_at(id as int).aggregate is None,
                !self.sys_at(id as int).is_child_of_interface,
                self.entry_at(id as int).parent == Option::Some(parent_system),
                self.entry_at(id as int).name == name,
                self.entry_at(id as int).description == description,
                self.entry_at(id as int).transform.translation == pz,
                self.entry_at(id as int).initial_position == Option::Some(position),
                forall|m: int|
                    0 <= m < k ==> #[trigger] self.redirected(
                        *old(self),
                        inflows@[m],
                        (id + 1 + m) as EntityId,
                        id,
                        true,
                        pz,
                        radius_zoomed as int,
                    ),
                forall|j: int|
                    0 <= j < old(self).slots@.len() && !inflows@.subrange(0, k as int).contains(
                        j as EntityId,
                    ) ==> self.slots@[j] == #[trigger] old(self).slots@[j],
            decreases ni - k,
        {
            let fid = inflows[k];
            proof {
                assert(old(self).is_flow(inflows@[k as int] as int));
                assert(old(self).flow_anchor(inflows@[k as int], true).in_bounds());
                assert(old(self).flow_anchor(inflows@[k as int], true) != pz);
                assert(old(self).is_flow(fid as int));
                assert(!inflows@.subrange(0, k as int).contains(fid)) by {
                    if inflows@.subrange(0, k as int).contains(fid) {
                        let m = choose|m: int|
                            0 <= m < k && inflows@.subrange(0, k as int)[m] == fid;
                        assert((inflows@ + outflows@)[m] == fid);
                        assert((inflows@ + outflows@)[k as int] == fid);
                    }
                };
                assert(self.slots@[fid as int] == old(self).slots@[fid as int]);
            }
            let fe = self.slots[fid].as_ref().unwrap().clone_entry();
            proof {
                assert(self.flow_at(fid as int) == old(self).flow_at(fid as int));
            }
            let d = match fe.kind {
                Element::Flow(d) => d,
                _ => {
                    return Result::Err(SceneError::InvariantViolation);
                },
            };
            let anchor = d.curve.start;
            let (_, dir, _) = crate::geom::end_and_direction_from_subsystem(
                pz,
                radius_zoomed as u64,
                anchor,
            );
            let iface_entry = Entry {
                name: String::new(),
                description: String::new(),
                parent: Option::Some(id),
                transform: Transform {
                    translation: crate::geom::scale_dir(dir, radius_zoomed),
                    z: INTERFACE_Z,
                    rotation: dir,
                },
                initial_position: Option::None,
                    selected: false,
                since: self.generation,
                kind: Element::Iface(
                    InterfaceData {
                        parent_system: id,
                        placement: Placement::AlongDirection {
                            dx: anchor.x - pz.x,
                            dy: anchor.y - pz.y,
                        },
                        protocol: String::new(),
                        kind: InterfaceKind::Import,
                        subsystem: Option::None,
                    },
                ),
            };
            let ghost prev = *self;
            let iid = self.push_entry(iface_entry);
            let new_fe = Entry {
                kind: Element::Flow(FlowData { sink: Endpoint::OnInterface(iid), ..d }),
                ..fe
            };
            self.slots[fid] = Option::Some(new_fe);
            proof {
                assert(self.is_system(id as int));
                assert forall|j: int| 0 <= j < self.slots@.len() implies #[trigger] self.wf_at(
                    j,
                ) by {
                    if j == iid {
                        assert(self.wf_at(j));
                    } else if j < prev.slots@.len() {
                        assert(prev.wf_at(j));
                        assert(self.wf_at(j));
                    }
                }
                assert(prev.wf_at(prev.root as int));
                assert(self.is_system(self.root as int));
                assert forall|j: int|
                    0 <= j < old(self).slots@.len() && !inflows@.subrange(
                        0,
                        k as int + 1,
                    ).contains(j as EntityId) implies self.slots@[j] == #[trigger] old(
                    self,
                ).slots@[j] by {
                    assert(!inflows@.subrange(0, k as int).contains(j as EntityId)) by {
                        if inflows@.subrange(0, k as int).contains(j as EntityId) {
                            let m = choose|m: int|
                                0 <= m < k && inflows@.subrange(0, k as int)[m]
                                    == j as EntityId;
                            assert(inflows@.subrange(0, k as int + 1)[m] == j as EntityId);
                        }
                    };
                    assert(j != fid) by {
                        assert(inflows@.subrange(0, k as int + 1)[k as int] == fid);
                    };
                }
                assert forall|m: int|
                    0 <= m < k + 1 implies #[trigger] self.redirected(
                        *old(self),
                        inflows@[m],
                        (id + 1 + m) as EntityId,
                        id,
                        true,
                        pz,
                        radius_zoomed as int,
                    ) by {
                    if m < k {
                        assert(prev.redirected(
                            *old(self),
                            inflows@[m],
                            (id + 1 + m) as EntityId,
                            id,
                            true,
                            pz,
                            radius_zoomed as int,
                        ));
                        assert(inflows@[m] != fid) by {
                            assert((inflows@ + outflows@)[m] == inflows@[m]);
                            assert((inflows@ + outflows@)[k as int] == fid);
                        };
                    }
                }
            }
            k = k + 1;
        }
        let mut k2: usize = 0;
        let no = outflows.len();
        while k2 < no
            invariant
                self.wf(),
                self.same_frame(*old(self)),
                no == outflows@.len(),
                ni == inflows@.len(),
                k2 <= no,
                old(self).slots@.len() + inflows@.len() + outflows@.len() + 1 < usize::MAX,
                old(self).subsystem_spawn_ok(parent_system, inflows@, outflows@, position),
                id == old(self).slots@.len(),
                pz == zoomed(position, old(self).zoom as int),
                pz.in_bounds(),
                0 <= radius_zoomed <= COORD_LIMIT,
                self.slots@.len() == old(self).slots@.len() + 1 + ni + k2,
                self.is_system(id as int),
                self.sys_at(id as int).radius == old(self).sys_at(parent_system as int).radius
                    / SUBSYSTEM_RADIUS_DIVISOR,
                self.sys_at(id as int).nesting_level == old(self).sys_at(
                    parent_system as int,
                ).nesting_level + 1,
                self.sys_at(id as int).parent_system == Option::Some(parent_system),
                self.sys_at(id as int).aggregate is None,
                !self.sys_at(id as int).is_child_of_interface,
                self.entry_at(id as int).parent == Option::Some(parent_system),
                self.entry_at(id as int).name == name,
                self.entry_at(id as int).description == description,
                self.entry_at(id as int).transform.translation == pz,
                self.entry_at(id as int).initial_position == Option::Some(position),
                forall|m: int|
                    0 <= m < ni ==> #[trigger] self.redirected(
                        *old(self),
                        inflows@[m],
                        (id + 1 + m) as EntityId,
                        id,
                        true,
                        pz,
                        radius_zoomed as int,
                    ),
                forall|m: int|
                    0 <= m < k2 ==> #[trigger] self.redirected(
                        *old(self),
                        outflows@[m],
                        (id + 1 + ni + m) as EntityId,
                        id,
                        false,
                        pz,
                        radius_zoomed as int,
                    ),
                forall|j: int|
                    0 <= j < old(self).slots@.len() && !(inflows@ + outflows@.subrange(
                        0,
                        k2 as int,
                    )).contains(j as EntityId) ==> self.slots@[j] == #[trigger] old(
                        self,
                    ).slots@[j],
            decreases no - k2,
        {
            let fid = outflows[k2];
            proof {
                assert(old(self).is_flow(outflows@[k2 as int] as int));
                assert(old(self).flow_anchor(outflows@[k2 as int], false).in_bounds());
                assert(old(self).flow_anchor(outflows@[k2 as int], false) != pz);
                assert(old(self).is_flow(fid as int));
                assert(!(inflows@ + outflows@.subrange(0, k2 as int)).contains(fid)) by {
                    if (inflows@ + outflows@.subrange(0, k2 as int)).contains(fid) {
                        let m = choose|m: int|
                            0 <= m < ni + k2 && (inflows@ + outflows@.subrange(0, k2 as int))[m]
                                == fid;
                        assert((inflows@ + outflows@)[m] == fid);
                        assert((inflows@ + outflows@)[ni + k2 as int] == fid);
                    }
                };
                assert(self.slots@[fid as int] == old(self).slots@[fid as int]);
            }
            let fe = self.slots[fid].as_ref().unwrap().clone_entry();
            proof {
                assert(self.flow_at(fid as int) == old(self).flow_at(fid as int));
            }
            let d = match fe.kind {
                Element::Flow(d) => d,
                _ => {
                    return Result::Err(SceneError::InvariantViolation);
                },
            };
            let anchor = d.curve.end;
            let (_, dir, _) = crate::geom::end_and_direction_from_subsystem(
                pz,
                radius_zoomed as u64,
                anchor,
            );
            let iface_entry = Entry {
                name: String::new(),
                description: String::new(),
                parent: Option::Some(id),
                transform: Transform {
                    translation: crate::geom::scale_dir(dir, radius_zoomed),
                    z: INTERFACE_Z,
                    rotation: dir,
                },
                initial_position: Option::None,
                    selected: false,
                since: self.generation,
                kind: Element::Iface(
                    InterfaceData {
                        parent_system: id,
                        placement: Placement::AlongDirection {
                            dx: anchor.x - pz.x,
                            dy: anchor.y - pz.y,
                        },
                        protocol: String::new(),
                        kind: InterfaceKind::Export,
                        subsystem: Option::None,
                    },
                ),
            };
            let ghost prev = *self;
            let iid = self.push_entry(iface_entry);
            let new_fe = Entry {
                kind: Element::Flow(FlowData { source: Endpoint::OnInterface(iid), ..d }),
                ..fe
            };
            self.slots[fid] = Option::Some(new_fe);
            proof {
                assert(self.is_system(id as int));
                assert forall|j: int| 0 <= j < self.slots@.len() implies #[trigger] self.wf_at(
                    j,
                ) by {
                    if j == iid {
                        assert(self.wf_at(j));
                    } else if j < prev.slots@.len() {
                        assert(prev.wf_at(j));
                        assert(self.wf_at(j));
                    }
                }
                assert(prev.wf_at(prev.root as int));
                assert(self.is_system(self.root as int));
                assert forall|j: int|
                    0 <= j < old(self).slots@.len() && !(inflows@ + outflows@.subrange(
                        0,
                        k2 as int + 1,
                    )).contains(j as EntityId) implies self.slots@[j] == #[trigger] old(
                    self,
                ).slots@[j] by {
                    assert(!(inflows@ + outflows@.subrange(0, k2 as int)).contains(
                        j as EntityId,
                    )) by {
                        if (inflows@ + outflows@.subrange(0, k2 as int)).contains(
                            j as EntityId,
                        ) {
                            let m = choose|m: int|
                                0 <= m < ni + k2 && (inflows@ + outflows@.subrange(
                                    0,
                                    k2 as int,
                                ))[m] == j as EntityId;
                            assert((inflows@ + outflows@.subrange(0, k2 as int + 1))[m]
                                == j as EntityId);
                        }
                    };
                    assert(j != fid) by {
                        assert((inflows@ + outflows@.subrange(0, k2 as int + 1))[ni + k2 as int]
                            == fid);
                    };
                }
                assert forall|m: int|
                    0 <= m < ni implies #[trigger] self.redirected(
                        *old(self),
                        inflows@[m],
                        (id + 1 + m) as EntityId,
                        id,
                        true,
                        pz,
                        radius_zoomed as int,
                    ) by {
                    assert(prev.redirected(
                        *old(self),
                        inflows@[m],
                        (id + 1 + m) as EntityId,
                        id,
                        true,
                        pz,
                        radius_zoomed as int,
                    ));
                    assert(inflows@[m] != fid) by {
                        assert((inflows@ + outflows@)[m] == inflows@[m]);
                        assert((inflows@ + outflows@)[ni + k2 as int] == fid);
                    };
                }
                assert forall|m: int|
                    0 <= m < k2 + 1 implies #[trigger] self.redirected(
                        *old(self),
                        outflows@[m],
                        (id + 1 + ni + m) as EntityId,
                        id,
                        false,
                        pz,
                        radius_zoomed as int,
                    ) by {
                    if m < k2 {
                        assert(prev.redirected(
                            *old(self),
                            outflows@[m],
                            (id + 1 + ni + m) as EntityId,
                            id,
                            false,
                            pz,
                            radius_zoomed as int,
                        ));
                        assert(outflows@[m] != fid) by {
                            assert((inflows@ + outflows@)[ni + m] == outflows@[m]);
                            assert((inflows@ + outflows@)[ni + k2 as int] == fid);
                        };
                    }
                }
            }
            k2 = k2 + 1;
        }
        proof {
            assert(outflows@.subrange(0, no as int) =~= outflows@);
            assert(inflows@.subrange(0, ni as int) =~= inflows@);
        }
        Result::Ok(id)
    }

    /// The flow `fid` has been re-terminated on the new subsystem `sub`:
    /// a fresh interface of the right direction sits at slot `iid` on the
    /// subsystem circumference along the flow's line, and the flow's open
    /// end references it. Everything else about the flow is unchanged.
    pub open spec fn redirected(
        self,
        older: Scene,
        fid: EntityId,
        iid: EntityId,
        sub: EntityId,
        import: bool,
        center: Point,
        rz: int,
    ) -> bool {
        let anchor = older.flow_anchor(fid, import);
        &&& self.is_interface(iid as int)
        &&& self.iface_at(iid as int).parent_system == sub
        &&& self.iface_at(iid as int).kind == (if import {
            InterfaceKind::Import
        } else {
            InterfaceKind::Export
        })
        &&& self.iface_at(iid as int).placement == (Placement::AlongDirection {
            dx: (anchor.x - center.x) as i64,
            dy: (anchor.y - center.y) as i64,
        })
        &&& self.iface_at(iid as int).subsystem is None
        &&& self.iface_at(iid as int).protocol@ == Seq::<char>::empty()
        &&& self.entry_at(iid as int).parent == Option::Some(sub)
        &&& self.entry_at(iid as int).transform.z == INTERFACE_Z
        &&& exists|len: int|
            #[trigger] is_isqrt(
                ((anchor.x - center.x) * (anchor.x - center.x) + (anchor.y - center.y) * (
                anchor.y - center.y)) as int,
                len,
            ) && len > 0 && self.entry_at(iid as int).transform.rotation.x == tdiv(
                (anchor.x - center.x) * crate::elements::UNIT,
                len,
            ) && self.entry_at(iid as int).transform.rotation.y == tdiv(
                (anchor.y - center.y) * crate::elements::UNIT,
                len,
            ) && self.entry_at(iid as int).transform.translation.x == tdiv(
                self.entry_at(iid as int).transform.rotation.x * rz,
                crate::elements::UNIT as int,
            ) && self.entry_at(iid as int).transform.translation.y == tdiv(
                self.entry_at(iid as int).transform.rotation.y * rz,
                crate::elements::UNIT as int,
            )
        &&& self.is_flow(fid as int)
        &&& self.flow_at(fid as int) == (if import {
            FlowData { sink: Endpoint::OnInterface(iid), ..older.flow_at(fid as int) }
        } else {
            FlowData { source: Endpoint::OnInterface(iid), ..older.flow_at(fid as int) }
        })
        &&& self.entry_at(fid as int) == (Entry {
            kind: self.entry_at(fid as int).kind,
            ..older.entry_at(fid as int)
        })
    }

    /// Whether every listed flow can be caught by a subsystem at `center`,
    /// as executable code.
    fn check_subsystem_flows(&self, flows: &Vec<EntityId>, import: bool, center: Point) -> (r:
        bool)
        ensures
            r == self.subsystem_flows_ok(flows@, import, center),
    {
        let n = flows.len();
        let mut k: usize = 0;
        while k < n
            invariant
                n == flows@.len(),
                k <= n,
                forall|m: int|
                    0 <= m < k ==> {
                        &&& #[trigger] self.is_flow(flows@[m] as int)
                        &&& self.flow_anchor(flows@[m], import).in_bounds()
                        &&& self.flow_anchor(flows@[m], import) != center
                    },
            decreases n - k,
        {
            let fid = flows[k];
            if !(fid < self.slots.len() && self.slots[fid].is_some()) {
                proof {
                    assert(!self.is_flow(flows@[k as int] as int));
                }
                return false;
            }
            match &self.slots[fid].as_ref().unwrap().kind {
                Element::Flow(d) => {
                    let anchor = if import {
                        d.curve.start
                    } else {
                        d.curve.end
                    };
                    proof {
                        assert(self.is_flow(flows@[k as int] as int));
                        assert(anchor == self.flow_anchor(flows@[k as int], import));
                    }
                    if !crate::geom::point_in_bounds(anchor) {
                        return false;
                    }
                    if anchor.x == center.x && anchor.y == center.y {
                        proof {
                            assert(self.flow_anchor(flows@[k as int], import) == center);
                        }
                        return false;
                    }
                },
                _ => {
                    proof {
                        assert(!self.is_flow(flows@[k as int] as int));
                    }
                    return false;
                },
            }
            proof {
                assert(self.is_flow(flows@[k as int] as int));
                assert(self.flow_anchor(flows@[k as int], import).in_bounds());
                assert(self.flow_anchor(flows@[k as int], import) != center);
                assert forall|m: int| 0 <= m < k + 1 implies {
                    &&& #[trigger] self.is_flow(flows@[m] as int)
                    &&& self.flow_anchor(flows@[m], import).in_bounds()
                    &&& self.flow_anchor(flows@[m], import) != center
                } by {
                    if m < k {
                        assert(self.is_flow(flows@[m] as int));
                    }
                }
            }
            k = k + 1;
        }
        true
    }

    /// Whether the two id lists are pairwise distinct, taken together, as
    /// executable code.
    fn lists_distinct(&self, a: &Vec<EntityId>, b: &Vec<EntityId>) -> (r: bool)
        requires
            a@.len() + b@.len() <= usize::MAX,
        ensures
            r == seq_distinct(a@ + b@),
    {
        let na = a.len();
        let nb = b.len();
        let n = na + nb;
        let mut i: usize = 0;
        while i < n
            invariant
                na == a@.len(),
                nb == b@.len(),
                n == na + nb,
                i <= n,
                forall|k1: int, k2: int|
                    #![trigger (a@ + b@)[k1], (a@ + b@)[k2]]
                    0 <= k1 < k2 < i ==> (a@ + b@)[k1] != (a@ + b@)[k2],
            decreases n - i,
        {
            let vi = if i < na {
                a[i]
            } else {
                b[i - na]
            };
            proof {
                assert((a@ + b@)[i as int] == vi);
            }
            let mut j: usize = 0;
            while j < i
                invariant
                    na == a@.len(),
                    nb == b@.len(),
                    n == na + nb,
                    i < n,
                    j <= i,
                    (a@ + b@)[i as int] == vi,
                    forall|k1: int| 0 <= k1 < j ==> #[trigger] (a@ + b@)[k1] != vi,
                decreases i - j,
            {
                let vj = if j < na {
                    a[j]
                } else {
                    b[j - na]
                };
                proof {
                    assert((a@ + b@)[j as int] == vj);
                }
                if vj == vi {
                    return false;
                }
                j = j + 1;
            }
            i = i + 1;
        }
        true
    }

    /// Validate one flow endpoint: `UnknownEntity` when its target is
    /// absent, `InvariantViolation` when it is of the wrong kind.
    pub fn check_endpoint(&self, e: Endpoint) -> (r: Result<(), SceneError>)
        ensures
            r is Ok <==> self.endpoint_ok(e),
            r matches Result::Err(err) ==> match e {
                Endpoint::Unattached => false,
                Endpoint::OnInterface(j) => if !self.live(j as int) {
                    err == SceneError::UnknownEntity
                } else {
                    err == SceneError::InvariantViolation
                },
                Endpoint::OnExternal(j) => if !self.live(j as int) {
                    err == SceneError::UnknownEntity
                } else {
                    err == SceneError::InvariantViolation
                },
            },
    {
        match e {
            Endpoint::Unattached => Result::Ok(()),
            Endpoint::OnInterface(j) => {
                match self.entry(j) {
                    Result::Ok(entry) => match &entry.kind {
                        Element::Iface(_) => Result::Ok(()),
                        _ => Result::Err(SceneError::InvariantViolation),
                    },
                    Result::Err(err) => Result::Err(err),
                }
            },
            Endpoint::OnExternal(j) => {
                match self.entry(j) {
                    Result::Ok(entry) => match &entry.kind {
                        Element::Ext(_) => Result::Ok(()),
                        _ => Result::Err(SceneError::InvariantViolation),
                    },
                    Result::Err(err) => Result::Err(err),
                }
            },
        }
    }

    /// Attach (or detach) one end of a flow. Detaching marks the flow
    /// incomplete at once; completion is cleared only by the invariants
    /// engine on its next pass.
    pub fn attach_endpoint(&mut self, flow: EntityId, which: FlowEnd, target: Endpoint) -> (r:
        Result<(), SceneError>)
        requires
            old(self).wf(),
        ensures
            final(self).wf(),
            final(self).same_frame(*old(self)),
            r is Ok <==> old(self).is_flow(flow as int) && old(self).endpoint_ok(target),
            r is Err ==> *final(self) == *old(self),
            r is Ok ==> {
                let d = old(self).flow_at(flow as int);
                let source = if which is Source {
                    target
                } else {
                    d.source
                };
                let sink = if which is Sink {
                    target
                } else {
                    d.sink
                };
                final(self).slots@ == old(self).slots@.update(
                    flow as int,
                    Option::Some(
                        Entry {
                            kind: Element::Flow(
                                FlowData {
                                    source,
                                    sink,
                                    incomplete: d.incomplete || !(source.is_attached()
                                        && sink.is_attached()),
                                    ..d
                                },
                            ),
                            ..old(self).entry_at(flow as int)
                        },
                    ),
                )
            },
    {
        match self.check_endpoint(target) {
            Result::Ok(()) => {},
            Result::Err(e) => {
                return Result::Err(e);
            },
        }
        if !(flow < self.slots.len() && self.slots[flow].is_some()) {
            return Result::Err(SceneError::UnknownEntity);
        }
        let entry = self.slots[flow].as_ref().unwrap().clone_entry();
        match entry.kind {
            Element::Flow(d) => {
                let source = if matches!(which, FlowEnd::Source) {
                    target
                } else {
                    d.source
                };
                let sink = if matches!(which, FlowEnd::Sink) {
                    target
                } else {
                    d.sink
                };
                let incomplete = d.incomplete || !(endpoint_attached(source) && endpoint_attached(
                    sink,
                ));
                let new_entry = Entry {
                    kind: Element::Flow(FlowData { source, sink, incomplete, ..d }),
                    ..entry
                };
                self.slots[flow] = Option::Some(new_entry);
                proof {
                    assert forall|j: int| 0 <= j < self.slots@.len() implies #[trigger] self.wf_at(
                        j,
                    ) by {
                        assert(old(self).wf_at(j));
                        assert(old(self).wf_at(flow as int));
                    }
                }
                Result::Ok(())
            },
            _ => Result::Err(SceneError::InvariantViolation),
        }
    }

    /// Change the transfer amount of a flow. The aggregates of any
    /// affected interface subsystem are restored by the next engine pass.
    pub fn set_flow_amount(&mut self, flow: EntityId, amount: u64) -> (r: Result<
        (),
        SceneError,
    >)
        requires
            old(self).wf(),
        ensures
            final(self).wf(),
            final(self).same_frame(*old(self)),
            r is Ok <==> old(self).is_flow(flow as int),
            r is Err ==> *final(self) == *old(self),
            r is Ok ==> final(self).slots@ == old(self).slots@.update(
                flow as int,
                Option::Some(
                    Entry {
                        kind: Element::Flow(
                            FlowData { amount, ..old(self).flow_at(flow as int) },
                        ),
                        ..old(self).entry_at(flow as int)
                    },
                ),
            ),
    {
        if !(flow < self.slots.len() && self.slots[flow].is_some()) {
            return Result::Err(SceneError::UnknownEntity);
        }
        let entry = self.slots[flow].as_ref().unwrap().clone_entry();
        match entry.kind {
            Element::Flow(d) => {
                let new_entry = Entry { kind: Element::Flow(FlowData { amount, ..d }), ..entry };
                self.slots[flow] = Option::Some(new_entry);
                proof {
                    assert forall|j: int| 0 <= j < self.slots@.len() implies #[trigger] self.wf_at(
                        j,
                    ) by {
                        assert(old(self).wf_at(j));
                        assert(old(self).wf_at(flow as int));
                    }
                }
                Result::Ok(())
            },
            _ => Result::Err(SceneError::InvariantViolation),
        }
    }

    /// Delete a flow, and with it any label or helper child attached to
    /// it. No other element is touched.
    pub fn delete_flow(&mut self, flow: EntityId) -> (r: Result<(), SceneError>)
        requires
            old(self).wf(),
        ensures
            final(self).wf(),
            final(self).same_frame(*old(self)),
            r is Ok <==> old(self).is_flow(flow as int),
            r is Err ==> *final(self) == *old(self),
            r is Ok ==> {
                &&& final(self).slots@.len() == old(self).slots@.len()
                &&& !final(self).live(flow as int)
                &&& forall|j: int|
                    0 <= j < old(self).slots@.len() && j != flow ==> if old(self).live(j) && old(
                        self,
                    ).entry_at(j).parent == Option::Some(flow) {
                        !final(self).live(j)
                    } else {
                        final(self).slots@[j] == #[trigger] old(self).slots@[j]
                    }
            },
    {
        if !(flow < self.slots.len() && self.slots[flow].is_some()) {
            return Result::Err(SceneError::UnknownEntity);
        }
        let is_flow = matches!(&self.slots[flow].as_ref().unwrap().kind, Element::Flow(_));
        if !is_flow {
            return Result::Err(SceneError::InvariantViolation);
        }
        self.slots[flow] = Option::None;
        let n = self.slots.len();
        let mut j: usize = 0;
        while j < n
            invariant
                n == self.slots@.len(),
                n == old(self).slots@.len(),
                j <= n,
                self.root == old(self).root,
                self.zoom == old(self).zoom,
                self.generation == old(self).generation,
                !self.live(flow as int),
                flow < n,
                old(self).is_flow(flow as int),
                old(self).wf(),
                forall|k: int|
                    0 <= k < n && k != flow ==> if k < j && old(self).live(k) && old(
                        self,
                    ).entry_at(k).parent == Option::Some(flow) {
                        !self.live(k)
                    } else {
                        self.slots@[k] == #[trigger] old(self).slots@[k]
                    },
            decreases n - j,
        {
            let is_child = match &self.slots[j] {
                Option::Some(e) => e.parent.is_some() && *e.parent.as_ref().unwrap() == flow,
                Option::None => false,
            };
            if is_child && j != flow {
                self.slots[j] = Option::None;
            }
            j = j + 1;
        }
        proof {
            assert(old(self).wf_at(old(self).root as int));
            assert(self.slots@[old(self).root as int] == old(self).slots@[old(
                self,
            ).root as int]);
            assert forall|k: int| 0 <= k < self.slots@.len() implies #[trigger] self.wf_at(k) by {
                assert(old(self).wf_at(k));
                if self.live(k) {
                    // A surviving element never referenced the deleted
                    // flow: flows have no children but their labels and
                    // helpers, and those went with it. Each element the
                    // survivor references is itself parented to a
                    // non-flow, so it survives too.
                    assert(self.slots@[k] == old(self).slots@[k]);
                    let e = self.entry_at(k);
                    match e.kind {
                        Element::Sys(d) => {
                            if d.parent_system is Some {
                                assert(old(self).wf_at(d.parent_system->0 as int));
                            }
                            if d.aggregate is Some {
                                assert(old(self).wf_at(d.aggregate->0.interface as int));
                            }
                        },
                        Element::Iface(d) => {
                            assert(old(self).wf_at(d.parent_system as int));
                            if d.subsystem is Some {
                                assert(old(self).wf_at(d.subsystem->0 as int));
                            }
                        },
                        Element::Flow(d) => {
                            match d.source {
                                Endpoint::OnInterface(t) => {
                                    assert(old(self).wf_at(t as int));
                                },
                                Endpoint::OnExternal(t) => {
                                    assert(old(self).wf_at(t as int));
                                },
                                Endpoint::Unattached => {},
                            }
                            match d.sink {
                                Endpoint::OnInterface(t) => {
                                    assert(old(self).wf_at(t as int));
                                },
                                Endpoint::OnExternal(t) => {
                                    assert(old(self).wf_at(t as int));
                                },
                                Endpoint::Unattached => {},
                            }
                        },
                        Element::Ext(_) => {
                            if e.parent is Some {
                                assert(old(self).wf_at(e.parent->0 as int));
                            }
                        },
                        Element::Label(d) => {
                            assert(old(self).wf_at(d.target as int));
                        },
                        Element::Helper(d) => {
                            assert(old(self).wf_at(d.target as int));
                        },
                    }
                }
            }
        }
        Result::Ok(())
    }
}

/// No id occurs twice in the sequence.
pub open spec fn seq_distinct(s: Seq<EntityId>) -> bool {
    forall|k1: int, k2: int| #![trigger s[k1], s[k2]] 0 <= k1 < k2 < s.len() ==> s[k1] != s[k2]
}

/// Whether a point lies within the unzoomed position bound, as executable
/// code.
pub fn position_pos_bounded(p: Point) -> (r: bool)
    ensures
        r == p.pos_bounded(),
{
    -crate::geom::POS_LIMIT <= p.x && p.x <= crate::geom::POS_LIMIT
        && -crate::geom::POS_LIMIT <= p.y && p.y <= crate::geom::POS_LIMIT
}

/// Whether an endpoint is attached, as executable code.
pub fn endpoint_attached(e: Endpoint) -> (r: bool)
    ensures
        r == e.is_attached(),
{
    !matches!(e, Endpoint::Unattached)
}

/// A radius scaled by the zoom (hundredths), as a signed coordinate.
pub fn radius_times_zoom(radius: u64, zoom: u32) -> (r: i64)
    requires
        radius <= COORD_LIMIT as u64,
        zoom <= 1000,
    ensures
        r == tdiv(radius * zoom, 100),
        0 <= r <= 10 * COORD_LIMIT,
        r <= 10 * (radius as int),
{
    proof {
        assert(radius * zoom <= 1000 * (COORD_LIMIT as int) && radius * zoom <= (10 * (
        radius as int)) * 100) by (nonlinear_arith)
            requires
                0 <= radius <= COORD_LIMIT as u64,
                0 <= zoom <= 1000,
        ;
        crate::geom::lemma_tdiv_bound(radius * zoom, 100, 10 * COORD_LIMIT as int);
        crate::geom::lemma_tdiv_bound(radius * zoom, 100, 10 * (radius as int));
        assert(tdiv(radius * zoom, 100) >= 0);
    }
    ((radius * (zoom as u64)) / 100) as i64
}

/// Whether a placement is valid, as executable code.
pub fn placement_valid(p: Placement) -> (r: bool)
    ensures
        r == p.valid(),
{
    match p {
        Placement::AtAngle(a) => -PI_MICRO <= a && a <= PI_MICRO,
        Placement::AlongDirection { dx, dy } => !(dx == 0 && dy == 0),
    }
}

} // verus!
