//! The element catalog: the five diagram element kinds and their attributes.
//!
//! Every diagram element is a slot in the scene store (see `scene`); the
//! kind-specific attributes live in the `Element` variant held by the slot,
//! while shared concerns (name, description, spatial parent, transform,
//! selection) live beside it in the slot entry.
//!
//! All quantities are fixed-point integers:
//! * lengths and positions in micro-units (`1_000_000` = one unit),
//! * angles in micro-radians, restricted to `[-PI_MICRO, PI_MICRO]`,
//! * flow amounts in milli-units (`1_000` = one unit),
//! * porosity and perceptive fuzziness in parts per million of `[0, 1]`.

use vstd::prelude::*;

verus! {

/// Identifier of an element: the index of its slot in the scene store.
/// Slots are never reused, so an id is stable for the life of the scene.
pub type EntityId = usize;

/// One micro-unit fixed-point scale: a length of `UNIT` is one world unit.
pub const UNIT: i64 = 1_000_000;

/// `pi` in micro-radians, rounded to the nearest; interface angles are
/// confined to `[-PI_MICRO, PI_MICRO]`.
pub const PI_MICRO: i64 = 3_141_593;

/// Parts per million: the denominator for porosity and fuzziness.
pub const PPM: u32 = 1_000_000;

/// What a flow carries.
#[derive(Clone, Copy, Debug, PartialEq, Eq, Structural)]
pub enum SubstanceType {
    Matter,
    Energy,
    Message,
}

/// The value classification of a flow.
#[derive(Clone, Copy, Debug, PartialEq, Eq, Structural)]
pub enum Usability {
    Product,
    Waste,
    Resource,
    Disruption,
}

/// The direction discipline of an interface.
#[derive(Clone, Copy, Debug, PartialEq, Eq, Structural)]
pub enum InterfaceKind {
    Import,
    Export,
    Hybrid,
}

/// Whether an external entity produces into or consumes out of the system.
#[derive(Clone, Copy, Debug, PartialEq, Eq, Structural)]
pub enum ExternalKind {
    Source,
    Sink,
}

/// The composability class of a system.
#[derive(Clone, Copy, Debug, PartialEq, Eq, Structural)]
pub enum Complexity {
    Atomic,
    Complex { adaptable: bool, evolveable: bool },
    Multi,
}

/// One end of a flow. A flow endpoint is either not yet attached, attached
/// to an interface on some system's boundary, or attached directly to an
/// external entity in the environment.
#[derive(Clone, Copy, Debug, PartialEq, Eq, Structural)]
pub enum Endpoint {
    Unattached,
    OnInterface(EntityId),
    OnExternal(EntityId),
}

impl Endpoint {
    /// An endpoint is attached when it references some element.
    pub open spec fn is_attached(self) -> bool {
        !(self is Unattached)
    }
}

/// Which end of a flow an operation addresses.
#[derive(Clone, Copy, Debug, PartialEq, Eq, Structural)]
pub enum FlowEnd {
    Source,
    Sink,
}

/// Where an interface sits on its parent system's circumference: either at
/// an explicit angle (micro-radians), or along a direction vector taken
/// from the flow that the interface was spawned for. A direction stands
/// for the angle of the ray from the system's center through it.
#[derive(Clone, Copy, Debug, PartialEq, Eq, Structural)]
pub enum Placement {
    AtAngle(i64),
    AlongDirection { dx: i64, dy: i64 },
}

impl Placement {
    /// An angle placement must lie in `[-PI_MICRO, PI_MICRO]`; a direction
    /// placement must not be the zero vector.
    pub open spec fn valid(self) -> bool {
        match self {
            Placement::AtAngle(a) => -PI_MICRO <= a <= PI_MICRO,
            Placement::AlongDirection { dx, dy } => !(dx == 0 && dy == 0),
        }
    }
}

/// The aggregate that an interface subsystem carries: the summed traffic
/// of all flows crossing its owning interface. Totals are in milli-units;
/// they are wide enough that the sum of any number of flow amounts fits.
#[derive(Clone, Copy, Debug, PartialEq, Eq, Structural)]
pub struct InterfaceAggregate {
    /// The interface whose inside this subsystem represents.
    pub interface: EntityId,
    /// Sum of `amount` over flows whose sink endpoint is the interface.
    pub total_inflow: u128,
    /// Sum of `amount` over flows whose source endpoint is the interface.
    pub total_outflow: u128,
    /// Carried through from the flows crossing the interface.
    pub substance_type: SubstanceType,
    pub is_useful: bool,
    /// Whether any inflow (import) or outflow (export) crosses it.
    pub is_import: bool,
    pub is_export: bool,
}

/// Attributes of a system: the root System of Interest when
/// `parent_system` is `None`, a subsystem otherwise.
#[derive(Clone, Debug)]
pub struct SystemData {
    /// Disk radius in micro-units.
    pub radius: u64,
    /// Boundary parameters, in parts per million of `[0, 1]`.
    pub porosity: u32,
    pub perceptive_fuzziness: u32,
    pub boundary_name: String,
    pub boundary_description: String,
    pub complexity: Complexity,
    /// Depth in the containment tree; the root is at 0.
    pub nesting_level: u32,
    /// The containing system; `None` exactly for the root.
    pub parent_system: Option<EntityId>,
    /// Present when this subsystem represents the inside of one interface.
    pub aggregate: Option<InterfaceAggregate>,
    /// Whether the subsystem is spatially parented to its interface and
    /// drawn strictly below it.
    pub is_child_of_interface: bool,
}

/// Attributes of an interface: a typed port on one system's boundary.
#[derive(Clone, Debug)]
pub struct InterfaceData {
    /// The system whose boundary hosts this interface.
    pub parent_system: EntityId,
    pub placement: Placement,
    pub protocol: String,
    pub kind: InterfaceKind,
    /// The interface subsystem representing this interface's inside, if one
    /// was spawned.
    pub subsystem: Option<EntityId>,
}

/// Attributes of a flow: a directed substance transfer between endpoints.
#[derive(Clone, Debug)]
pub struct FlowData {
    pub substance_type: SubstanceType,
    pub usability: Usability,
    /// Transfer amount in milli-units; never negative by construction.
    pub amount: u64,
    pub is_useful: bool,
    pub source: Endpoint,
    pub sink: Endpoint,
    /// Set exactly when an endpoint is unattached; maintained by the
    /// invariants engine and by the constructors.
    pub incomplete: bool,
    /// The cubic Bezier geometry of the drawn flow.
    pub curve: crate::geom::FlowCurve,
}

/// Attributes of an external entity in the environment.
#[derive(Clone, Debug)]
pub struct ExternalData {
    pub kind: ExternalKind,
}

/// A name label child spawned by the invariants engine for a subsystem.
#[derive(Clone, Debug)]
pub struct LabelData {
    /// The element this label names.
    pub target: EntityId,
}

/// A stroke-only highlight child attached to a selected element.
#[derive(Clone, Debug)]
pub struct HelperData {
    /// The selected element this helper highlights.
    pub target: EntityId,
}

/// The kind-specific attributes of one element.
#[derive(Clone, Debug)]
pub enum Element {
    Sys(SystemData),
    Iface(InterfaceData),
    Flow(FlowData),
    Ext(ExternalData),
    Label(LabelData),
    Helper(HelperData),
}

impl Element {
    pub open spec fn is_system(self) -> bool {
        self is Sys
    }

    pub open spec fn is_interface(self) -> bool {
        self is Iface
    }

    pub open spec fn is_flow(self) -> bool {
        self is Flow
    }

    pub open spec fn is_external(self) -> bool {
        self is Ext
    }
}

} // verus!
