//! The stable document model: the level-indexed tree that diagrams are
//! persisted as, and the two-way mapping between it and the live scene.
//!
//! The document identifies every record by a kind and a path of signed
//! indices: the root system is `[0]`, the environment `[-1]`, sources and
//! sinks `[-1, k]`, boundary interfaces `[0, k]`, and the flows crossing
//! the boundary `[-1, k]`.

use vstd::prelude::*;
use crate::elements::{
    Complexity, Element, EntityId, Endpoint, ExternalKind, InterfaceKind, Placement,
    SubstanceType, Usability, PI_MICRO,
};
use crate::geom::{FlowCurve, Point, Transform};
use crate::scene::{clone_string, Scene};

verus! {

/// The record kinds a persisted id can name.
#[derive(Clone, Copy, Debug, PartialEq, Eq, Structural)]
pub enum IdKind {
    System,
    Boundary,
    Interface,
    Environment,
    Source,
    Sink,
    Flow,
}

/// A persisted element identity: a kind and index path.
#[derive(Clone, Debug)]
pub struct DocId {
    pub kind: IdKind,
    pub indices: Vec<i64>,
}

/// The header every persisted record carries.
#[derive(Clone, Debug)]
pub struct DocInfo {
    pub id: DocId,
    pub level: i64,
    pub name: String,
    pub description: String,
}

/// What a persisted interaction carries.
#[derive(Clone, Debug)]
pub struct DocSubstance {
    pub sub_type: Option<String>,
    pub kind: SubstanceType,
}

/// The direction and value classification of a persisted interaction.
#[derive(Clone, Copy, Debug, PartialEq, Eq, Structural)]
pub enum DocInteractionKind {
    Inflow(Usability),
    Outflow(Usability),
}

/// A flow crossing the boundary, as persisted.
#[derive(Clone, Debug)]
pub struct DocInteraction {
    pub info: DocInfo,
    pub substance: DocSubstance,
    pub kind: DocInteractionKind,
    pub external_entity: DocId,
}

/// An interface on the boundary, as persisted.
#[derive(Clone, Debug)]
pub struct DocInterface {
    pub info: DocInfo,
    pub protocol: String,
    pub kind: InterfaceKind,
    pub receives_from: Vec<DocId>,
    pub exports_to: Vec<DocId>,
    pub angle: Option<i64>,
}

/// A source or sink in the environment, as persisted.
#[derive(Clone, Debug)]
pub struct DocExternalEntity {
    pub info: DocInfo,
    pub kind: ExternalKind,
    pub interactions: Vec<DocId>,
    pub translation: Option<Point>,
}

/// The environment of a system: its sources and sinks.
#[derive(Clone, Debug)]
pub struct DocEnvironment {
    pub info: DocInfo,
    pub sources: Vec<DocExternalEntity>,
    pub sinks: Vec<DocExternalEntity>,
}

/// The boundary of a system: its parameters and interfaces.
#[derive(Clone, Debug)]
pub struct DocBoundary {
    pub info: DocInfo,
    pub porosity: u32,
    pub perceptive_fuzziness: u32,
    pub interfaces: Vec<DocInterface>,
}

/// A persisted system: the root of the document, recursively holding its
/// subsystems.
pub struct DocSystem {
    pub info: DocInfo,
    pub parent: Option<DocId>,
    pub complexity: Complexity,
    pub environment: DocEnvironment,
    pub boundary: DocBoundary,
    pub internal_interactions: Vec<DocInteraction>,
    pub external_interactions: Vec<DocInteraction>,
    pub components: Vec<DocSystem>,
    pub translation: Option<Point>,
}

/// The document root.
pub struct WorldModel {
    pub system_of_interest: DocSystem,
}

impl Scene {
    /// Slot `j` holds a flow entering the root system from outside: its
    /// sink is an interface on the root boundary and its source is an
    /// external entity.
    pub open spec fn is_ext_inflow(self, j: int) -> bool {
        &&& self.is_flow(j)
        &&& match self.flow_at(j).sink {
            Endpoint::OnInterface(i) => self.is_interface(i as int) && self.iface_at(
                i as int,
            ).parent_system == self.root,
            _ => false,
        }
        &&& self.flow_at(j).source is OnExternal
    }

    /// Slot `j` holds a flow leaving the root system: its source is an
    /// interface on the root boundary and its sink is an external entity.
    pub open spec fn is_ext_outflow(self, j: int) -> bool {
        &&& self.is_flow(j)
        &&& match self.flow_at(j).source {
            Endpoint::OnInterface(i) => self.is_interface(i as int) && self.iface_at(
                i as int,
            ).parent_system == self.root,
            _ => false,
        }
        &&& self.flow_at(j).sink is OnExternal
    }

    /// A flow that the document persists: one crossing the root boundary
    /// in either direction.
    pub open spec fn is_crossing(self, j: int) -> bool {
        self.is_ext_inflow(j) || self.is_ext_outflow(j)
    }

    /// How many of the first `n` slots hold crossing flows.
    pub open spec fn crossing_count(self, n: int) -> int
        decreases n,
    {
        if n <= 0 {
            0
        } else {
            self.crossing_count(n - 1) + if self.is_crossing(n - 1) {
                1int
            } else {
                0int
            }
        }
    }

    /// How many of the first `n` slots hold external inflows.
    pub open spec fn inflow_crossing_count(self, n: int) -> int
        decreases n,
    {
        if n <= 0 {
            0
        } else {
            self.inflow_crossing_count(n - 1) + if self.is_ext_inflow(n - 1) {
                1int
            } else {
                0int
            }
        }
    }

    /// How many of the first `n` slots hold external outflows.
    pub open spec fn outflow_crossing_count(self, n: int) -> int
        decreases n,
    {
        if n <= 0 {
            0
        } else {
            self.outflow_crossing_count(n - 1) + if self.is_ext_outflow(n - 1) && !self.is_ext_inflow(n - 1) {
                1int
            } else {
                0int
            }
        }
    }

    /// The interface entity a crossing flow is attached to.
    pub open spec fn crossing_iface(self, j: int) -> int {
        if self.is_ext_inflow(j) {
            self.flow_at(j).sink->OnInterface_0 as int
        } else {
            self.flow_at(j).source->OnInterface_0 as int
        }
    }

    /// The external entity a crossing flow is attached to.
    pub open spec fn crossing_ext(self, j: int) -> int {
        if self.is_ext_inflow(j) {
            self.flow_at(j).source->OnExternal_0 as int
        } else {
            self.flow_at(j).sink->OnExternal_0 as int
        }
    }

    /// The ordinal of a crossing flow among the crossings of its own
    /// direction, in slot order.
    pub open spec fn dir_ord(self, j: int) -> int {
        if self.is_ext_inflow(j) {
            self.inflow_crossing_count(j)
        } else {
            self.outflow_crossing_count(j)
        }
    }

    /// The interaction record persisted for the crossing flow in slot
    /// `j`: the flow's direction, usability, substance and names, under
    /// id `(Flow, [-1, ord])`, referencing the co-emitted source or sink
    /// record of its direction.
    pub open spec fn interaction_saved(self, rec: DocInteraction, j: int) -> bool {
        let inflow = self.is_ext_inflow(j);
        &&& rec.kind == (if inflow {
            DocInteractionKind::Inflow(self.flow_at(j).usability)
        } else {
            DocInteractionKind::Outflow(self.flow_at(j).usability)
        })
        &&& rec.substance.kind == self.flow_at(j).substance_type
        &&& rec.substance.sub_type is None
        &&& rec.info.name == self.entry_at(j).name
        &&& rec.info.description == self.entry_at(j).description
        &&& rec.info.level == -1
        &&& rec.info.id.kind is Flow
        &&& rec.info.id.indices@ == seq![-1i64, self.crossing_count(j) as i64]
        &&& rec.external_entity.kind == (if inflow {
            IdKind::Source
        } else {
            IdKind::Sink
        })
        &&& rec.external_entity.indices@ == seq![-1i64, self.dir_ord(j) as i64]
    }

    /// The source or sink record persisted for the crossing flow in slot
    /// `j`: the external entity's names and position under id
    /// `(Source|Sink, [-1, dir_ord])`, referencing the flow's interaction
    /// record.
    pub open spec fn external_saved(self, rec: DocExternalEntity, j: int) -> bool {
        let inflow = self.is_ext_inflow(j);
        let x = self.crossing_ext(j);
        &&& rec.kind == (if inflow {
            ExternalKind::Source
        } else {
            ExternalKind::Sink
        })
        &&& rec.info.name == self.entry_at(x).name
        &&& rec.info.description == self.entry_at(x).description
        &&& rec.info.level == -1
        &&& rec.info.id.kind == (if inflow {
            IdKind::Source
        } else {
            IdKind::Sink
        })
        &&& rec.info.id.indices@ == seq![-1i64, self.dir_ord(j) as i64]
        &&& rec.interactions@.len() == 1
        &&& rec.interactions@[0].kind is Flow
        &&& rec.interactions@[0].indices@ == seq![-1i64, self.crossing_count(j) as i64]
        &&& rec.translation == Option::Some(self.entry_at(x).transform.translation)
    }

    /// The interface record at position `p` persists the interface entity
    /// `fi`: its names, protocol and kind under id `(Interface, [0, p])`,
    /// with the placement angle where the interface was placed by angle
    /// (and then within the half turn) and none where it was placed along
    /// a flow's direction.
    pub open spec fn interface_saved(self, rec: DocInterface, p: int, fi: int) -> bool {
        &&& self.is_interface(fi)
        &&& rec.info.name == self.entry_at(fi).name
        &&& rec.info.description == self.entry_at(fi).description
        &&& rec.info.level == 1
        &&& rec.info.id.kind is Interface
        &&& rec.info.id.indices@ == seq![0i64, p as i64]
        &&& rec.protocol == self.iface_at(fi).protocol
        &&& rec.kind == self.iface_at(fi).kind
        &&& rec.angle == (match self.iface_at(fi).placement {
            Placement::AtAngle(a) => Option::Some(a),
            Placement::AlongDirection { .. } => Option::None,
        })
        &&& (rec.angle is Some ==> -PI_MICRO <= rec.angle->0 <= PI_MICRO)
    }

    /// The crossing counters are monotone in the prefix length, and step
    /// by one past a crossing slot.
    pub proof fn lemma_counts_mono(self, a: int, b: int)
        requires
            0 <= a <= b,
        ensures
            self.crossing_count(a) <= self.crossing_count(b),
            self.inflow_crossing_count(a) <= self.inflow_crossing_count(b),
            self.outflow_crossing_count(a) <= self.outflow_crossing_count(b),
            a < b && self.is_crossing(a) ==> self.crossing_count(a) + 1 <= self.crossing_count(b),
            a < b && self.is_ext_inflow(a) ==> self.inflow_crossing_count(a) + 1
                <= self.inflow_crossing_count(b),
            a < b && self.is_ext_outflow(a) ==> self.outflow_crossing_count(a) + 1
                <= self.outflow_crossing_count(b),
        decreases b - a,
    {
        if a < b {
            self.lemma_counts_mono(a + 1, b);
        }
    }

    /// Some interface entity of the scene is what the record at position
    /// `p` persists.
    pub open spec fn interface_record_saved(self, rec: DocInterface, p: int) -> bool {
        exists|fi: int| #[trigger] self.interface_saved(rec, p, fi)
    }

    /// Persist the scene: the root System of Interest, its boundary, and
    /// one interaction, one external entity and one boundary interface
    /// record for each flow crossing the boundary, walked in slot order.
    /// An interface already emitted for an earlier flow is extended
    /// instead of duplicated. Only the root level is persisted: the
    /// format carries nested components and internal interactions, but
    /// both lists are emitted empty, so round trips cover scenes whose
    /// content crosses the root boundary. Flow amounts are not part of
    /// the persisted schema and are not written.
    #[verifier::rlimit(100)]
    #[verifier::spinoff_prover]
    pub fn save(&self) -> (r: WorldModel)
        requires
            self.wf(),
            self.slots@.len() < 0x1000_0000,
        ensures
            r.system_of_interest.info.name == self.entry_at(self.root as int).name,
            r.system_of_interest.info.description == self.entry_at(self.root as int).description,
            r.system_of_interest.info.level == 0,
            r.system_of_interest.info.id.kind is System,
            r.system_of_interest.info.id.indices@ == seq![0i64],
            r.system_of_interest.parent is None,
            r.system_of_interest.complexity == self.sys_at(self.root as int).complexity,
            r.system_of_interest.boundary.porosity == self.sys_at(self.root as int).porosity,
            r.system_of_interest.boundary.perceptive_fuzziness == self.sys_at(
                self.root as int,
            ).perceptive_fuzziness,
            r.system_of_interest.boundary.info.name == self.sys_at(self.root as int).boundary_name,
            r.system_of_interest.external_interactions@.len() == self.crossing_count(
                self.slots@.len() as int,
            ),
            r.system_of_interest.environment.sources@.len() == self.inflow_crossing_count(
                self.slots@.len() as int,
            ),
            r.system_of_interest.environment.sinks@.len() == self.outflow_crossing_count(
                self.slots@.len() as int,
            ),
            r.system_of_interest.internal_interactions@.len() == 0,
            r.system_of_interest.components@.len() == 0,
            forall|j: int|
                0 <= j < self.slots@.len() && #[trigger] self.is_crossing(j)
                    ==> self.interaction_saved(
                    r.system_of_interest.external_interactions@[self.crossing_count(j)],
                    j,
                ),
            forall|j: int|
                0 <= j < self.slots@.len() && #[trigger] self.is_ext_inflow(j)
                    ==> self.external_saved(
                    r.system_of_interest.environment.sources@[self.inflow_crossing_count(j)],
                    j,
                ),
            forall|j: int|
                0 <= j < self.slots@.len() && #[trigger] self.is_ext_outflow(j)
                    ==> self.external_saved(
                    r.system_of_interest.environment.sinks@[self.outflow_crossing_count(j)],
                    j,
                ),
            r.system_of_interest.boundary.interfaces@.len() <= self.crossing_count(
                self.slots@.len() as int,
            ),
            forall|p: int|
                0 <= p < r.system_of_interest.boundary.interfaces@.len()
                    ==> #[trigger] self.interface_record_saved(
                    r.system_of_interest.boundary.interfaces@[p],
                    p,
                ),
            forall|j: int|
                0 <= j < self.slots@.len() && #[trigger] self.is_crossing(j) ==> exists|p: int|
                    0 <= p < r.system_of_interest.boundary.interfaces@.len()
                        && self.interface_saved(
                        r.system_of_interest.boundary.interfaces@[p],
                        p,
                        self.crossing_iface(j),
                    ) && list_has_ref(
                        dir_list(
                            r.system_of_interest.boundary.interfaces@[p],
                            self.is_ext_inflow(j),
                        ),
                        if self.is_ext_inflow(j) {
                            IdKind::Source
                        } else {
                            IdKind::Sink
                        },
                        -1i64,
                        self.dir_ord(j) as i64,
                    ),
    {
        let n = self.slots.len();
        let mut interactions: Vec<DocInteraction> = Vec::new();
        let mut sources: Vec<DocExternalEntity> = Vec::new();
        let mut sinks: Vec<DocExternalEntity> = Vec::new();
        let mut interfaces: Vec<DocInterface> = Vec::new();
        let mut emitted: Vec<EntityId> = Vec::new();
        let mut j: usize = 0;
        while j < n
            invariant
                self.wf(),
                n == self.slots@.len(),
                n < 0x1000_0000,
                j <= n,
                interactions@.len() == self.crossing_count(j as int),
                sources@.len() == self.inflow_crossing_count(j as int),
                sinks@.len() == self.outflow_crossing_count(j as int),
                interactions@.len() <= j,
                sources@.len() <= j,
                sinks@.len() <= j,
                emitted@.len() <= j,
                emitted@.len() <= self.crossing_count(j as int),
                interfaces@.len() == emitted@.len(),
                forall|t: int|
                    0 <= t < j && #[trigger] self.is_crossing(t) ==> self.interaction_saved(
                        interactions@[self.crossing_count(t)],
                        t,
                    ),
                forall|t: int|
                    0 <= t < j && #[trigger] self.is_ext_inflow(t) ==> self.external_saved(
                        sources@[self.inflow_crossing_count(t)],
                        t,
                    ),
                forall|t: int|
                    0 <= t < j && #[trigger] self.is_ext_outflow(t) ==> self.external_saved(
                        sinks@[self.outflow_crossing_count(t)],
                        t,
                    ),
                forall|p: int|
                    0 <= p < interfaces@.len() ==> #[trigger] self.interface_saved(
                        interfaces@[p],
                        p,
                        emitted@[p] as int,
                    ),
                forall|t: int|
                    0 <= t < j && #[trigger] self.is_crossing(t) ==> exists|p: int|
                        0 <= p < emitted@.len() && emitted@[p] as int == self.crossing_iface(t)
                            && list_has_ref(
                            dir_list(interfaces@[p], self.is_ext_inflow(t)),
                            if self.is_ext_inflow(t) {
                                IdKind::Source
                            } else {
                                IdKind::Sink
                            },
                            -1i64,
                            self.dir_ord(t) as i64,
                        ),
            decreases n - j,
        {
            proof {
                assert(self.crossing_count(j as int + 1) <= self.crossing_count(j as int) + 1);
            }
            let crossing: Option<(bool, EntityId, EntityId)> = match &self.slots[j] {
                Option::Some(e) => match &e.kind {
                    Element::Flow(d) => {
                        proof {
                            assert(self.wf_at(j as int));
                        }
                        let inflow_iface = match d.sink {
                            Endpoint::OnInterface(i) => {
                                let on_root = match &self.slots[i].as_ref().unwrap().kind {
                                    Element::Iface(idt) => idt.parent_system == self.root,
                                    _ => false,
                                };
                                if on_root && matches!(d.source, Endpoint::OnExternal(_)) {
                                    Option::Some(i)
                                } else {
                                    Option::None
                                }
                            },
                            _ => Option::None,
                        };
                        match inflow_iface {
                            Option::Some(i) => {
                                let ext = match d.source {
                                    Endpoint::OnExternal(x) => x,
                                    _ => 0,
                                };
                                Option::Some((true, i, ext))
                            },
                            Option::None => {
                                let outflow_iface = match d.source {
                                    Endpoint::OnInterface(i) => {
                                        let on_root = match &self.slots[i].as_ref().unwrap().kind {
                                            Element::Iface(idt) => idt.parent_system == self.root,
                                            _ => false,
                                        };
                                        if on_root && matches!(d.sink, Endpoint::OnExternal(_)) {
                                            Option::Some(i)
                                        } else {
                                            Option::None
                                        }
                                    },
                                    _ => Option::None,
                                };
                                match outflow_iface {
                                    Option::Some(i) => {
                                        let ext = match d.sink {
                                            Endpoint::OnExternal(x) => x,
                                            _ => 0,
                                        };
                                        Option::Some((false, i, ext))
                                    },
                                    Option::None => Option::None,
                                }
                            },
                        }
                    },
                    _ => Option::None,
                },
                Option::None => Option::None,
            };
            match crossing {
                Option::Some((is_inflow, iface_id, ext_id)) => {
                    let ghost inter0 = interactions@;
                    let ghost src0 = sources@;
                    let ghost snk0 = sinks@;
                    let ghost if0 = interfaces@;
                    let ghost em0 = emitted@;
                    proof {
                        assert(self.is_crossing(j as int));
                        assert(is_inflow == self.is_ext_inflow(j as int));
                        assert(iface_id as int == self.crossing_iface(j as int));
                        assert(ext_id as int == self.crossing_ext(j as int));
                        assert(self.wf_at(j as int));
                        assert(self.is_interface(iface_id as int));
                        assert(self.is_external(ext_id as int));
                        assert(self.wf_at(iface_id as int));
                    }
                    let fe = self.slots[j].as_ref().unwrap();
                    let fd = match &fe.kind {
                        Element::Flow(d) => d,
                        _ => {
                            return WorldModel {
                                system_of_interest: empty_doc_system(),
                            };
                        },
                    };
                    let interaction_id = DocId {
                        kind: IdKind::Flow,
                        indices: two_indices(-1, interactions.len() as i64),
                    };
                    let ext_doc_id = DocId {
                        kind: if is_inflow {
                            IdKind::Source
                        } else {
                            IdKind::Sink
                        },
                        indices: two_indices(
                            -1,
                            if is_inflow {
                                sources.len() as i64
                            } else {
                                sinks.len() as i64
                            },
                        ),
                    };
                    interactions.push(
                        DocInteraction {
                            info: DocInfo {
                                id: clone_doc_id(&interaction_id),
                                level: -1,
                                name: clone_string(&fe.name),
                                description: clone_string(&fe.description),
                            },
                            substance: DocSubstance {
                                sub_type: Option::None,
                                kind: fd.substance_type,
                            },
                            kind: if is_inflow {
                                DocInteractionKind::Inflow(fd.usability)
                            } else {
                                DocInteractionKind::Outflow(fd.usability)
                            },
                            external_entity: clone_doc_id(&ext_doc_id),
                        },
                    );
                    let xe = self.slots[ext_id].as_ref().unwrap();
                    let ext_record = DocExternalEntity {
                        info: DocInfo {
                            id: clone_doc_id(&ext_doc_id),
                            level: -1,
                            name: clone_string(&xe.name),
                            description: clone_string(&xe.description),
                        },
                        kind: if is_inflow {
                            ExternalKind::Source
                        } else {
                            ExternalKind::Sink
                        },
                        interactions: one_doc_id(interaction_id),
                        translation: Option::Some(xe.transform.translation),
                    };
                    if is_inflow {
                        sources.push(ext_record);
                    } else {
                        sinks.push(ext_record);
                    }
                    // Emit the interface record, or extend the one already
                    // emitted for this interface entity.
                    let ghost mut pj: int = 0;
                    let mut found: Option<usize> = Option::None;
                    let mut m: usize = 0;
                    while m < emitted.len()
                        invariant
                            m <= emitted@.len(),
                            emitted@.len() == interfaces@.len(),
                            match found {
                                Option::Some(p) => p < emitted@.len() && emitted@[p as int]
                                    == iface_id,
                                Option::None => true,
                            },
                        decreases emitted@.len() - m,
                    {
                        if emitted[m] == iface_id {
                            found = Option::Some(m);
                        }
                        m = m + 1;
                    }
                    match found {
                        Option::Some(p) => {
                            let rec = interfaces[p].clone_interface();
                            let rec2 = if is_inflow {
                                let mut rf = rec.receives_from;
                                rf.push(clone_doc_id(&ext_doc_id));
                                DocInterface { receives_from: rf, ..rec }
                            } else {
                                let mut et = rec.exports_to;
                                et.push(clone_doc_id(&ext_doc_id));
                                DocInterface { exports_to: et, ..rec }
                            };
                            interfaces[p] = rec2;
                            proof {
                                pj = p as int;
                                assert(self.is_interface(em0[pj] as int));
                                assert(self.interface_saved(if0[pj], pj, em0[pj] as int));
                                assert(self.interface_saved(
                                    interfaces@[pj],
                                    pj,
                                    em0[pj] as int,
                                ));
                                let lnew = dir_list(interfaces@[pj], is_inflow);
                                assert(lnew[lnew.len() - 1].kind == (if is_inflow {
                                    IdKind::Source
                                } else {
                                    IdKind::Sink
                                }) && lnew[lnew.len() - 1].indices@ == seq![
                                    -1i64,
                                    self.dir_ord(j as int) as i64,
                                ]);
                                assert(list_has_ref(
                                    lnew,
                                    if is_inflow {
                                        IdKind::Source
                                    } else {
                                        IdKind::Sink
                                    },
                                    -1i64,
                                    self.dir_ord(j as int) as i64,
                                ));
                            }
                        },
                        Option::None => {
                            let ie = self.slots[iface_id].as_ref().unwrap();
                            let idt = match &ie.kind {
                                Element::Iface(d) => d,
                                _ => {
                                    return WorldModel {
                                        system_of_interest: empty_doc_system(),
                                    };
                                },
                            };
                            let angle = match idt.placement {
                                Placement::AtAngle(a) => Option::Some(a),
                                Placement::AlongDirection { .. } => Option::None,
                            };
                            let mut rf: Vec<DocId> = Vec::new();
                            let mut et: Vec<DocId> = Vec::new();
                            if is_inflow {
                                rf.push(clone_doc_id(&ext_doc_id));
                            } else {
                                et.push(clone_doc_id(&ext_doc_id));
                            }
                            interfaces.push(
                                DocInterface {
                                    info: DocInfo {
                                        id: DocId {
                                            kind: IdKind::Interface,
                                            indices: two_indices(0, interfaces.len() as i64),
                                        },
                                        level: 1,
                                        name: clone_string(&ie.name),
                                        description: clone_string(&ie.description),
                                    },
                                    protocol: clone_string(&idt.protocol),
                                    kind: idt.kind,
                                    receives_from: rf,
                                    exports_to: et,
                                    angle,
                                },
                            );
                            emitted.push(iface_id);
                            proof {
                                pj = if0.len() as int;
                                assert(self.interface_saved(
                                    interfaces@[pj],
                                    pj,
                                    iface_id as int,
                                ));
                                let lnew = dir_list(interfaces@[pj], is_inflow);
                                assert(lnew[0].kind == (if is_inflow {
                                    IdKind::Source
                                } else {
                                    IdKind::Sink
                                }) && lnew[0].indices@ == seq![
                                    -1i64,
                                    self.dir_ord(j as int) as i64,
                                ]);
                                assert(list_has_ref(
                                    lnew,
                                    if is_inflow {
                                        IdKind::Source
                                    } else {
                                        IdKind::Sink
                                    },
                                    -1i64,
                                    self.dir_ord(j as int) as i64,
                                ));
                            }
                        },
                    }
                    proof {
                        let jj = j as int;
                        assert(emitted@[pj] == iface_id);
                        assert forall|t: int|
                            0 <= t < jj + 1 && #[trigger] self.is_crossing(t)
                            implies self.interaction_saved(
                            interactions@[self.crossing_count(t)],
                            t,
                        ) by {
                            if t < jj {
                                self.lemma_counts_mono(0, t);
                                self.lemma_counts_mono(t + 1, jj);
                                assert(self.interaction_saved(inter0[self.crossing_count(t)], t));
                                assert(interactions@[self.crossing_count(t)] == inter0[self.crossing_count(t)]);
                            }
                        }
                        assert forall|t: int|
                            0 <= t < jj + 1 && #[trigger] self.is_ext_inflow(t)
                            implies self.external_saved(
                            sources@[self.inflow_crossing_count(t)],
                            t,
                        ) by {
                            if t < jj {
                                self.lemma_counts_mono(0, t);
                                self.lemma_counts_mono(t + 1, jj);
                                assert(self.external_saved(src0[self.inflow_crossing_count(t)], t));
                                assert(sources@[self.inflow_crossing_count(t)]
                                    == src0[self.inflow_crossing_count(t)]);
                            }
                        }
                        assert forall|t: int|
                            0 <= t < jj + 1 && #[trigger] self.is_ext_outflow(t)
                            implies self.external_saved(
                            sinks@[self.outflow_crossing_count(t)],
                            t,
                        ) by {
                            if t < jj {
                                self.lemma_counts_mono(0, t);
                                self.lemma_counts_mono(t + 1, jj);
                                assert(self.external_saved(snk0[self.outflow_crossing_count(t)], t));
                                assert(sinks@[self.outflow_crossing_count(t)]
                                    == snk0[self.outflow_crossing_count(t)]);
                            }
                        }
                        assert forall|p: int|
                            0 <= p < interfaces@.len() implies #[trigger] self.interface_saved(
                            interfaces@[p],
                            p,
                            emitted@[p] as int,
                        ) by {
                            if p < if0.len() && p != pj {
                                assert(self.interface_saved(if0[p], p, em0[p] as int));
                                assert(interfaces@[p] == if0[p]);
                            }
                        }
                        assert forall|t: int|
                            0 <= t < jj + 1 && #[trigger] self.is_crossing(t) implies exists|
                            p: int,
                        |
                            0 <= p < emitted@.len() && emitted@[p] as int == self.crossing_iface(
                                t,
                            ) && list_has_ref(
                                dir_list(interfaces@[p], self.is_ext_inflow(t)),
                                if self.is_ext_inflow(t) {
                                    IdKind::Source
                                } else {
                                    IdKind::Sink
                                },
                                -1i64,
                                self.dir_ord(t) as i64,
                            ) by {
                            if t < jj {
                                let p0 = choose|p0: int|
                                    0 <= p0 < em0.len() && em0[p0] as int == self.crossing_iface(
                                        t,
                                    ) && list_has_ref(
                                        dir_list(if0[p0], self.is_ext_inflow(t)),
                                        if self.is_ext_inflow(t) {
                                            IdKind::Source
                                        } else {
                                            IdKind::Sink
                                        },
                                        -1i64,
                                        self.dir_ord(t) as i64,
                                    );
                                let kk = if self.is_ext_inflow(t) {
                                    IdKind::Source
                                } else {
                                    IdKind::Sink
                                };
                                let l0 = dir_list(if0[p0], self.is_ext_inflow(t));
                                let l1 = dir_list(interfaces@[p0], self.is_ext_inflow(t));
                                assert(list_has_ref(l1, kk, -1i64, self.dir_ord(t) as i64)) by {
                                    let q0 = choose|q0: int|
                                        0 <= q0 < l0.len() && (#[trigger] l0[q0]).kind == kk
                                            && l0[q0].indices@ == seq![
                                            -1i64,
                                            self.dir_ord(t) as i64,
                                        ];
                                    if p0 == pj {
                                        assert(l1[q0].kind == l0[q0].kind && l1[q0].indices@
                                            == l0[q0].indices@);
                                    } else {
                                        assert(l1 == l0);
                                    }
                                }
                                assert(emitted@[p0] == em0[p0]);
                            }
                        }
                    }
                },
                Option::None => {
                    proof {
                        assert(!self.is_crossing(j as int));
                    }
                },
            }
            j = j + 1;
        }
        proof {
            assert(self.wf_at(self.root as int));
        }
        let re = self.slots[self.root].as_ref().unwrap();
        let rd = match &re.kind {
            Element::Sys(d) => d,
            _ => {
                return WorldModel { system_of_interest: empty_doc_system() };
            },
        };
        let ghost ifs = interfaces@;
        let model = WorldModel {
            system_of_interest: DocSystem {
                info: DocInfo {
                    id: DocId { kind: IdKind::System, indices: one_index(0) },
                    level: 0,
                    name: clone_string(&re.name),
                    description: clone_string(&re.description),
                },
                parent: Option::None,
                complexity: rd.complexity,
                environment: DocEnvironment {
                    info: DocInfo {
                        id: DocId { kind: IdKind::Environment, indices: one_index(-1) },
                        level: -1,
                        name: String::new(),
                        description: String::new(),
                    },
                    sources,
                    sinks,
                },
                boundary: DocBoundary {
                    info: DocInfo {
                        id: DocId { kind: IdKind::Boundary, indices: one_index(0) },
                        level: 0,
                        name: clone_string(&rd.boundary_name),
                        description: clone_string(&rd.boundary_description),
                    },
                    porosity: rd.porosity,
                    perceptive_fuzziness: rd.perceptive_fuzziness,
                    interfaces,
                },
                internal_interactions: Vec::new(),
                external_interactions: interactions,
                components: Vec::new(),
                translation: Option::Some(re.transform.translation),
            },
        };
        proof {
            assert forall|p: int|
                0 <= p < model.system_of_interest.boundary.interfaces@.len()
                implies #[trigger] self.interface_record_saved(
                model.system_of_interest.boundary.interfaces@[p],
                p,
            ) by {
                assert(self.interface_saved(ifs[p], p, emitted@[p] as int));
                assert(model.system_of_interest.boundary.interfaces@[p] == ifs[p]);
                assert(self.interface_saved(
                    model.system_of_interest.boundary.interfaces@[p],
                    p,
                    emitted@[p] as int,
                ));
            }
            assert forall|t: int|
                0 <= t < n && #[trigger] self.is_crossing(t) implies exists|p: int|
                0 <= p < model.system_of_interest.boundary.interfaces@.len() && self.interface_saved(
                    model.system_of_interest.boundary.interfaces@[p],
                    p,
                    self.crossing_iface(t),
                ) && list_has_ref(
                    dir_list(model.system_of_interest.boundary.interfaces@[p], self.is_ext_inflow(t)),
                    if self.is_ext_inflow(t) {
                        IdKind::Source
                    } else {
                        IdKind::Sink
                    },
                    -1i64,
                    self.dir_ord(t) as i64,
                ) by {
                let p0 = choose|p0: int|
                    0 <= p0 < emitted@.len() && emitted@[p0] as int == self.crossing_iface(t)
                        && list_has_ref(
                        dir_list(model.system_of_interest.boundary.interfaces@[p0], self.is_ext_inflow(t)),
                        if self.is_ext_inflow(t) {
                            IdKind::Source
                        } else {
                            IdKind::Sink
                        },
                        -1i64,
                        self.dir_ord(t) as i64,
                    );
                assert(self.interface_saved(model.system_of_interest.boundary.interfaces@[p0], p0, emitted@[p0] as int));
            }
        }
        model
    }
}

/// Whether a list of persisted ids holds one with the given kind and
/// two-part index path.
pub open spec fn list_has_ref(l: Seq<DocId>, kind: IdKind, a: i64, b: i64) -> bool {
    exists|q: int|
        0 <= q < l.len() && (#[trigger] l[q]).kind == kind && l[q].indices@ == seq![a, b]
}

/// Whether two persisted ids name the same record, at the spec level.
pub open spec fn doc_id_eq(a: DocId, b: DocId) -> bool {
    a.kind == b.kind && a.indices@ == b.indices@
}

/// Whether a list of persisted ids holds the given one.
pub open spec fn list_has_id(l: Seq<DocId>, id: DocId) -> bool {
    exists|q: int| 0 <= q < l.len() && doc_id_eq(#[trigger] l[q], id)
}

/// The cross-reference list of an interface record for the given
/// direction: `receives_from` for inflows, `exports_to` for outflows.
pub open spec fn dir_list(rec: DocInterface, inflow: bool) -> Seq<DocId> {
    if inflow {
        rec.receives_from@
    } else {
        rec.exports_to@
    }
}

/// The first interface record at or after `m` whose direction list holds
/// the given external entity id.
pub open spec fn first_listing(recs: Seq<DocInterface>, id: DocId, inflow: bool, m: int) -> Option<
    int,
>
    decreases recs.len() - m,
{
    if m < 0 || m >= recs.len() {
        Option::None
    } else if list_has_id(dir_list(recs[m], inflow), id) {
        Option::Some(m)
    } else {
        first_listing(recs, id, inflow, m + 1)
    }
}

/// A found first listing lies within the record list and its direction
/// list holds the id.
pub proof fn lemma_first_listing_range(recs: Seq<DocInterface>, id: DocId, inflow: bool, m: int)
    requires
        0 <= m,
    ensures
        match first_listing(recs, id, inflow, m) {
            Option::Some(m0) => m <= m0 < recs.len() && list_has_id(
                dir_list(recs[m0], inflow),
                id,
            ),
            Option::None => true,
        },
    decreases recs.len() - m,
{
    if m < recs.len() && !list_has_id(dir_list(recs[m], inflow), id) {
        lemma_first_listing_range(recs, id, inflow, m + 1);
    }
}

/// The angle a loaded interface takes from its record: the persisted one
/// where it is present and within the half turn, zero otherwise.
pub open spec fn stored_angle(a: Option<i64>) -> i64 {
    match a {
        Option::Some(v) => if -PI_MICRO <= v && v <= PI_MICRO {
            v
        } else {
            0
        },
        Option::None => 0,
    }
}

/// Where a loaded interaction's external end attaches, given how many
/// sources and sinks the document lists: the slot loaded for the
/// referenced record, or nowhere when the reference does not resolve.
pub open spec fn resolved_external_slot(rec: DocInteraction, ns: int, nk: int) -> Endpoint {
    let inflow = rec.kind is Inflow;
    let count = if inflow {
        ns
    } else {
        nk
    };
    let base = if inflow {
        1int
    } else {
        1 + ns
    };
    if rec.external_entity.indices@.len() == 2 && 0 <= rec.external_entity.indices@[1] < count {
        Endpoint::OnExternal((base + rec.external_entity.indices@[1]) as EntityId)
    } else {
        Endpoint::Unattached
    }
}

/// Where a loaded interaction's boundary end attaches: the slot loaded
/// for the first interface record that lists the interaction's external
/// entity in the matching direction, or nowhere.
pub open spec fn resolved_interface_slot(
    recs: Seq<DocInterface>,
    rec: DocInteraction,
    ns: int,
    nk: int,
) -> Endpoint {
    match first_listing(recs, rec.external_entity, rec.kind is Inflow, 0) {
        Option::Some(m) => Endpoint::OnInterface((1 + ns + nk + m) as EntityId),
        Option::None => Endpoint::Unattached,
    }
}

/// The scene slot `id` holds the external entity loaded for the given
/// source or sink record.
pub open spec fn external_loaded(
    r: Scene,
    rec: DocExternalEntity,
    id: int,
    kind: ExternalKind,
) -> bool {
    &&& r.is_external(id)
    &&& r.ext_at(id).kind == kind
    &&& r.entry_at(id).name == rec.info.name
    &&& r.entry_at(id).description == rec.info.description
}

/// The scene slot `id` holds the interface loaded for the given boundary
/// record: on the root, with the record's kind, protocol, names, and its
/// persisted angle.
pub open spec fn interface_loaded(r: Scene, rec: DocInterface, id: int) -> bool {
    &&& r.is_interface(id)
    &&& r.iface_at(id).parent_system == r.root
    &&& r.iface_at(id).kind == rec.kind
    &&& r.iface_at(id).protocol == rec.protocol
    &&& r.iface_at(id).placement == Placement::AtAngle(stored_angle(rec.angle))
    &&& r.iface_at(id).subsystem is None
    &&& r.entry_at(id).name == rec.info.name
    &&& r.entry_at(id).description == rec.info.description
}

/// The scene slot `id` holds the flow loaded for the given interaction:
/// the record's substance, usability and names, attached to the resolved
/// external entity and to the interface whose record lists it, unattached
/// where a reference does not resolve, and marked incomplete exactly when
/// an end is unattached. Amounts are not persisted by the format, so a
/// loaded flow carries none.
pub open spec fn interaction_loaded(
    r: Scene,
    recs: Seq<DocInterface>,
    rec: DocInteraction,
    id: int,
    ns: int,
    nk: int,
) -> bool {
    let inflow = rec.kind is Inflow;
    let u = match rec.kind {
        DocInteractionKind::Inflow(u) => u,
        DocInteractionKind::Outflow(u) => u,
    };
    let ext = resolved_external_slot(rec, ns, nk);
    let ifc = resolved_interface_slot(recs, rec, ns, nk);
    &&& r.is_flow(id)
    &&& r.flow_at(id).substance_type == rec.substance.kind
    &&& r.flow_at(id).usability == u
    &&& r.flow_at(id).amount == 0
    &&& r.flow_at(id).is_useful == (u is Product || u is Resource)
    &&& r.flow_at(id).source == (if inflow {
        ext
    } else {
        ifc
    })
    &&& r.flow_at(id).sink == (if inflow {
        ifc
    } else {
        ext
    })
    &&& r.flow_at(id).incomplete == !(r.flow_at(id).source.is_attached() && r.flow_at(
        id,
    ).sink.is_attached())
    &&& r.entry_at(id).name == rec.info.name
    &&& r.entry_at(id).description == rec.info.description
}

/// Restore a scene from a document. An empty scene gains the System of
/// Interest at slot zero, then an external entity for every source and
/// sink record in order, an interface for every boundary record at its
/// persisted angle, and a flow for every external interaction, attached
/// to its external entity and to the interface whose record lists that
/// entity; a reference that matches no record leaves that end of the
/// flow unattached, and the load goes on. The format persists the root
/// level only (see `Scene::save`), so nested components are not
/// rebuilt.
#[verifier::rlimit(100)]
#[verifier::spinoff_prover]
pub fn load(doc: &WorldModel) -> (r: Scene)
    requires
        doc.system_of_interest.environment.sources@.len() < 0x100_0000,
        doc.system_of_interest.environment.sinks@.len() < 0x100_0000,
        doc.system_of_interest.boundary.interfaces@.len() < 0x100_0000,
        doc.system_of_interest.external_interactions@.len() < 0x100_0000,
    ensures
        r.wf(),
        r.root == 0,
        r.entry_at(0).name == doc.system_of_interest.info.name,
        r.entry_at(0).description == doc.system_of_interest.info.description,
        r.sys_at(0).complexity == doc.system_of_interest.complexity,
        r.sys_at(0).porosity == doc.system_of_interest.boundary.porosity,
        r.sys_at(0).perceptive_fuzziness == doc.system_of_interest.boundary.perceptive_fuzziness,
        r.sys_at(0).boundary_name == doc.system_of_interest.boundary.info.name,
        r.sys_at(0).boundary_description == doc.system_of_interest.boundary.info.description,
        r.slots@.len() == 1 + doc.system_of_interest.environment.sources@.len()
            + doc.system_of_interest.environment.sinks@.len()
            + doc.system_of_interest.boundary.interfaces@.len()
            + doc.system_of_interest.external_interactions@.len(),
        forall|q: int|
            0 <= q < doc.system_of_interest.environment.sources@.len()
                ==> #[trigger] external_loaded(
                r,
                doc.system_of_interest.environment.sources@[q],
                1 + q,
                ExternalKind::Source,
            ),
        forall|q: int|
            0 <= q < doc.system_of_interest.environment.sinks@.len() ==> #[trigger] external_loaded(
                r,
                doc.system_of_interest.environment.sinks@[q],
                1 + doc.system_of_interest.environment.sources@.len() + q,
                ExternalKind::Sink,
            ),
        forall|m: int|
            0 <= m < doc.system_of_interest.boundary.interfaces@.len()
                ==> #[trigger] interface_loaded(
                r,
                doc.system_of_interest.boundary.interfaces@[m],
                1 + doc.system_of_interest.environment.sources@.len()
                    + doc.system_of_interest.environment.sinks@.len() + m,
            ),
        forall|m: int|
            0 <= m < doc.system_of_interest.external_interactions@.len()
                ==> #[trigger] interaction_loaded(
                r,
                doc.system_of_interest.boundary.interfaces@,
                doc.system_of_interest.external_interactions@[m],
                1 + doc.system_of_interest.environment.sources@.len()
                    + doc.system_of_interest.environment.sinks@.len()
                    + doc.system_of_interest.boundary.interfaces@.len() + m,
                doc.system_of_interest.environment.sources@.len() as int,
                doc.system_of_interest.environment.sinks@.len() as int,
            ),
{
    let soi = &doc.system_of_interest;
    let ghost ns = soi.environment.sources@.len() as int;
    let ghost nk = soi.environment.sinks@.len() as int;
    let ghost ni = soi.boundary.interfaces@.len() as int;
    let mut s = Scene::new(
        300 * 1_000_000,
        clone_string(&soi.info.name),
        clone_string(&soi.info.description),
    );
    s.set_root_details(
        soi.complexity,
        soi.boundary.porosity,
        soi.boundary.perceptive_fuzziness,
        clone_string(&soi.boundary.info.name),
        clone_string(&soi.boundary.info.description),
    );
    let ghost root_entry = s.entry_at(0);
    // Sources and sinks, in record order.
    let mut source_ids: Vec<EntityId> = Vec::new();
    let mut i: usize = 0;
    while i < soi.environment.sources.len()
        invariant
            s.wf(),
            s.root == 0,
            s.entry_at(0) == root_entry,
            s.live(0),
            ns < 0x100_0000,
            ns == soi.environment.sources@.len(),
            source_ids@.len() == i,
            i <= ns,
            s.slots@.len() == 1 + i,
            forall|q: int| 0 <= q < i ==> #[trigger] source_ids@[q] == 1 + q,
            forall|q: int|
                0 <= q < i ==> #[trigger] external_loaded(
                    s,
                    soi.environment.sources@[q],
                    1 + q,
                    ExternalKind::Source,
                ),
        decreases ns - i,
    {
        let ghost prev = s;
        let rec = &soi.environment.sources[i];
        let id = match s.spawn_external_entity(
            InterfaceKind::Import,
            Option::None,
            0,
            Transform::at_origin(),
            Point::zero(),
            false,
            clone_string(&rec.info.name),
            clone_string(&rec.info.description),
        ) {
            Result::Ok(id) => id,
            Result::Err(_) => 0,
        };
        source_ids.push(id);
        proof {
            assert forall|q: int|
                0 <= q < i + 1 implies #[trigger] external_loaded(
                s,
                soi.environment.sources@[q],
                1 + q,
                ExternalKind::Source,
            ) by {
                if q < i {
                    assert(external_loaded(
                        prev,
                        soi.environment.sources@[q],
                        1 + q,
                        ExternalKind::Source,
                    ));
                    assert(s.slots@[1 + q] == prev.slots@[1 + q]);
                }
            }
        }
        i = i + 1;
    }
    let mut sink_ids: Vec<EntityId> = Vec::new();
    let mut i2: usize = 0;
    while i2 < soi.environment.sinks.len()
        invariant
            s.wf(),
            s.root == 0,
            s.entry_at(0) == root_entry,
            s.live(0),
            ns < 0x100_0000,
            nk < 0x100_0000,
            ns == soi.environment.sources@.len(),
            nk == soi.environment.sinks@.len(),
            source_ids@.len() == ns,
            sink_ids@.len() == i2,
            i2 <= nk,
            s.slots@.len() == 1 + ns + i2,
            forall|q: int| 0 <= q < ns ==> #[trigger] source_ids@[q] == 1 + q,
            forall|q: int| 0 <= q < i2 ==> #[trigger] sink_ids@[q] == 1 + ns + q,
            forall|q: int|
                0 <= q < ns ==> #[trigger] external_loaded(
                    s,
                    soi.environment.sources@[q],
                    1 + q,
                    ExternalKind::Source,
                ),
            forall|q: int|
                0 <= q < i2 ==> #[trigger] external_loaded(
                    s,
                    soi.environment.sinks@[q],
                    1 + ns + q,
                    ExternalKind::Sink,
                ),
        decreases nk - i2,
    {
        let ghost prev = s;
        let rec = &soi.environment.sinks[i2];
        let id = match s.spawn_external_entity(
            InterfaceKind::Export,
            Option::None,
            0,
            Transform::at_origin(),
            Point::zero(),
            false,
            clone_string(&rec.info.name),
            clone_string(&rec.info.description),
        ) {
            Result::Ok(id) => id,
            Result::Err(_) => 0,
        };
        sink_ids.push(id);
        proof {
            assert forall|q: int|
                0 <= q < ns implies #[trigger] external_loaded(
                s,
                soi.environment.sources@[q],
                1 + q,
                ExternalKind::Source,
            ) by {
                assert(external_loaded(
                    prev,
                    soi.environment.sources@[q],
                    1 + q,
                    ExternalKind::Source,
                ));
                assert(s.slots@[1 + q] == prev.slots@[1 + q]);
            }
            assert forall|q: int|
                0 <= q < i2 + 1 implies #[trigger] external_loaded(
                s,
                soi.environment.sinks@[q],
                1 + ns + q,
                ExternalKind::Sink,
            ) by {
                if q < i2 {
                    assert(external_loaded(
                        prev,
                        soi.environment.sinks@[q],
                        1 + ns + q,
                        ExternalKind::Sink,
                    ));
                    assert(s.slots@[1 + ns + q] == prev.slots@[1 + ns + q]);
                }
            }
        }
        i2 = i2 + 1;
    }
    // Boundary interfaces, at their persisted angles.
    let mut iface_ids: Vec<EntityId> = Vec::new();
    let mut i3: usize = 0;
    while i3 < soi.boundary.interfaces.len()
        invariant
            s.wf(),
            s.root == 0,
            s.entry_at(0) == root_entry,
            s.live(0),
            s.is_system(0),
            ns < 0x100_0000,
            nk < 0x100_0000,
            ni < 0x100_0000,
            ns == soi.environment.sources@.len(),
            nk == soi.environment.sinks@.len(),
            ni == soi.boundary.interfaces@.len(),
            source_ids@.len() == ns,
            sink_ids@.len() == nk,
            iface_ids@.len() == i3,
            i3 <= ni,
            s.slots@.len() == 1 + ns + nk + i3,
            forall|q: int| 0 <= q < ns ==> #[trigger] source_ids@[q] == 1 + q,
            forall|q: int| 0 <= q < nk ==> #[trigger] sink_ids@[q] == 1 + ns + q,
            forall|m: int| 0 <= m < i3 ==> #[trigger] iface_ids@[m] == 1 + ns + nk + m,
            forall|q: int|
                0 <= q < ns ==> #[trigger] external_loaded(
                    s,
                    soi.environment.sources@[q],
                    1 + q,
                    ExternalKind::Source,
                ),
            forall|q: int|
                0 <= q < nk ==> #[trigger] external_loaded(
                    s,
                    soi.environment.sinks@[q],
                    1 + ns + q,
                    ExternalKind::Sink,
                ),
            forall|m: int|
                0 <= m < i3 ==> #[trigger] interface_loaded(
                    s,
                    soi.boundary.interfaces@[m],
                    1 + ns + nk + m,
                ),
        decreases ni - i3,
    {
        let ghost prev = s;
        let rec = &soi.boundary.interfaces[i3];
        let angle = match rec.angle {
            Option::Some(a) => if -crate::elements::PI_MICRO <= a && a
                <= crate::elements::PI_MICRO {
                a
            } else {
                0
            },
            Option::None => 0,
        };
        proof {
            assert(angle == stored_angle(rec.angle));
        }
        let id = match s.spawn_interface(
            rec.kind,
            Option::None,
            0,
            Placement::AtAngle(angle),
            Transform::at_origin(),
            Point::zero(),
            false,
            clone_string(&rec.protocol),
            clone_string(&rec.info.name),
            clone_string(&rec.info.description),
        ) {
            Result::Ok(id) => id,
            Result::Err(_) => 0,
        };
        iface_ids.push(id);
        proof {
            assert forall|q: int|
                0 <= q < ns implies #[trigger] external_loaded(
                s,
                soi.environment.sources@[q],
                1 + q,
                ExternalKind::Source,
            ) by {
                assert(external_loaded(
                    prev,
                    soi.environment.sources@[q],
                    1 + q,
                    ExternalKind::Source,
                ));
                assert(s.slots@[1 + q] == prev.slots@[1 + q]);
            }
            assert forall|q: int|
                0 <= q < nk implies #[trigger] external_loaded(
                s,
                soi.environment.sinks@[q],
                1 + ns + q,
                ExternalKind::Sink,
            ) by {
                assert(external_loaded(prev, soi.environment.sinks@[q], 1 + ns + q, ExternalKind::Sink));
                assert(s.slots@[1 + ns + q] == prev.slots@[1 + ns + q]);
            }
            assert forall|m: int|
                0 <= m < i3 + 1 implies #[trigger] interface_loaded(
                s,
                soi.boundary.interfaces@[m],
                1 + ns + nk + m,
            ) by {
                if m < i3 {
                    assert(interface_loaded(prev, soi.boundary.interfaces@[m], 1 + ns + nk + m));
                    assert(s.slots@[1 + ns + nk + m] == prev.slots@[1 + ns + nk + m]);
                }
            }
        }
        i3 = i3 + 1;
    }
    // External interactions: a flow per record, attached through the
    // document's cross references.
    let ghost nf = soi.external_interactions@.len() as int;
    let mut i4: usize = 0;
    while i4 < soi.external_interactions.len()
        invariant
            s.wf(),
            s.root == 0,
            s.entry_at(0) == root_entry,
            s.live(0),
            ns < 0x100_0000,
            nk < 0x100_0000,
            ni < 0x100_0000,
            nf < 0x100_0000,
            ns == soi.environment.sources@.len(),
            nk == soi.environment.sinks@.len(),
            ni == soi.boundary.interfaces@.len(),
            nf == soi.external_interactions@.len(),
            source_ids@.len() == ns,
            sink_ids@.len() == nk,
            iface_ids@.len() == ni,
            i4 <= nf,
            s.slots@.len() == 1 + ns + nk + ni + i4,
            forall|q: int| 0 <= q < ns ==> #[trigger] source_ids@[q] == 1 + q,
            forall|q: int| 0 <= q < nk ==> #[trigger] sink_ids@[q] == 1 + ns + q,
            forall|m: int| 0 <= m < ni ==> #[trigger] iface_ids@[m] == 1 + ns + nk + m,
            forall|q: int|
                0 <= q < ns ==> #[trigger] external_loaded(
                    s,
                    soi.environment.sources@[q],
                    1 + q,
                    ExternalKind::Source,
                ),
            forall|q: int|
                0 <= q < nk ==> #[trigger] external_loaded(
                    s,
                    soi.environment.sinks@[q],
                    1 + ns + q,
                    ExternalKind::Sink,
                ),
            forall|m: int|
                0 <= m < ni ==> #[trigger] interface_loaded(
                    s,
                    soi.boundary.interfaces@[m],
                    1 + ns + nk + m,
                ),
            forall|m: int|
                0 <= m < i4 ==> #[trigger] interaction_loaded(
                    s,
                    soi.boundary.interfaces@,
                    soi.external_interactions@[m],
                    1 + ns + nk + ni + m,
                    ns,
                    nk,
                ),
        decreases nf - i4,
    {
        let ghost prev = s;
        let rec = &soi.external_interactions[i4];
        let is_inflow = matches!(rec.kind, DocInteractionKind::Inflow(_));
        let usability = match rec.kind {
            DocInteractionKind::Inflow(u) => u,
            DocInteractionKind::Outflow(u) => u,
        };
        let ext = resolve_external(
            &s,
            if is_inflow {
                &source_ids
            } else {
                &sink_ids
            },
            &rec.external_entity,
        );
        proof {
            assert(ext == resolved_external_slot(
                soi.external_interactions@[i4 as int],
                ns,
                nk,
            )) by {
                let rec0 = soi.external_interactions@[i4 as int];
                if rec0.external_entity.indices@.len() == 2 {
                    let k: int = rec0.external_entity.indices@[1] as int;
                    if is_inflow {
                        if 0 <= k < ns {
                            assert(source_ids@[k] == 1 + k);
                            assert(external_loaded(
                                s,
                                soi.environment.sources@[k],
                                1 + k,
                                ExternalKind::Source,
                            ));
                        }
                    } else {
                        if 0 <= k < nk {
                            assert(sink_ids@[k] == 1 + ns + k);
                            assert(external_loaded(
                                s,
                                soi.environment.sinks@[k],
                                1 + ns + k,
                                ExternalKind::Sink,
                            ));
                        }
                    }
                }
            }
        }
        let iface = resolve_interface(
            &s,
            &soi.boundary.interfaces,
            &iface_ids,
            &rec.external_entity,
            is_inflow,
        );
        proof {
            assert(iface == resolved_interface_slot(
                soi.boundary.interfaces@,
                soi.external_interactions@[i4 as int],
                ns,
                nk,
            )) by {
                let rec0 = soi.external_interactions@[i4 as int];
                lemma_first_listing_range(
                    soi.boundary.interfaces@,
                    rec0.external_entity,
                    is_inflow,
                    0,
                );
                match first_listing(soi.boundary.interfaces@, rec0.external_entity, is_inflow, 0) {
                    Option::Some(m0) => {
                        assert(0 <= m0 < ni);
                        assert(iface_ids@[m0] == 1 + ns + nk + m0);
                        assert(interface_loaded(
                            s,
                            soi.boundary.interfaces@[m0],
                            1 + ns + nk + m0,
                        ));
                    },
                    Option::None => {},
                }
            }
        }
        let (source, sink) = if is_inflow {
            (ext, iface)
        } else {
            (iface, ext)
        };
        let curve = FlowCurve {
            start: Point::zero(),
            end: Point::zero(),
            start_dir: Point::zero(),
            end_dir: Point::zero(),
        };
        let spawned = s.spawn_flow(
            rec.substance.kind,
            usability,
            0,
            matches!(usability, Usability::Product) || matches!(usability, Usability::Resource),
            source,
            sink,
            curve,
            clone_string(&rec.info.name),
            clone_string(&rec.info.description),
        );
        proof {
            assert(spawned is Ok);
            assert forall|q: int|
                0 <= q < ns implies #[trigger] external_loaded(
                s,
                soi.environment.sources@[q],
                1 + q,
                ExternalKind::Source,
            ) by {
                assert(external_loaded(
                    prev,
                    soi.environment.sources@[q],
                    1 + q,
                    ExternalKind::Source,
                ));
                assert(s.slots@[1 + q] == prev.slots@[1 + q]);
            }
            assert forall|q: int|
                0 <= q < nk implies #[trigger] external_loaded(
                s,
                soi.environment.sinks@[q],
                1 + ns + q,
                ExternalKind::Sink,
            ) by {
                assert(external_loaded(prev, soi.environment.sinks@[q], 1 + ns + q, ExternalKind::Sink));
                assert(s.slots@[1 + ns + q] == prev.slots@[1 + ns + q]);
            }
            assert forall|m: int|
                0 <= m < ni implies #[trigger] interface_loaded(
                s,
                soi.boundary.interfaces@[m],
                1 + ns + nk + m,
            ) by {
                assert(interface_loaded(prev, soi.boundary.interfaces@[m], 1 + ns + nk + m));
                assert(s.slots@[1 + ns + nk + m] == prev.slots@[1 + ns + nk + m]);
            }
            assert forall|m: int|
                0 <= m < i4 + 1 implies #[trigger] interaction_loaded(
                s,
                soi.boundary.interfaces@,
                soi.external_interactions@[m],
                1 + ns + nk + ni + m,
                ns,
                nk,
            ) by {
                if m < i4 {
                    assert(interaction_loaded(
                        prev,
                        soi.boundary.interfaces@,
                        soi.external_interactions@[m],
                        1 + ns + nk + ni + m,
                        ns,
                        nk,
                    ));
                    assert(s.slots@[1 + ns + nk + ni + m] == prev.slots@[1 + ns + nk + ni + m]);
                }
            }
        }
        i4 = i4 + 1;
    }
    s
}

/// Find the scene entity loaded for a persisted external entity id: the
/// listed entity at the record position its two-part index path names,
/// when that position holds a live external entity.
fn resolve_external(s: &Scene, ids: &Vec<EntityId>, ext_id: &DocId) -> (r: Endpoint)
    ensures
        r == (if ext_id.indices@.len() == 2 && 0 <= ext_id.indices@[1] < ids@.len()
            && s.is_external(ids@[ext_id.indices@[1] as int] as int) {
            Endpoint::OnExternal(ids@[ext_id.indices@[1] as int])
        } else {
            Endpoint::Unattached
        }),
{
    if ext_id.indices.len() == 2 {
        let k = ext_id.indices[1];
        if 0 <= k && (k as u64) < (ids.len() as u64) {
            let cand = ids[k as usize];
            proof {
                assert(k == ext_id.indices@[1]);
                assert(cand == ids@[ext_id.indices@[1] as int]);
            }
            if s.contains(cand) {
                let is_ext = match s.entry(cand) {
                    Result::Ok(e) => matches!(e.kind, Element::Ext(_)),
                    Result::Err(_) => false,
                };
                proof {
                    assert(is_ext == s.is_external(cand as int));
                }
                if is_ext {
                    return Endpoint::OnExternal(cand);
                }
            }
        }
    }
    Endpoint::Unattached
}

/// Find the interface loaded for the first interface record that lists
/// the given external entity id, searching `receives_from` for inflows
/// and `exports_to` for outflows.
fn resolve_interface(
    s: &Scene,
    recs: &Vec<DocInterface>,
    iface_ids: &Vec<EntityId>,
    ext_id: &DocId,
    inflow: bool,
) -> (r: Endpoint)
    ensures
        r == (match first_listing(recs@, *ext_id, inflow, 0) {
            Option::Some(m) => if m < iface_ids@.len() && s.is_interface(
                iface_ids@[m] as int,
            ) {
                Endpoint::OnInterface(iface_ids@[m])
            } else {
                Endpoint::Unattached
            },
            Option::None => Endpoint::Unattached,
        }),
{
    let mut m: usize = 0;
    while m < recs.len()
        invariant
            m <= recs@.len(),
            first_listing(recs@, *ext_id, inflow, 0) == first_listing(
                recs@,
                *ext_id,
                inflow,
                m as int,
            ),
        decreases recs@.len() - m,
    {
        let rec = &recs[m];
        let list = if inflow {
            &rec.receives_from
        } else {
            &rec.exports_to
        };
        let mut q: usize = 0;
        let mut hit = false;
        while q < list.len() && !hit
            invariant
                q <= list@.len(),
                list@ == dir_list(recs@[m as int], inflow),
                m < recs@.len(),
                hit ==> list_has_id(list@, *ext_id),
                !hit ==> forall|t: int| 0 <= t < q ==> !doc_id_eq(#[trigger] list@[t], *ext_id),
            decreases list@.len() - q + (if hit {
                0int
            } else {
                1int
            }),
        {
            if doc_id_matches(&list[q], ext_id) {
                proof {
                    assert(doc_id_eq(list@[q as int], *ext_id));
                }
                hit = true;
            } else {
                q = q + 1;
            }
        }
        if hit {
            proof {
                assert(first_listing(recs@, *ext_id, inflow, m as int) == Option::Some(
                    m as int,
                ));
            }
            if m < iface_ids.len() {
                let cand = iface_ids[m];
                if s.contains(cand) {
                    let ok = match s.entry(cand) {
                        Result::Ok(e) => matches!(e.kind, Element::Iface(_)),
                        Result::Err(_) => false,
                    };
                    if ok {
                        return Endpoint::OnInterface(cand);
                    }
                }
            }
            return Endpoint::Unattached;
        }
        proof {
            assert(!list_has_id(dir_list(recs@[m as int], inflow), *ext_id));
            assert(first_listing(recs@, *ext_id, inflow, m as int) == first_listing(
                recs@,
                *ext_id,
                inflow,
                m as int + 1,
            ));
        }
        m = m + 1;
    }
    Endpoint::Unattached
}

/// Whether two persisted ids name the same record.
pub fn doc_id_matches(a: &DocId, b: &DocId) -> (r: bool)
    ensures
        r == (a.kind == b.kind && a.indices@ == b.indices@),
{
    if !(a.kind == b.kind) {
        return false;
    }
    if a.indices.len() != b.indices.len() {
        proof {
            assert(a.indices@.len() != b.indices@.len());
        }
        return false;
    }
    let mut q: usize = 0;
    while q < a.indices.len()
        invariant
            q <= a.indices@.len(),
            a.indices@.len() == b.indices@.len(),
            forall|t: int| 0 <= t < q ==> a.indices@[t] == #[trigger] b.indices@[t],
        decreases a.indices@.len() - q,
    {
        if a.indices[q] != b.indices[q] {
            return false;
        }
        q = q + 1;
    }
    proof {
        assert(a.indices@ =~= b.indices@);
    }
    true
}

impl Scene {
    /// Overwrite the root's persisted attributes: its complexity and
    /// boundary parameters.
    pub fn set_root_details(
        &mut self,
        complexity: Complexity,
        porosity: u32,
        perceptive_fuzziness: u32,
        boundary_name: String,
        boundary_description: String,
    )
        requires
            old(self).wf(),
        ensures
            final(self).wf(),
            final(self).same_frame(*old(self)),
            final(self).slots@.len() == old(self).slots@.len(),
            final(self).sys_at(final(self).root as int).complexity == complexity,
            final(self).sys_at(final(self).root as int).porosity == porosity,
            final(self).sys_at(final(self).root as int).perceptive_fuzziness
                == perceptive_fuzziness,
            final(self).sys_at(final(self).root as int).boundary_name == boundary_name,
            final(self).sys_at(final(self).root as int).boundary_description
                == boundary_description,
            final(self).entry_at(final(self).root as int).name == old(self).entry_at(
                old(self).root as int,
            ).name,
            final(self).entry_at(final(self).root as int).description == old(self).entry_at(
                old(self).root as int,
            ).description,
            forall|k: int|
                0 <= k < old(self).slots@.len() && k != old(self).root ==> final(self).slots@[k]
                    == #[trigger] old(self).slots@[k],
    {
        proof {
            assert(old(self).wf_at(old(self).root as int));
        }
        let root = self.root;
        let e = self.slots[root].as_ref().unwrap().clone_entry();
        match e.kind {
            Element::Sys(d) => {
                let new_e = crate::scene::Entry {
                    kind: Element::Sys(
                        crate::elements::SystemData {
                            complexity,
                            porosity,
                            perceptive_fuzziness,
                            boundary_name,
                            boundary_description,
                            ..d
                        },
                    ),
                    ..e
                };
                self.slots[root] = Option::Some(new_e);
                proof {
                    assert forall|k: int| 0 <= k < self.slots@.len() implies #[trigger] self.wf_at(
                        k,
                    ) by {
                        assert(old(self).wf_at(k));
                        assert(old(self).wf_at(old(self).root as int));
                    }
                }
            },
            _ => {},
        }
    }
}

/// One persisted index.
fn one_index(a: i64) -> (r: Vec<i64>)
    ensures
        r@ == seq![a],
{
    let mut v: Vec<i64> = Vec::new();
    v.push(a);
    proof {
        assert(v@ =~= seq![a]);
    }
    v
}

/// Two persisted indices.
fn two_indices(a: i64, b: i64) -> (r: Vec<i64>)
    ensures
        r@ == seq![a, b],
{
    let mut v: Vec<i64> = Vec::new();
    v.push(a);
    v.push(b);
    proof {
        assert(v@ =~= seq![a, b]);
    }
    v
}

/// A singleton id list.
fn one_doc_id(id: DocId) -> (r: Vec<DocId>)
    ensures
        r@.len() == 1,
        r@[0] == id,
{
    let mut v: Vec<DocId> = Vec::new();
    v.push(id);
    v
}

/// Copy a persisted id so that the result provably equals the original.
pub fn clone_doc_id(id: &DocId) -> (r: DocId)
    ensures
        r.kind == id.kind,
        r.indices@ == id.indices@,
{
    let mut indices: Vec<i64> = Vec::new();
    let mut q: usize = 0;
    while q < id.indices.len()
        invariant
            q <= id.indices@.len(),
            indices@ == id.indices@.subrange(0, q as int),
        decreases id.indices@.len() - q,
    {
        indices.push(id.indices[q]);
        proof {
            assert(indices@ =~= id.indices@.subrange(0, q as int + 1));
        }
        q = q + 1;
    }
    proof {
        assert(id.indices@.subrange(0, id.indices@.len() as int) =~= id.indices@);
    }
    DocId { kind: id.kind, indices }
}

impl DocInterface {
    /// Copy an interface record field for field: every scalar field is
    /// kept, and the reference lists keep their ids position for
    /// position.
    pub fn clone_interface(&self) -> (r: DocInterface)
        ensures
            r.info.id.kind == self.info.id.kind,
            r.info.id.indices@ == self.info.id.indices@,
            r.info.level == self.info.level,
            r.info.name == self.info.name,
            r.info.description == self.info.description,
            r.protocol == self.protocol,
            r.kind == self.kind,
            r.angle == self.angle,
            r.receives_from@.len() == self.receives_from@.len(),
            forall|q: int|
                0 <= q < self.receives_from@.len() ==> doc_id_eq(
                    #[trigger] r.receives_from@[q],
                    self.receives_from@[q],
                ),
            r.exports_to@.len() == self.exports_to@.len(),
            forall|q: int|
                0 <= q < self.exports_to@.len() ==> doc_id_eq(
                    #[trigger] r.exports_to@[q],
                    self.exports_to@[q],
                ),
    {
        let mut rf: Vec<DocId> = Vec::new();
        let mut q: usize = 0;
        while q < self.receives_from.len()
            invariant
                q <= self.receives_from@.len(),
                rf@.len() == q,
                forall|t: int|
                    0 <= t < q ==> doc_id_eq(#[trigger] rf@[t], self.receives_from@[t]),
            decreases self.receives_from@.len() - q,
        {
            rf.push(clone_doc_id(&self.receives_from[q]));
            q = q + 1;
        }
        let mut et: Vec<DocId> = Vec::new();
        let mut q2: usize = 0;
        while q2 < self.exports_to.len()
            invariant
                q2 <= self.exports_to@.len(),
                et@.len() == q2,
                forall|t: int| 0 <= t < q2 ==> doc_id_eq(#[trigger] et@[t], self.exports_to@[t]),
            decreases self.exports_to@.len() - q2,
        {
            et.push(clone_doc_id(&self.exports_to[q2]));
            q2 = q2 + 1;
        }
        DocInterface {
            info: DocInfo {
                id: clone_doc_id(&self.info.id),
                level: self.info.level,
                name: clone_string(&self.info.name),
                description: clone_string(&self.info.description),
            },
            protocol: clone_string(&self.protocol),
            kind: self.kind,
            receives_from: rf,
            exports_to: et,
            angle: self.angle,
        }
    }
}

/// The placeholder document for an unreachable save path.
fn empty_doc_system() -> DocSystem {
    DocSystem {
        info: DocInfo {
            id: DocId { kind: IdKind::System, indices: one_index(0) },
            level: 0,
            name: String::new(),
            description: String::new(),
        },
        parent: Option::None,
        complexity: Complexity::Atomic,
        environment: DocEnvironment {
            info: DocInfo {
                id: DocId { kind: IdKind::Environment, indices: one_index(-1) },
                level: -1,
                name: String::new(),
                description: String::new(),
            },
            sources: Vec::new(),
            sinks: Vec::new(),
        },
        boundary: DocBoundary {
            info: DocInfo {
                id: DocId { kind: IdKind::Boundary, indices: one_index(0) },
                level: 0,
                name: String::new(),
                description: String::new(),
            },
            porosity: 0,
            perceptive_fuzziness: 0,
            interfaces: Vec::new(),
        },
        internal_interactions: Vec::new(),
        external_interactions: Vec::new(),
        components: Vec::new(),
        translation: Option::None,
    }
}

} // verus!
