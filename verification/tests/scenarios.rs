//! End-to-end scenarios: building scenes through the catalog, running the
//! invariants engine, saving and reloading documents, and driving the
//! import state machine.

use system_language::document::{load, DocInteractionKind, IdKind};
use system_language::elements::{
    Endpoint, FlowEnd, InterfaceKind, Placement, SubstanceType, Usability, PI_MICRO,
};
use system_language::geom::{FlowCurve, Point, Transform};
use system_language::import::{FileImportState, ImportAction, ImportEvent};
use system_language::layout::{zoom_in, zoom_out, ZOOM_MAX, ZOOM_MIN};
use system_language::scene::Scene;

fn origin_curve() -> FlowCurve {
    FlowCurve {
        start: Point { x: 0, y: 0 },
        end: Point { x: 0, y: 0 },
        start_dir: Point { x: 0, y: 0 },
        end_dir: Point { x: 0, y: 0 },
    }
}

fn flow_at(s: &Scene, id: usize) -> system_language::elements::FlowData {
    match &s.entry(id).unwrap().kind {
        system_language::elements::Element::Flow(d) => d.clone(),
        _ => panic!("not a flow"),
    }
}

fn sys_at(s: &Scene, id: usize) -> system_language::elements::SystemData {
    match &s.entry(id).unwrap().kind {
        system_language::elements::Element::Sys(d) => d.clone(),
        _ => panic!("not a system"),
    }
}

/// Create root; add an import interface at half a turn; add a source; add
/// a matter product flow. Saving yields one inflow interaction, one
/// source, and one interface that receives from that source.
#[test]
fn minimal_loop() {
    let mut s = Scene::new(300_000_000, String::from("root"), String::from("soi"));
    let flow = s
        .spawn_flow(
            SubstanceType::Matter,
            Usability::Product,
            1000,
            true,
            Endpoint::Unattached,
            Endpoint::Unattached,
            origin_curve(),
            String::from("inflow"),
            String::new(),
        )
        .unwrap();
    let iface = s
        .spawn_interface(
            InterfaceKind::Import,
            Some(flow),
            0,
            Placement::AtAngle(PI_MICRO),
            Transform::at_origin(),
            Point { x: 0, y: 0 },
            false,
            String::new(),
            String::from("port"),
            String::new(),
        )
        .unwrap();
    let source = s
        .spawn_external_entity(
            InterfaceKind::Import,
            Some(flow),
            0,
            Transform::at_origin(),
            Point { x: 0, y: 0 },
            false,
            String::from("well"),
            String::new(),
        )
        .unwrap();
    s.run_engine();
    assert!(!flow_at(&s, flow).incomplete);
    assert_eq!(flow_at(&s, flow).sink, Endpoint::OnInterface(iface));
    assert_eq!(flow_at(&s, flow).source, Endpoint::OnExternal(source));

    let doc = s.save();
    let soi = &doc.system_of_interest;
    assert_eq!(soi.info.name, "root");
    assert_eq!(soi.external_interactions.len(), 1);
    assert!(matches!(
        soi.external_interactions[0].kind,
        DocInteractionKind::Inflow(Usability::Product)
    ));
    assert_eq!(soi.environment.sources.len(), 1);
    assert_eq!(soi.environment.sources[0].info.name, "well");
    assert_eq!(soi.environment.sinks.len(), 0);
    assert_eq!(soi.boundary.interfaces.len(), 1);
    let rec = &soi.boundary.interfaces[0];
    assert_eq!(rec.receives_from.len(), 1);
    assert_eq!(rec.receives_from[0].kind, IdKind::Source);
    assert_eq!(rec.receives_from[0].indices, vec![-1, 0]);
    assert_eq!(rec.angle, Some(PI_MICRO));
}

/// Starting from the minimal loop, add an export interface at angle zero,
/// a sink, and an energy waste flow. Saving and reloading keeps the
/// element counts and the endpoint attachments.
#[test]
fn cross_boundary_export() {
    let mut s = Scene::new(300_000_000, String::from("root"), String::new());
    let f1 = s
        .spawn_flow(
            SubstanceType::Matter,
            Usability::Product,
            1000,
            true,
            Endpoint::Unattached,
            Endpoint::Unattached,
            origin_curve(),
            String::from("in"),
            String::new(),
        )
        .unwrap();
    s.spawn_interface(
        InterfaceKind::Import,
        Some(f1),
        0,
        Placement::AtAngle(PI_MICRO),
        Transform::at_origin(),
        Point { x: 0, y: 0 },
        false,
        String::new(),
        String::from("in port"),
        String::new(),
    )
    .unwrap();
    s.spawn_external_entity(
        InterfaceKind::Import,
        Some(f1),
        0,
        Transform::at_origin(),
        Point { x: 0, y: 0 },
        false,
        String::from("src"),
        String::new(),
    )
    .unwrap();
    let f2 = s
        .spawn_flow(
            SubstanceType::Energy,
            Usability::Waste,
            2500,
            false,
            Endpoint::Unattached,
            Endpoint::Unattached,
            origin_curve(),
            String::from("out"),
            String::new(),
        )
        .unwrap();
    s.spawn_interface(
        InterfaceKind::Export,
        Some(f2),
        0,
        Placement::AtAngle(0),
        Transform::at_origin(),
        Point { x: 0, y: 0 },
        false,
        String::new(),
        String::from("out port"),
        String::new(),
    )
    .unwrap();
    s.spawn_external_entity(
        InterfaceKind::Export,
        Some(f2),
        0,
        Transform::at_origin(),
        Point { x: 0, y: 0 },
        false,
        String::from("snk"),
        String::new(),
    )
    .unwrap();
    s.run_engine();
    let doc = s.save();
    assert_eq!(doc.system_of_interest.external_interactions.len(), 2);
    assert_eq!(doc.system_of_interest.environment.sources.len(), 1);
    assert_eq!(doc.system_of_interest.environment.sinks.len(), 1);
    assert_eq!(doc.system_of_interest.boundary.interfaces.len(), 2);

    let reloaded = load(&doc);
    let doc2 = reloaded.save();
    assert_eq!(doc2.system_of_interest.external_interactions.len(), 2);
    assert_eq!(doc2.system_of_interest.environment.sources.len(), 1);
    assert_eq!(doc2.system_of_interest.environment.sinks.len(), 1);
    assert_eq!(doc2.system_of_interest.boundary.interfaces.len(), 2);
    assert!(matches!(
        doc2.system_of_interest.external_interactions[0].kind,
        DocInteractionKind::Inflow(Usability::Product)
    ));
    assert!(matches!(
        doc2.system_of_interest.external_interactions[1].kind,
        DocInteractionKind::Outflow(Usability::Waste)
    ));
    assert_eq!(
        doc2.system_of_interest.external_interactions[0].info.name,
        doc.system_of_interest.external_interactions[0].info.name
    );
}

/// A root with one inflow ending on an interface; a subsystem created
/// with that flow in its inflow list gets a fresh interface on its
/// circumference along the flow line, the flow is re-terminated there,
/// and the original interface keeps its place.
#[test]
fn subsystem_reattach() {
    let mut s = Scene::new(300_000_000, String::from("root"), String::new());
    let flow = s
        .spawn_flow(
            SubstanceType::Matter,
            Usability::Product,
            1000,
            true,
            Endpoint::Unattached,
            Endpoint::Unattached,
            FlowCurve {
                start: Point {
                    x: 50_000_000,
                    y: 50_000_000,
                },
                end: Point { x: 0, y: 0 },
                start_dir: Point { x: 0, y: 0 },
                end_dir: Point { x: 0, y: 0 },
            },
            String::from("f"),
            String::new(),
        )
        .unwrap();
    let i0 = s
        .spawn_interface(
            InterfaceKind::Import,
            Some(flow),
            0,
            Placement::AtAngle(0),
            Transform::at_origin(),
            Point { x: 0, y: 0 },
            false,
            String::new(),
            String::from("i0"),
            String::new(),
        )
        .unwrap();
    assert_eq!(flow_at(&s, flow).sink, Endpoint::OnInterface(i0));

    let sub = s
        .spawn_subsystem(
            0,
            &vec![flow],
            &vec![],
            Point { x: 10_000_000, y: 0 },
            String::from("sub"),
            String::new(),
        )
        .unwrap();
    let new_iface = sub + 1;
    let fd = flow_at(&s, flow);
    assert_eq!(fd.sink, Endpoint::OnInterface(new_iface));
    match &s.entry(new_iface).unwrap().kind {
        system_language::elements::Element::Iface(d) => {
            assert_eq!(d.parent_system, sub);
            assert_eq!(d.kind, InterfaceKind::Import);
            match d.placement {
                Placement::AlongDirection { dx, dy } => {
                    assert_eq!(dx, 50_000_000 - 10_000_000);
                    assert_eq!(dy, 50_000_000);
                }
                _ => panic!("expected a direction placement"),
            }
        }
        _ => panic!("expected an interface"),
    }
    // The original interface still sits on the root, untouched.
    match &s.entry(i0).unwrap().kind {
        system_language::elements::Element::Iface(d) => {
            assert_eq!(d.parent_system, 0);
            assert_eq!(d.placement, Placement::AtAngle(0));
        }
        _ => panic!("expected an interface"),
    }
    // The subsystem sits one level down at a quarter radius.
    let sd = sys_at(&s, sub);
    assert_eq!(sd.nesting_level, 1);
    assert_eq!(sd.radius, 300_000_000 / 4);
}

/// Three inflows of amounts one, two and three attached to the same
/// interface sum to six; deleting the middle flow leaves four.
#[test]
fn interface_aggregation() {
    let mut s = Scene::new(300_000_000, String::from("root"), String::new());
    let iface = s
        .spawn_interface(
            InterfaceKind::Import,
            None,
            0,
            Placement::AtAngle(0),
            Transform::at_origin(),
            Point { x: 0, y: 0 },
            false,
            String::new(),
            String::from("agg"),
            String::new(),
        )
        .unwrap();
    let mut flows = vec![];
    for amount in [1000u64, 2000, 3000] {
        let f = s
            .spawn_flow(
                SubstanceType::Matter,
                Usability::Product,
                amount,
                true,
                Endpoint::Unattached,
                Endpoint::OnInterface(iface),
                origin_curve(),
                String::from("f"),
                String::new(),
            )
            .unwrap();
        flows.push(f);
    }
    let sub = s
        .spawn_interface_subsystem(false, iface, 0, String::from("inside"), String::new())
        .unwrap();
    // The left-anchored default: one subsystem radius to the left of the
    // disk center, scaled by the unit zoom.
    let entry = s.entry(sub).unwrap();
    assert_eq!(entry.transform.translation, Point { x: -75_000_000, y: 0 });
    assert_eq!(entry.initial_position, Some(Point { x: -75_000_000, y: 0 }));
    let agg = sys_at(&s, sub).aggregate.unwrap();
    assert_eq!(agg.total_inflow, 6000);
    assert_eq!(agg.total_outflow, 0);
    assert!(agg.is_import);
    assert!(!agg.is_export);

    s.delete_flow(flows[1]).unwrap();
    s.run_engine();
    let agg2 = sys_at(&s, sub).aggregate.unwrap();
    assert_eq!(agg2.total_inflow, 4000);
}

/// A flow spawned with its sink unattached is marked incomplete; after
/// the sink is attached the next engine pass clears the marker.
#[test]
fn incomplete_flow() {
    let mut s = Scene::new(300_000_000, String::from("root"), String::new());
    let source = s
        .spawn_external_entity(
            InterfaceKind::Import,
            None,
            0,
            Transform::at_origin(),
            Point { x: 0, y: 0 },
            false,
            String::from("src"),
            String::new(),
        )
        .unwrap();
    let flow = s
        .spawn_flow(
            SubstanceType::Message,
            Usability::Resource,
            500,
            true,
            Endpoint::OnExternal(source),
            Endpoint::Unattached,
            origin_curve(),
            String::from("f"),
            String::new(),
        )
        .unwrap();
    assert!(flow_at(&s, flow).incomplete);
    s.run_engine();
    assert!(flow_at(&s, flow).incomplete);

    let sink = s
        .spawn_external_entity(
            InterfaceKind::Export,
            None,
            0,
            Transform::at_origin(),
            Point { x: 0, y: 0 },
            false,
            String::from("snk"),
            String::new(),
        )
        .unwrap();
    s.attach_endpoint(flow, FlowEnd::Sink, Endpoint::OnExternal(sink))
        .unwrap();
    assert!(flow_at(&s, flow).incomplete);
    s.run_engine();
    assert!(!flow_at(&s, flow).incomplete);
}

/// Deleting a system with two interfaces leaves exactly the two flows
/// that ended on them incomplete, and deletes no flow.
#[test]
fn delete_cascade() {
    let mut s = Scene::new(300_000_000, String::from("root"), String::new());
    let sub = s
        .spawn_subsystem(
            0,
            &vec![],
            &vec![],
            Point { x: 0, y: 0 },
            String::from("sub"),
            String::new(),
        )
        .unwrap();
    let mut flows = vec![];
    for _ in 0..2 {
        let iface = s
            .spawn_interface(
                InterfaceKind::Import,
                None,
                sub,
                Placement::AtAngle(0),
                Transform::at_origin(),
                Point { x: 0, y: 0 },
                false,
                String::new(),
                String::from("i"),
                String::new(),
            )
            .unwrap();
        let f = s
            .spawn_flow(
                SubstanceType::Matter,
                Usability::Product,
                1000,
                true,
                Endpoint::Unattached,
                Endpoint::OnInterface(iface),
                origin_curve(),
                String::from("f"),
                String::new(),
            )
            .unwrap();
        flows.push(f);
    }
    let untouched = s
        .spawn_flow(
            SubstanceType::Energy,
            Usability::Waste,
            1,
            false,
            Endpoint::Unattached,
            Endpoint::Unattached,
            origin_curve(),
            String::from("loose"),
            String::new(),
        )
        .unwrap();
    s.delete_system(sub).unwrap();
    let mut incomplete_after = 0;
    for f in &flows {
        let d = flow_at(&s, *f);
        assert!(d.incomplete);
        assert_eq!(d.sink, Endpoint::Unattached);
        incomplete_after += 1;
    }
    assert_eq!(incomplete_after, 2);
    assert!(s.entry(untouched).is_ok());
    assert!(s.entry(sub).is_err());
}

/// The zoom never leaves its clamp range, and presses at a bound stay
/// there.
#[test]
fn zoom_clamped() {
    let mut z = 100u32;
    for _ in 0..40 {
        z = zoom_in(z);
        assert!(z >= ZOOM_MIN && z <= ZOOM_MAX);
    }
    assert_eq!(z, ZOOM_MAX);
    z = zoom_in(z);
    assert_eq!(z, ZOOM_MAX);
    for _ in 0..60 {
        z = zoom_out(z);
        assert!(z >= ZOOM_MIN && z <= ZOOM_MAX);
    }
    assert_eq!(z, ZOOM_MIN);
    z = zoom_out(z);
    assert_eq!(z, ZOOM_MIN);
}

/// Running the engine twice without intervening edits changes nothing.
#[test]
fn engine_idempotent() {
    let mut s = Scene::new(300_000_000, String::from("root"), String::new());
    let iface = s
        .spawn_interface(
            InterfaceKind::Import,
            None,
            0,
            Placement::AtAngle(1000),
            Transform::at_origin(),
            Point { x: 0, y: 0 },
            false,
            String::new(),
            String::from("i"),
            String::new(),
        )
        .unwrap();
    s.spawn_flow(
        SubstanceType::Matter,
        Usability::Product,
        1000,
        true,
        Endpoint::Unattached,
        Endpoint::OnInterface(iface),
        origin_curve(),
        String::from("f"),
        String::new(),
    )
    .unwrap();
    s.spawn_interface_subsystem(false, iface, 0, String::from("inside"), String::new())
        .unwrap();
    s.run_engine();
    let count_one = s.slots.len();
    let labels: usize = s
        .slots
        .iter()
        .filter(|e| match e {
            Some(entry) => matches!(
                entry.kind,
                system_language::elements::Element::Label(_)
            ),
            None => false,
        })
        .count();
    assert_eq!(labels, 1);
    let doc_one = s.save();
    s.run_engine();
    assert_eq!(s.slots.len(), count_one);
    let doc_two = s.save();
    assert_eq!(
        doc_one.system_of_interest.external_interactions.len(),
        doc_two.system_of_interest.external_interactions.len()
    );
    assert_eq!(
        doc_one.system_of_interest.boundary.interfaces.len(),
        doc_two.system_of_interest.boundary.interfaces.len()
    );
}

/// The import machine walks its phases and a dismissed dialog resets it.
#[test]
fn import_cancel() {
    let s0 = FileImportState::Inactive;
    let (s1, a1) = s0.step(ImportEvent::Requested);
    assert_eq!(s1, FileImportState::Select);
    assert_eq!(a1, ImportAction::OpenDialog);
    let (s2, a2) = s1.step(ImportEvent::DialogOpened);
    assert_eq!(s2, FileImportState::Poll);
    assert_eq!(a2, ImportAction::PollTask);
    let (s3, a3) = s2.step(ImportEvent::DialogCancelled);
    assert_eq!(s3, FileImportState::Inactive);
    assert_eq!(a3, ImportAction::Discard);
    // A full pass reaches inactive again.
    let (p1, _) = s2.step(ImportEvent::FileChosen);
    assert_eq!(p1, FileImportState::Load);
    let (p2, _) = p1.step(ImportEvent::Loaded);
    assert_eq!(p2, FileImportState::CleanUp);
    let (p3, _) = p2.step(ImportEvent::CleanedUp);
    assert_eq!(p3, FileImportState::Inactive);
    // Reset applies from any phase.
    assert_eq!(p1.step(ImportEvent::Reset).0, FileImportState::Inactive);
    assert_eq!(p1.next(), FileImportState::CleanUp);
    assert_eq!(p1.reset(), FileImportState::Inactive);
}

/// The round trip through the document keeps the root's persisted
/// attributes and the interaction names.
#[test]
fn document_round_trip_fields() {
    let mut s = Scene::new(
        300_000_000,
        String::from("plant"),
        String::from("a description"),
    );
    let f = s
        .spawn_flow(
            SubstanceType::Energy,
            Usability::Resource,
            750,
            true,
            Endpoint::Unattached,
            Endpoint::Unattached,
            origin_curve(),
            String::from("feed"),
            String::new(),
        )
        .unwrap();
    s.spawn_interface(
        InterfaceKind::Import,
        Some(f),
        0,
        Placement::AtAngle(1_570_796),
        Transform::at_origin(),
        Point { x: 0, y: 0 },
        false,
        String::from("proto"),
        String::from("gate"),
        String::new(),
    )
    .unwrap();
    s.spawn_external_entity(
        InterfaceKind::Import,
        Some(f),
        0,
        Transform::at_origin(),
        Point { x: 0, y: 0 },
        false,
        String::from("grid"),
        String::new(),
    )
    .unwrap();
    let doc = s.save();
    let r = load(&doc);
    assert_eq!(r.entry(0).unwrap().name, "plant");
    assert_eq!(r.entry(0).unwrap().description, "a description");
    let doc2 = r.save();
    assert_eq!(doc2.system_of_interest.info.name, "plant");
    assert_eq!(doc2.system_of_interest.external_interactions.len(), 1);
    assert_eq!(
        doc2.system_of_interest.external_interactions[0].info.name,
        "feed"
    );
    assert_eq!(doc2.system_of_interest.boundary.interfaces[0].protocol, "proto");
    assert_eq!(
        doc2.system_of_interest.boundary.interfaces[0].angle,
        Some(1_570_796)
    );
    assert_eq!(doc2.system_of_interest.environment.sources[0].info.name, "grid");
}
