//! The structural guarantees of a well-formed scene, stated on their own
//! so a reader finds them in one place. Each follows from the scene
//! invariant that every editing operation preserves, or from the settled
//! state the invariants engine restores.

use vstd::prelude::*;
use crate::elements::{Placement, PI_MICRO};
use crate::scene::{Scene, SUBSYSTEM_RADIUS_DIVISOR};

verus! {

/// A well-formed scene has exactly one root system: any live system
/// without a parent is the System of Interest, which is live, parentless
/// and at nesting level 0.
pub proof fn lemma_single_root(s: Scene, i: int)
    requires
        s.wf(),
        s.is_system(i),
        s.sys_at(i).parent_system is None,
    ensures
        i == s.root,
        s.is_system(s.root as int),
        s.sys_at(s.root as int).parent_system is None,
        s.sys_at(s.root as int).nesting_level == 0,
{
    assert(s.wf_at(i));
}

/// Every interface sits on a live parent system, and an interface placed
/// by angle keeps that angle within the half-open turn.
pub proof fn lemma_interface_anchored(s: Scene, i: int)
    requires
        s.wf(),
        s.is_interface(i),
    ensures
        s.is_system(s.iface_at(i).parent_system as int),
        match s.iface_at(i).placement {
            Placement::AtAngle(a) => -PI_MICRO <= a <= PI_MICRO,
            Placement::AlongDirection { dx, dy } => !(dx == 0 && dy == 0),
        },
{
    assert(s.wf_at(i));
}

/// A flow that is not marked incomplete has both endpoints attached; a
/// flow with an unattached endpoint always carries the marker.
pub proof fn lemma_flow_completion(s: Scene, j: int)
    requires
        s.wf(),
        s.is_flow(j),
    ensures
        !s.flow_at(j).incomplete ==> s.flow_at(j).source.is_attached() && s.flow_at(
            j,
        ).sink.is_attached(),
        !(s.flow_at(j).source.is_attached() && s.flow_at(j).sink.is_attached()) ==> s.flow_at(
            j,
        ).incomplete,
{
    assert(s.wf_at(j));
}

/// After an engine pass the marker is exact in both directions: a flow is
/// incomplete exactly when an endpoint is unattached.
pub proof fn lemma_flow_completion_settled(s: Scene, j: int)
    requires
        s.engine_stable(),
        s.is_flow(j),
    ensures
        s.flow_at(j).incomplete == !(s.flow_at(j).source.is_attached() && s.flow_at(
            j,
        ).sink.is_attached()),
{
    assert(s.settled_at(j));
}

/// After an engine pass every interface subsystem's totals equal the sums
/// of the flow amounts crossing its interface, its inflow over the flows
/// whose sink is the interface and its outflow over those whose source
/// is, and it carries the substance type and usefulness of the last
/// crossing flow.
pub proof fn lemma_aggregation(s: Scene, k: int)
    requires
        s.engine_stable(),
        s.is_interface_subsystem(k),
    ensures
        s.sys_at(k).aggregate->0.total_inflow == s.inflow_sum(
            s.sys_at(k).aggregate->0.interface,
            s.slots@.len() as int,
        ),
        s.sys_at(k).aggregate->0.total_outflow == s.outflow_sum(
            s.sys_at(k).aggregate->0.interface,
            s.slots@.len() as int,
        ),
        s.sys_at(k).aggregate->0.substance_type == s.crossing_substance(
            s.sys_at(k).aggregate->0.interface,
            s.slots@.len() as int,
        ),
        s.sys_at(k).aggregate->0.is_useful == s.crossing_useful(
            s.sys_at(k).aggregate->0.interface,
            s.slots@.len() as int,
        ),
{
    assert(s.settled_at(k));
}

/// Every subsystem is one nesting level below its parent and a quarter of
/// its radius.
pub proof fn lemma_subsystem_scaling(s: Scene, i: int)
    requires
        s.wf(),
        s.is_subsystem(i),
    ensures
        s.is_system(s.sys_at(i).parent_system->0 as int),
        s.sys_at(i).nesting_level == s.sys_at(s.sys_at(i).parent_system->0 as int).nesting_level
            + 1,
        s.sys_at(i).radius == s.sys_at(s.sys_at(i).parent_system->0 as int).radius
            / SUBSYSTEM_RADIUS_DIVISOR,
{
    assert(s.wf_at(i));
}

/// A subsystem drawn inside its interface sits strictly below it.
pub proof fn lemma_interface_subsystem_layer(s: Scene, i: int)
    requires
        s.wf(),
        s.is_system(i),
        s.sys_at(i).is_child_of_interface,
        s.sys_at(i).parent_system is Some,
    ensures
        s.sys_at(i).aggregate is Some,
        s.entry_at(i).transform.z < s.entry_at(
            s.sys_at(i).aggregate->0.interface as int,
        ).transform.z,
{
    assert(s.wf_at(i));
}

/// After an engine pass, a flow whose endpoints were both attached going
/// in keeps them and sheds its incomplete marker: completing a flow is
/// sealed by the following pass.
pub proof fn lemma_pass_clears_completed_flow(pre: Scene, post: Scene, j: int)
    requires
        post.engine_rel(pre, j),
        post.engine_stable(),
        pre.is_flow(j),
        pre.flow_at(j).source.is_attached(),
        pre.flow_at(j).sink.is_attached(),
        0 <= j < post.slots@.len(),
    ensures
        post.is_flow(j),
        post.flow_at(j).source == pre.flow_at(j).source,
        post.flow_at(j).sink == pre.flow_at(j).sink,
        !post.flow_at(j).incomplete,
{
    assert(!pre.stale_helper(j));
    assert(post.settle_rel(pre, j));
    assert(post.settled_at(j));
}

/// Every subsystem has exactly one label after a pass on a scene whose
/// labels were unique: one exists, and any two labels naming it
/// coincide.
pub proof fn lemma_exactly_one_label(s: Scene, k: int, l1: int, l2: int)
    requires
        s.engine_stable(),
        s.labels_unique(),
        s.is_subsystem(k),
        0 <= l1 < s.slots@.len(),
        0 <= l2 < s.slots@.len(),
        s.live(l1),
        s.live(l2),
        s.entry_at(l1).kind is Label,
        s.entry_at(l2).kind is Label,
        s.entry_at(l1).kind->Label_0.target == k,
        s.entry_at(l2).kind->Label_0.target == k,
    ensures
        s.has_label(k),
        l1 == l2,
{
}

/// Every selected interface, flow or external entity has exactly one
/// helper after a pass on a scene whose helpers were unique.
pub proof fn lemma_exactly_one_helper(s: Scene, k: int, l1: int, l2: int)
    requires
        s.engine_stable(),
        s.helpers_unique(),
        s.helper_eligible(k),
        s.entry_at(k).selected,
        0 <= l1 < s.slots@.len(),
        0 <= l2 < s.slots@.len(),
        s.live(l1),
        s.live(l2),
        s.entry_at(l1).kind is Helper,
        s.entry_at(l2).kind is Helper,
        s.entry_at(l1).kind->Helper_0.target == k,
        s.entry_at(l2).kind->Helper_0.target == k,
    ensures
        s.has_helper(k),
        l1 == l2,
{
}

} // verus!
