use sl_viewer_world_api::schedule_order::{NodeId, PipelineFault, ScheduleGraph, ScheduleOrder, Stage};
use std::collections::HashMap;

/// Systems of types 1..=4 keyed 10..=40.
fn keys() -> HashMap<u64, u64> {
    let mut keys = HashMap::new();
    for t in 1..=4u64 {
        let _ = keys.insert(t, t * 10);
    }
    keys
}

fn stage(name: &'static str, system_type: u64) -> Stage {
    Stage { name, system_type }
}

#[test]
fn a_chained_pipeline_passes() {
    let graph = ScheduleGraph {
        dependency: vec![
            (NodeId::System(10), NodeId::System(20)),
            (NodeId::System(20), NodeId::System(30)),
        ],
        hierarchy: HashMap::new(),
    };
    let order = ScheduleOrder::from_graph(keys(), &graph);
    assert_eq!(order.check_pipeline(&[stage("a", 1), stage("b", 2), stage("c", 3)]), Ok(()));
    // Ordering is transitive: the first stage runs before the third.
    assert_eq!(order.check_pipeline(&[stage("a", 1), stage("c", 3)]), Ok(()));
}

#[test]
fn an_unordered_pair_is_the_fault() {
    let graph = ScheduleGraph { dependency: vec![(NodeId::System(10), NodeId::System(20))], hierarchy: HashMap::new() };
    let order = ScheduleOrder::from_graph(keys(), &graph);
    assert_eq!(
        order.check_pipeline(&[stage("a", 1), stage("b", 2), stage("c", 3)]),
        Err(PipelineFault::Unordered { earlier: 1, later: 2 })
    );
    // The reverse direction is not an ordering.
    assert_eq!(
        order.check_pipeline(&[stage("b", 2), stage("a", 1)]),
        Err(PipelineFault::Unordered { earlier: 0, later: 1 })
    );
}

#[test]
fn a_stage_missing_from_the_schedule_is_the_fault() {
    let graph = ScheduleGraph { dependency: vec![], hierarchy: HashMap::new() };
    let order = ScheduleOrder::from_graph(keys(), &graph);
    assert_eq!(order.check_pipeline(&[stage("ghost", 9)]), Err(PipelineFault::Missing { stage: 0 }));
    // A lone stage that is in the schedule orders against nothing.
    assert_eq!(order.check_pipeline(&[stage("a", 1)]), Ok(()));
    assert_eq!(order.check_pipeline(&[]), Ok(()));
}

#[test]
fn an_edge_between_sets_orders_every_system_beneath_them() {
    // Set 100 holds system 10 and set 101, which holds system 20; set 200
    // holds system 30. An edge from set 100 to set 200 orders both 10 and 20
    // before 30.
    let mut hierarchy = HashMap::new();
    let _ = hierarchy.insert(100u64, vec![NodeId::System(10), NodeId::SystemSet(101)]);
    let _ = hierarchy.insert(101u64, vec![NodeId::System(20)]);
    let _ = hierarchy.insert(200u64, vec![NodeId::System(30)]);
    let graph = ScheduleGraph { dependency: vec![(NodeId::SystemSet(100), NodeId::SystemSet(200))], hierarchy };
    let order = ScheduleOrder::from_graph(keys(), &graph);
    assert_eq!(order.check_pipeline(&[stage("a", 1), stage("c", 3)]), Ok(()));
    assert_eq!(order.check_pipeline(&[stage("b", 2), stage("c", 3)]), Ok(()));
    assert_eq!(
        order.check_pipeline(&[stage("a", 1), stage("b", 2)]),
        Err(PipelineFault::Unordered { earlier: 0, later: 1 }),
        "two systems in one set are not ordered against each other"
    );
}

#[test]
fn a_cycle_in_the_edges_still_terminates() {
    let graph = ScheduleGraph {
        dependency: vec![
            (NodeId::System(10), NodeId::System(20)),
            (NodeId::System(20), NodeId::System(10)),
        ],
        hierarchy: HashMap::new(),
    };
    let order = ScheduleOrder::from_graph(keys(), &graph);
    assert_eq!(
        order.check_pipeline(&[stage("a", 1), stage("d", 4)]),
        Err(PipelineFault::Unordered { earlier: 0, later: 1 })
    );
    assert_eq!(order.check_pipeline(&[stage("a", 1), stage("b", 2), stage("a", 1)]), Ok(()));
}
