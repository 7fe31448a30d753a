use mimofan_core::fleet::collector::{duration_saturating_add, ObservabilityCollector, TaskDuration};
use mimofan_core::fleet::observability::AgentTopology;

#[test]
fn test_topology_basics() {
    let mut topo = AgentTopology::new();
    topo.register("root".into(), "child1".into());
    topo.register("root".into(), "child2".into());
    topo.register("child1".into(), "grandchild".into());

    assert_eq!(topo.total_agents(), 4);
    assert_eq!(topo.depth("root"), 2);
    assert_eq!(topo.depth("child1"), 1);
    assert_eq!(topo.depth("grandchild"), 0);
    assert_eq!(topo.roots().len(), 1);
    assert_eq!(topo.children("root").len(), 2);
}

#[test]
fn roots_come_in_key_order_and_reparenting_moves_a_child() {
    let mut topo = AgentTopology::new();
    topo.register("zeta".into(), "z1".into());
    topo.register("alpha".into(), "a1".into());
    topo.register("mid".into(), "m1".into());
    let roots: Vec<&String> = topo.roots();
    assert_eq!(roots, vec!["alpha", "mid", "zeta"]);
    topo.register("alpha".into(), "mid".into());
    let roots: Vec<&String> = topo.roots();
    assert_eq!(roots, vec!["alpha", "zeta"]);
    assert_eq!(topo.depth("alpha"), 2);
    assert_eq!(topo.children("alpha"), vec!["a1", "mid"]);
    assert!(topo.children("nobody").is_empty());
    assert_eq!(topo.total_agents(), 6);
}

#[test]
fn test_metrics_aggregation() {
    let mut collector = ObservabilityCollector::new();
    collector.record_task_start("task1");
    collector.record_task_completion("agent1", "task1", true, Some(128));
    collector.record_task_start("task2");
    collector.record_task_completion("agent1", "task2", false, Some(256));

    let summary = collector.summary();
    assert_eq!(summary.total_agents, 1);
    assert_eq!(summary.completed_tasks, 1);
    assert_eq!(summary.failed_tasks, 1);
}

#[test]
fn summary_counts_agents_tasks_and_depth() {
    let mut collector = ObservabilityCollector::default();
    collector.record_parent_child("lead".to_string(), "w1".to_string());
    collector.record_parent_child("lead".to_string(), "w2".to_string());
    collector.record_parent_child("w1".to_string(), "helper".to_string());
    collector.record_task_completion("w1", "never-started", true, None);
    collector.record_task_completion("w2", "t", false, Some(64));
    collector.record_task_completion("w2", "u", true, Some(32));
    collector.record_task_completion("solo", "v", true, None);
    let summary = collector.summary();
    assert_eq!(summary.total_agents, 5);
    assert_eq!(summary.topology_depth, 2);
    assert_eq!(summary.running_agents, 0);
    assert_eq!(summary.completed_agents, 2);
    assert_eq!(summary.failed_agents, 1);
    assert_eq!(summary.total_tasks, 4);
    assert_eq!(summary.completed_tasks, 3);
    assert_eq!(summary.failed_tasks, 1);
    assert_eq!(summary.total_duration, TaskDuration { secs: 0, nanos: 0 });
    let ids: Vec<&str> = summary.agents.iter().map(|a| a.agent_id.as_str()).collect();
    assert_eq!(ids, vec!["solo", "w1", "w2"]);
    assert_eq!(summary.agents[2].peak_memory_mb, Some(64));
    assert_eq!(summary.agents[2].tasks_failed, 1);
}

#[test]
fn started_tasks_accumulate_time() {
    let mut collector = ObservabilityCollector::new();
    collector.record_task_start("job");
    collector.record_task_completion("a", "job", true, None);
    let summary = collector.summary();
    assert!(summary.total_duration.nanos < 1_000_000_000);
    assert_eq!(summary.agents[0].avg_duration, summary.agents[0].total_duration);
}

#[test]
fn topology_is_drawn_as_a_tree() {
    let mut collector = ObservabilityCollector::new();
    collector.record_parent_child("root".to_string(), "a".to_string());
    collector.record_parent_child("root".to_string(), "b".to_string());
    collector.record_parent_child("a".to_string(), "a1".to_string());
    collector.record_task_completion("a", "t1", true, None);
    collector.record_task_completion("b", "t2", false, None);
    let drawn = collector.format_topology();
    assert_eq!(
        drawn,
        "○ root\n├─✓ a [1ok/0fail]\n│ └─○ a1\n└─✗ b [0ok/1fail]"
    );
}

#[test]
fn empty_topology_draws_nothing() {
    let collector = ObservabilityCollector::new();
    assert_eq!(collector.format_topology(), "");
    assert_eq!(collector.topology().total_agents(), 0);
    let summary = collector.summary();
    assert_eq!(summary.total_agents, 0);
    assert_eq!(summary.topology_depth, 0);
}

#[test]
fn saturating_duration_addition() {
    let a = TaskDuration { secs: 1, nanos: 600_000_000 };
    let b = TaskDuration { secs: 2, nanos: 500_000_000 };
    assert_eq!(duration_saturating_add(a, b), TaskDuration { secs: 4, nanos: 100_000_000 });
    let max = TaskDuration { secs: u64::MAX, nanos: 999_999_999 };
    assert_eq!(duration_saturating_add(max, b), max);
}

#[test]
fn registering_appends_the_child_and_counts_each_agent_once() {
    let mut topo = AgentTopology::new();
    topo.register("p".into(), "x".into());
    topo.register("p".into(), "y".into());
    assert_eq!(topo.children("p"), vec!["x", "y"]);
    assert_eq!(topo.total_agents(), 3);
    // `x` moves to a new parent: the old parent is still counted.
    topo.register("q".into(), "x".into());
    assert_eq!(topo.children("q"), vec!["x"]);
    assert_eq!(topo.children("p"), vec!["x", "y"]);
    assert_eq!(topo.total_agents(), 4);
    topo.register("q".into(), "x".into());
    assert_eq!(topo.total_agents(), 4);
}

#[test]
fn registering_moves_roots_and_cycles_are_detected() {
    let mut topo = AgentTopology::new();
    topo.register("a".into(), "b".into());
    assert_eq!(topo.roots(), vec!["a"]);
    topo.register("b".into(), "c".into());
    assert_eq!(topo.roots(), vec!["a"]);
    assert!(topo.has_finite_depth("a"));
    assert_eq!(topo.depth("a"), 2);
    // `c` spawning `a` closes a cycle: no root is left, and no depth exists.
    topo.register("c".into(), "a".into());
    assert!(topo.roots().is_empty());
    assert!(!topo.has_finite_depth("a"));

    let mut collector = ObservabilityCollector::new();
    collector.record_parent_child("root".into(), "kid".into());
    assert!(collector.topology_is_acyclic());
    assert_eq!(collector.format_topology(), "○ root\n└─○ kid");
}
