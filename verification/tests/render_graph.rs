use soorat::render_graph::{PassType, RenderGraph};

#[test]
fn empty_graph() {
    let graph = RenderGraph::new();
    assert_eq!(graph.pass_count(), 0);
    assert!(graph.execution_order().is_empty());
}

#[test]
fn single_pass() {
    let mut graph = RenderGraph::new();
    graph.add_pass("geometry", PassType::Geometry);
    assert_eq!(graph.execution_order(), vec!["geometry"]);
}

#[test]
fn dependency_ordering() {
    let mut graph = RenderGraph::new();
    graph
        .add_pass("post", PassType::PostProcess)
        .add_pass("geometry", PassType::Geometry)
        .add_pass("shadow", PassType::Shadow)
        .add_dependency("geometry", "shadow")
        .add_dependency("post", "geometry");

    let order = graph.execution_order();
    let shadow_pos = order.iter().position(|&p| p == "shadow").unwrap();
    let geo_pos = order.iter().position(|&p| p == "geometry").unwrap();
    let post_pos = order.iter().position(|&p| p == "post").unwrap();
    assert!(shadow_pos < geo_pos);
    assert!(geo_pos < post_pos);
}

#[test]
fn disable_pass() {
    let mut graph = RenderGraph::new();
    graph
        .add_pass("shadow", PassType::Shadow)
        .add_pass("geometry", PassType::Geometry);
    graph.set_enabled("shadow", false);
    assert_eq!(graph.enabled_count(), 1);
    let order = graph.execution_order();
    assert!(!order.contains(&"shadow"));
    assert!(order.contains(&"geometry"));
}

#[test]
fn forward_graph() {
    let graph = RenderGraph::forward();
    let order = graph.execution_order();
    assert_eq!(order[0], "shadow");
    assert_eq!(order[1], "geometry");
    assert_eq!(order.len(), 5);
}

#[test]
fn forward_with_effects() {
    let graph = RenderGraph::forward_with_effects();
    let order = graph.execution_order();
    assert_eq!(order[0], "shadow");
    assert_eq!(order[1], "geometry");
    assert_eq!(*order.last().unwrap(), "post_process");
    assert_eq!(order.len(), 7);
}

#[test]
fn get_pass() {
    let graph = RenderGraph::forward();
    let pass = graph.get_pass("geometry").unwrap();
    assert_eq!(pass.pass_type, PassType::Geometry);
    assert!(pass.enabled);
}

#[test]
fn pass_type_values() {
    assert_ne!(PassType::Shadow, PassType::Geometry);
    assert_ne!(PassType::Bloom, PassType::Ssao);
}

#[test]
fn forward_order_is_the_chain() {
    let graph = RenderGraph::forward();
    assert_eq!(
        graph.execution_order(),
        vec!["shadow", "geometry", "debug", "ui", "post_process"]
    );
}

#[test]
fn forward_with_effects_exact_order() {
    let graph = RenderGraph::forward_with_effects();
    assert_eq!(
        graph.execution_order(),
        vec!["shadow", "geometry", "ssao", "bloom", "debug", "ui", "post_process"]
    );
}

#[test]
fn independent_passes_keep_insertion_order() {
    let mut graph = RenderGraph::new();
    graph
        .add_pass("c", PassType::Custom)
        .add_pass("a", PassType::Custom)
        .add_pass("b", PassType::Custom);
    assert_eq!(graph.execution_order(), vec!["c", "a", "b"]);
}

#[test]
fn dependencies_visited_in_the_order_added() {
    let mut graph = RenderGraph::new();
    graph
        .add_pass("final", PassType::PostProcess)
        .add_pass("x", PassType::Custom)
        .add_pass("y", PassType::Custom)
        .add_dependency("final", "y")
        .add_dependency("final", "x");
    assert_eq!(graph.execution_order(), vec!["y", "x", "final"]);
}

#[test]
fn cycle_still_lists_each_enabled_pass_once() {
    let mut graph = RenderGraph::new();
    graph
        .add_pass("a", PassType::Custom)
        .add_pass("b", PassType::Custom)
        .add_dependency("a", "b")
        .add_dependency("b", "a");
    assert_eq!(graph.execution_order(), vec!["b", "a"]);
}

#[test]
fn self_dependency_is_harmless() {
    let mut graph = RenderGraph::new();
    graph.add_pass("a", PassType::Custom).add_dependency("a", "a");
    assert_eq!(graph.execution_order(), vec!["a"]);
}

#[test]
fn unknown_dependency_is_ignored() {
    let mut graph = RenderGraph::new();
    graph
        .add_pass("geometry", PassType::Geometry)
        .add_dependency("geometry", "missing")
        .add_dependency("nobody", "geometry");
    assert_eq!(graph.execution_order(), vec!["geometry"]);
    assert_eq!(graph.get_pass("geometry").unwrap().dependencies, vec!["missing".to_string()]);
    assert!(graph.get_pass("nobody").is_none());
}

#[test]
fn disabled_dependency_does_not_block() {
    let mut graph = RenderGraph::new();
    graph
        .add_pass("ui", PassType::Ui)
        .add_pass("debug", PassType::Debug)
        .add_dependency("ui", "debug");
    graph.set_enabled("debug", false);
    assert_eq!(graph.execution_order(), vec!["ui"]);
    assert_eq!(graph.enabled_count(), 1);
}

#[test]
fn duplicate_name_refers_to_newest_pass() {
    let mut graph = RenderGraph::new();
    graph
        .add_pass("pass", PassType::Shadow)
        .add_pass("pass", PassType::Bloom);
    assert_eq!(graph.pass_count(), 2);
    assert_eq!(graph.get_pass("pass").unwrap().pass_type, PassType::Bloom);
    graph.set_enabled("pass", false);
    // only the newest one is switched off
    assert_eq!(graph.enabled_count(), 1);
    assert_eq!(graph.execution_order(), vec!["pass"]);
}

#[test]
fn reenable_pass() {
    let mut graph = RenderGraph::forward();
    graph.set_enabled("ui", false);
    assert_eq!(graph.execution_order(), vec!["shadow", "geometry", "debug", "post_process"]);
    graph.set_enabled("ui", true);
    assert_eq!(graph.execution_order().len(), 5);
    assert_eq!(graph.enabled_count(), 5);
}

#[test]
fn order_length_matches_enabled_count() {
    let mut graph = RenderGraph::forward_with_effects();
    graph.set_enabled("bloom", false);
    graph.set_enabled("ssao", false);
    assert_eq!(graph.execution_order().len(), graph.enabled_count());
    assert_eq!(graph.enabled_count(), 5);
}

#[test]
fn default_graph_is_empty() {
    let graph = RenderGraph::default();
    assert_eq!(graph.pass_count(), 0);
    assert_eq!(graph.enabled_count(), 0);
}

#[test]
fn get_pass_reports_dependencies() {
    let graph = RenderGraph::forward_with_effects();
    let post = graph.get_pass("post_process").unwrap();
    assert_eq!(post.name, "post_process");
    assert_eq!(post.pass_type, PassType::PostProcess);
    assert_eq!(
        post.dependencies,
        vec!["ssao".to_string(), "bloom".to_string(), "ui".to_string()]
    );
    assert!(graph.get_pass("missing").is_none());
}

#[test]
fn disable_twice_and_unknown_name_change_count_once() {
    let mut graph = RenderGraph::forward();
    graph.set_enabled("debug", false);
    graph.set_enabled("debug", false);
    assert_eq!(graph.enabled_count(), 4);
    graph.set_enabled("no_such_pass", false);
    assert_eq!(graph.enabled_count(), 4);
    graph.set_enabled("debug", true);
    assert_eq!(
        graph.execution_order(),
        vec!["shadow", "geometry", "debug", "ui", "post_process"]
    );
}
