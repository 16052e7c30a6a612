use extrem::render_graph::{default_render_graph, RenderGraph, RenderGraphError, RenderPassId};

// A recursive depth-first visit, an independent reference for four-node fixtures.
fn reference_visit(
    index: usize,
    graph: &RenderGraph,
    states: &mut [u8],
    order: &mut Vec<RenderPassId>,
) -> Result<(), RenderGraphError> {
    match states[index] {
        1 => return Err(RenderGraphError::Cycle(RenderPassId(index))),
        2 => return Ok(()),
        _ => {}
    }
    states[index] = 1;
    for dependency in graph.dependencies(RenderPassId(index)).unwrap() {
        if graph.pass_name(*dependency).is_none() {
            return Err(RenderGraphError::MissingPass(*dependency));
        }
        reference_visit(dependency.0, graph, states, order)?;
    }
    states[index] = 2;
    order.push(RenderPassId(index));
    Ok(())
}

fn pass_count(graph: &RenderGraph) -> usize {
    let mut count = 0;
    while graph.pass_name(RenderPassId(count)).is_some() {
        count += 1;
    }
    count
}

fn reference_order(graph: &RenderGraph) -> Result<Vec<RenderPassId>, RenderGraphError> {
    let count = pass_count(graph);
    let mut states = vec![0; count];
    let mut order = Vec::new();
    for index in 0..count {
        reference_visit(index, graph, &mut states, &mut order)?;
    }
    Ok(order)
}

#[test]
fn all_65536_four_node_graphs_preserve_order_and_first_error() {
    for mask in 0..65_536_u32 {
        let mut graph = RenderGraph::new();
        let ids: Vec<_> = (0..4)
            .map(|index| graph.add_pass(&index.to_string()))
            .collect();
        for (from, &pass) in ids.iter().enumerate() {
            for (to, &dependency) in ids.iter().enumerate() {
                if mask & (1 << (from * 4 + to)) != 0 {
                    graph.add_dependency(pass, dependency).unwrap();
                }
            }
        }
        let expected = reference_order(&graph);
        let result = graph.compile();
        assert_eq!(
            result.as_ref().map(|p| &p.execution_order),
            expected.as_ref(),
            "{mask}"
        );
        if result.is_err() {
            assert!(graph.cached_plan().is_none());
        }
        assert_eq!(graph.compile(), result, "retry must be stable: {mask}");
    }
}

#[test]
fn removal_changes_version_only_for_an_existing_edge() {
    let mut graph = RenderGraph::new();
    let a = graph.add_pass("a");
    let b = graph.add_pass("b");
    graph.add_dependency(a, b).unwrap();
    let plan = graph.compile().unwrap();
    assert!(!graph.remove_dependency(b, a).unwrap());
    assert_eq!(graph.version(), plan.version);
    assert_eq!(graph.cached_plan(), Some(&plan));
    assert!(graph.remove_dependency(a, b).unwrap());
    assert_eq!(graph.version(), plan.version.wrapping_add(1));
    assert!(graph.cached_plan().is_none());
    assert_eq!(graph.compile().unwrap().execution_order, vec![a, b]);
}

#[test]
fn missing_ids_do_not_mutate_dependencies_or_cache() {
    let mut graph = RenderGraph::new();
    let a = graph.add_pass("a");
    let b = graph.add_pass("b");
    graph.add_dependency(a, b).unwrap();
    let plan = graph.compile().unwrap();
    let missing = RenderPassId(usize::MAX);
    for (pass, dependency) in [(missing, a), (a, missing)] {
        assert_eq!(
            graph.remove_dependency(pass, dependency),
            Err(RenderGraphError::MissingPass(missing))
        );
        assert_eq!(graph.cached_plan(), Some(&plan));
        assert_eq!(graph.version(), plan.version);
    }
    assert_eq!(graph.dependencies(a), Some(&[b][..]));
}

#[test]
fn corrupted_stored_dependency_returns_error_without_partial_cache() {
    let mut graph = RenderGraph::new();
    let a = graph.add_pass("a");
    graph.add_dependency_unchecked(a, RenderPassId(usize::MAX)).unwrap();
    assert_eq!(
        graph.compile(),
        Err(RenderGraphError::MissingPass(RenderPassId(usize::MAX)))
    );
    assert!(graph.cached_plan().is_none());
    graph.clear_dependencies(a).unwrap();
    assert_eq!(graph.compile().unwrap().execution_order, vec![a]);
}

#[test]
fn clone_and_version_wrap_do_not_reuse_an_invalid_plan() {
    let mut original = RenderGraph::new();
    let a = original.add_pass("a");
    let plan = original.compile().unwrap();
    let mut edited = original.clone();
    edited.force_version(u64::MAX);
    edited.add_dependency(a, a).unwrap();
    assert_eq!(edited.version(), 0);
    assert!(edited.cached_plan().is_none());
    assert_eq!(edited.compile(), Err(RenderGraphError::Cycle(a)));
    assert_eq!(original.compile(), Ok(plan));
    edited.remove_dependency(a, a).unwrap();
    assert_eq!(edited.compile().unwrap().execution_order, vec![a]);
}

#[test]
fn empty_graph_compiles_and_caches_an_empty_plan() {
    let mut graph = RenderGraph::new();
    let plan = graph.compile().unwrap();
    assert!(plan.execution_order.is_empty());
    assert_eq!(graph.cached_plan(), Some(&plan));
}

#[test]
fn graph_compiles_dependencies_before_consumers_and_reuses_cache() {
    let mut graph = RenderGraph::new();
    let clear = graph.add_pass("clear");
    let opaque = graph.add_pass("opaque");
    let ui = graph.add_pass("ui");
    graph.add_dependency(opaque, clear).expect("dependency");
    graph.add_dependency(ui, opaque).expect("dependency");
    let compiled = graph.compile().expect("acyclic graph");
    assert_eq!(compiled.execution_order, vec![clear, opaque, ui]);
    assert_eq!(graph.cached_plan(), Some(&compiled));
    assert_eq!(graph.compile().expect("cached graph"), compiled);
}

#[test]
fn duplicate_dependency_does_not_invalidate_cache() {
    let mut graph = RenderGraph::new();
    let a = graph.add_pass("a");
    let b = graph.add_pass("b");
    graph.add_dependency(b, a).expect("dependency");
    let compiled = graph.compile().expect("compile");
    graph.add_dependency(b, a).expect("duplicate dependency");
    assert_eq!(graph.cached_plan(), Some(&compiled));
}

#[test]
fn graph_rejects_cycles() {
    let mut graph = RenderGraph::new();
    let a = graph.add_pass("a");
    let b = graph.add_pass("b");
    graph.add_dependency(a, b).expect("dependency");
    graph.add_dependency(b, a).expect("dependency");
    assert!(matches!(graph.compile(), Err(RenderGraphError::Cycle(_))));
}

#[test]
fn deep_chain_compiles_without_recursion() {
    let mut graph = RenderGraph::new();
    let ids: Vec<_> = (0..50_000).map(|_| graph.add_pass("pass")).collect();
    for pair in ids.windows(2) {
        graph.add_dependency(pair[0], pair[1]).unwrap();
    }
    let expected: Vec<_> = ids.iter().rev().copied().collect();
    assert_eq!(graph.compile().unwrap().execution_order, expected);
    graph.add_dependency(ids[49_999], ids[0]).unwrap();
    assert_eq!(graph.compile(), Err(RenderGraphError::Cycle(ids[0])));
    assert!(graph.cached_plan().is_none());
    assert!(graph.remove_dependency(ids[49_999], ids[0]).unwrap());
    assert_eq!(graph.compile().unwrap().execution_order, expected);
}

#[test]
fn default_graph_orders_clear_main_ui_and_keeps_its_version() {
    let mut graph = default_render_graph();
    let version = graph.version();
    assert!(graph.cached_plan().is_none());
    let plan = graph.compile().unwrap();
    let names: Vec<&str> = plan
        .execution_order
        .iter()
        .map(|pass| graph.pass_name(*pass).unwrap())
        .collect();
    assert_eq!(names, ["clear", "main", "ui"]);
    assert!(graph.cached_plan().is_some());
    graph.compile().unwrap();
    assert_eq!(graph.version(), version);
}

#[test]
fn unknown_ids_are_rejected_on_add() {
    let mut graph = RenderGraph::new();
    let a = graph.add_pass("a");
    let missing = RenderPassId(5);
    assert_eq!(graph.add_dependency(missing, a), Err(RenderGraphError::MissingPass(missing)));
    assert_eq!(graph.add_dependency(a, missing), Err(RenderGraphError::MissingPass(missing)));
    assert_eq!(graph.dependencies(missing), None);
    assert_eq!(graph.pass_name(a), Some("a"));
    assert_eq!(graph.version(), 1);
}
