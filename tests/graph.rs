use radiance::effect_node::EffectError;
use radiance::graph::{Graph, GraphError};
use radiance::library::Library;
use radiance::video_node::{NodeIds, VideoNode, VideoNodeKind};

fn library_with(names: &[&str]) -> Library {
    let mut lib = Library::new();
    for name in names {
        let text = format!("// {}\nvoid main() {{ gl_FragColor = texture2D(iInputs[0], uv); }}", name);
        lib.set_effect_source(name.to_string(), text).unwrap();
    }
    lib
}

fn add_effect(g: &mut Graph, lib: &Library, ids: &mut NodeIds, name: &str) -> usize {
    let id = ids.fresh().unwrap();
    let node = VideoNode::effect(lib, id, name).unwrap();
    assert!(g.add_videonode(node));
    id
}

fn chain(g: &mut Graph) -> (usize, usize, usize, usize) {
    let lib = library_with(&["oscope", "spin", "composite"]);
    let mut ids = NodeIds::new();
    let a = add_effect(g, &lib, &mut ids, "oscope");
    let b = add_effect(g, &lib, &mut ids, "spin");
    let c = add_effect(g, &lib, &mut ids, "composite");
    let out = ids.fresh().unwrap();
    assert!(g.add_videonode(VideoNode::output(out)));
    g.add_edge_by_ids(a, b, 0).unwrap();
    g.add_edge_by_ids(b, c, 0).unwrap();
    g.add_edge_by_ids(c, out, 0).unwrap();
    (a, b, c, out)
}

#[test]
fn end_to_end_order_and_disconnect() {
    let mut g = Graph::new();
    let (a, b, c, out) = chain(&mut g);
    assert_eq!(g.toposort(), vec![a, b, c, out]);
    g.disconnect_node(b).unwrap();
    assert_eq!(g.edge(a, c), Some(0));
    assert_eq!(g.edge(a, b), None);
    assert_eq!(g.edge(b, c), None);
    assert_eq!(g.edge_count(), 2);
    assert_eq!(g.node_inputs(b).unwrap(), vec![None]);
    assert_eq!(g.node_count(), 4);
}

#[test]
fn unknown_effect_leaves_graph_unchanged() {
    let mut g = Graph::new();
    chain(&mut g);
    let lib = library_with(&["oscope"]);
    let before = (g.node_count(), g.edge_count());
    let r = VideoNode::effect(&lib, 99, "nonexistent_effect_xyz");
    assert!(matches!(r, Err(EffectError::UnknownEffect)));
    assert_eq!((g.node_count(), g.edge_count()), before);
}

#[test]
fn splice_insert_rewires_existing_edge() {
    let mut g = Graph::new();
    let (a, b, _c, _out) = chain(&mut g);
    let lib = library_with(&["melt"]);
    let mut ids = NodeIds::new();
    for _ in 0..10 {
        ids.fresh();
    }
    let m = add_effect(&mut g, &lib, &mut ids, "melt");
    g.add_edge_by_ids(m, b, 0).unwrap();
    assert_eq!(g.edge(a, m), Some(0));
    assert_eq!(g.edge(m, b), Some(0));
    assert_eq!(g.edge(a, b), None);
    assert_eq!(g.input_for_id(b, 0), Some(m));
}

#[test]
fn self_edge_and_cycle_are_refused() {
    let mut g = Graph::new();
    let (a, _b, c, _out) = chain(&mut g);
    assert_eq!(g.add_edge_by_ids(a, a, 0), Err(GraphError::SelfEdge));
    let edges = g.edge_count();
    assert_eq!(g.add_edge_by_ids(c, a, 0), Err(GraphError::Cycle));
    assert_eq!(g.edge_count(), edges);
    assert_eq!(g.add_edge_by_ids(a, 1000, 0), Err(GraphError::UnknownNode));
    assert_eq!(g.add_edge_by_ids(a, c, 5), Err(GraphError::InvalidSlot));
}

#[test]
fn splice_into_node_with_taken_input_is_refused() {
    let mut g = Graph::new();
    let (_a, b, c, _out) = chain(&mut g);
    let lib = library_with(&["x", "m"]);
    let mut ids = NodeIds::new();
    for _ in 0..20 {
        ids.fresh();
    }
    let x = add_effect(&mut g, &lib, &mut ids, "x");
    let m = add_effect(&mut g, &lib, &mut ids, "m");
    g.add_edge_by_ids(x, m, 0).unwrap();
    assert_eq!(g.add_edge_by_ids(m, c, 0), Err(GraphError::SpliceConflict));
    assert_eq!(g.edge(b, c), Some(0));
    assert_eq!(g.edge(m, c), None);
}

#[test]
fn remove_node_drops_its_edges() {
    let mut g = Graph::new();
    let (a, b, c, _out) = chain(&mut g);
    assert!(g.remove_videonode(b));
    assert!(!g.remove_videonode(b));
    assert_eq!(g.node_count(), 3);
    assert_eq!(g.edge(a, b), None);
    assert_eq!(g.edge(b, c), None);
    assert_eq!(g.edge_count(), 1);
    assert!(g.node(b).is_none());
}

#[test]
fn intensity_and_clock_reach_effects() {
    let mut g = Graph::new();
    let (a, _b, _c, out) = chain(&mut g);
    assert!(g.set_intensity(a, 250));
    assert!(!g.set_intensity(out, 250));
    g.pre_render(4000);
    match g.node(a).unwrap().kind() {
        VideoNodeKind::Effect(e) => {
            assert_eq!(e.intensity(), 250);
            assert_eq!(e.intensity_integral(), 4000 * 250);
        }
        VideoNodeKind::Output => panic!("a is an effect"),
    }
}

#[test]
fn topological_order_respects_every_edge() {
    let mut g = Graph::new();
    let lib = library_with(&["a", "b", "c", "d"]);
    let mut ids = NodeIds::new();
    let d = add_effect(&mut g, &lib, &mut ids, "d");
    let c = add_effect(&mut g, &lib, &mut ids, "c");
    let b = add_effect(&mut g, &lib, &mut ids, "b");
    let a = add_effect(&mut g, &lib, &mut ids, "a");
    g.add_edge_by_ids(a, b, 0).unwrap();
    g.add_edge_by_ids(b, c, 0).unwrap();
    g.add_edge_by_ids(c, d, 0).unwrap();
    let order = g.toposort();
    assert_eq!(order.len(), 4);
    let pos = |x: usize| order.iter().position(|&y| y == x).unwrap();
    assert!(pos(a) < pos(b));
    assert!(pos(b) < pos(c));
    assert!(pos(c) < pos(d));
}

#[test]
fn duplicate_identity_is_refused() {
    let mut g = Graph::new();
    assert!(g.add_videonode(VideoNode::output(3)));
    assert!(!g.add_videonode(VideoNode::output(3)));
    assert_eq!(g.node_count(), 1);
}

#[test]
fn topological_order_is_stable() {
    let mut g = Graph::new();
    chain(&mut g);
    assert_eq!(g.toposort(), g.toposort());
}
