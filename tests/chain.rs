use radiance::chain::{ChainError, RenderChain};
use radiance::library::Library;
use radiance::model::{Model, ModelError};
use radiance::effect_node::EffectError;

fn default_library() -> Library {
    let mut lib = Library::new();
    for name in ["oscope", "spin", "zoomin", "rjump", "lpf", "tunnel", "melt", "test"] {
        lib.set_effect_source(name.to_string(), format!("// {}\nvoid main() {{}}", name)).unwrap();
    }
    lib.set_effect_source(
        "composite".to_string(),
        "#property inputCount 2\nvoid main() {}".to_string(),
    )
    .unwrap();
    lib
}

#[test]
fn default_setup_builds_chain_to_output() {
    let lib = default_library();
    let mut model = Model::new();
    model.setup(&lib).unwrap();
    let show = model.show().unwrap();
    let g = model.graph();
    assert_eq!(g.node_count(), 10);
    assert_eq!(g.edge_count(), 9);
    let order = g.toposort();
    assert_eq!(*order.last().unwrap(), show);
}

#[test]
fn append_unknown_effect_fails_and_changes_nothing() {
    let lib = default_library();
    let mut model = Model::new();
    model.setup(&lib).unwrap();
    let before = (model.graph().node_count(), model.graph().edge_count());
    assert_eq!(
        model.append_node(&lib, "nonexistent_effect_xyz", 0),
        Err(ModelError::Effect(EffectError::UnknownEffect))
    );
    assert_eq!((model.graph().node_count(), model.graph().edge_count()), before);
}

#[test]
fn frame_needs_resources_then_feeds_upstream_outputs() {
    let lib = default_library();
    let mut model = Model::new();
    let a = model.append_node(&lib, "oscope", 1000).unwrap();
    let b = model.append_node(&lib, "spin", 500).unwrap();
    model.add_edge(a, b, 0).unwrap();
    let out = model.add_output().unwrap();
    model.add_edge(b, out, 0).unwrap();

    let mut chain = RenderChain::new(256, 256, 9000);
    assert!(matches!(model.render(&mut chain, 0), Err(ChainError::MissingResources { .. })));
    let missing = chain.missing_resources(model.graph());
    assert_eq!(missing.len(), 3);
    let mut next: u64 = 100;
    for (id, n) in missing {
        let handles: Vec<u64> = (0..n as u64).map(|k| next + k).collect();
        next += 10;
        chain.provide(id, handles);
    }
    assert!(chain.missing_resources(model.graph()).is_empty());
    let frames = model.render(&mut chain, 16).unwrap();
    let ids: Vec<usize> = frames.iter().map(|f| f.id).collect();
    assert_eq!(ids, vec![a, b, out]);
    assert_eq!(frames[0].inputs, vec![None]);
    assert_eq!(frames[1].inputs, vec![frames[0].output]);
    assert_eq!(frames[2].inputs, vec![frames[1].output]);
    assert_eq!(frames[2].output, frames[1].output);
    assert_eq!(frames[2].passes.len(), 0);
    assert_eq!(frames[0].passes.len(), 1);
    assert_eq!(frames[0].output, Some(frames[0].passes[0].target));
    assert_eq!(frames[0].passes[0].target, 9000);
    assert_eq!(chain.size(), (256, 256));
}
