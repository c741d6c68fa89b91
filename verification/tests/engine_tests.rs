use processing_core::blocks::{AnyBlock, ConcatClips, FailBlock, NormalizeAudio, SourceBlock};
use processing_core::{Artifact, BlockError, Edge, Engine, ExecutionError, ExecutionOptions, GraphSpec};

fn edge(fb: &str, fp: &str, tb: &str, tp: &str) -> Edge {
    Edge {
        from_block: fb.to_string(),
        from_port: fp.to_string(),
        to_block: tb.to_string(),
        to_port: tp.to_string(),
    }
}

fn source(port: &str, path: &str, meta: Vec<(String, String)>) -> AnyBlock {
    AnyBlock::Source(SourceBlock {
        artifacts: vec![Artifact { port: port.to_string(), path: path.to_string(), meta }],
    })
}

#[test]
fn topological_order_respects_edges() {
    let engine = Engine::<AnyBlock>::new();
    let g = GraphSpec {
        blocks: vec!["C".to_string(), "A".to_string(), "B".to_string()],
        edges: vec![edge("A", "out", "B", "in"), edge("B", "out", "C", "in")],
    };
    let order = engine.topological_order(&g).unwrap();
    assert_eq!(order, vec!["A".to_string(), "B".to_string(), "C".to_string()]);
}

#[test]
fn topological_order_tie_break_is_list_order() {
    let engine = Engine::<AnyBlock>::new();
    let g = GraphSpec {
        blocks: vec!["B".to_string(), "A".to_string()],
        edges: vec![],
    };
    let order = engine.topological_order(&g).unwrap();
    assert_eq!(order, vec!["B".to_string(), "A".to_string()]);
}

#[test]
fn cycle_is_reported_by_topological_order() {
    let engine = Engine::<AnyBlock>::new();
    let g = GraphSpec {
        blocks: vec!["A".to_string(), "B".to_string()],
        edges: vec![edge("A", "out", "B", "in"), edge("B", "out", "A", "in")],
    };
    assert!(matches!(engine.topological_order(&g), Err(ExecutionError::Cycle)));
}

#[test]
fn cycle_is_reported_by_run() {
    let mut engine = Engine::<AnyBlock>::new();
    engine.register("A".to_string(), source("out", "a.wav", vec![]));
    engine.register("B".to_string(), AnyBlock::Normalize(NormalizeAudio));
    let g = GraphSpec {
        blocks: vec!["A".to_string(), "B".to_string()],
        edges: vec![edge("A", "out", "B", "in"), edge("B", "out", "A", "in")],
    };
    let opts = ExecutionOptions::default();
    assert!(matches!(engine.run(&g, &opts), Err(ExecutionError::Cycle)));
}

#[test]
fn edge_from_unlisted_block_is_a_cycle() {
    let mut engine = Engine::<AnyBlock>::new();
    engine.register("A".to_string(), source("out", "a.wav", vec![]));
    let g = GraphSpec {
        blocks: vec!["A".to_string()],
        edges: vec![edge("X", "out", "Y", "in")],
    };
    assert!(matches!(engine.topological_order(&g), Err(ExecutionError::Cycle)));
}

#[test]
fn missing_block_names_the_absent_id() {
    let mut engine = Engine::<AnyBlock>::new();
    engine.register("A".to_string(), source("out", "a.wav", vec![]));
    let g = GraphSpec {
        blocks: vec!["A".to_string(), "B".to_string()],
        edges: vec![edge("A", "out", "B", "in")],
    };
    let opts = ExecutionOptions::default();
    match engine.run(&g, &opts) {
        Err(ExecutionError::MissingBlock(id)) => assert_eq!(id, "B"),
        other => panic!("expected MissingBlock, got {:?}", other.is_ok()),
    }
}

#[test]
fn missing_block_before_any_block_executes() {
    let engine = Engine::<AnyBlock>::new();
    let g = GraphSpec {
        blocks: vec!["A".to_string()],
        edges: vec![],
    };
    let opts = ExecutionOptions::default();
    match engine.run(&g, &opts) {
        Err(ExecutionError::MissingBlock(id)) => assert_eq!(id, "A"),
        _ => panic!("expected MissingBlock"),
    }
}

#[test]
fn chain_delivers_artifacts_unchanged() {
    let mut engine = Engine::<AnyBlock>::new();
    let meta = vec![("codec".to_string(), "pcm".to_string())];
    engine.register("A".to_string(), source("out", "x.wav", meta.clone()));
    engine.register("B".to_string(), AnyBlock::Normalize(NormalizeAudio));
    engine.register("C".to_string(), AnyBlock::Concat(ConcatClips));
    let g = GraphSpec {
        blocks: vec!["A".to_string(), "B".to_string(), "C".to_string()],
        edges: vec![edge("A", "out", "B", "in"), edge("B", "out", "C", "a")],
    };
    let opts = ExecutionOptions::default();
    let outs = engine.run(&g, &opts).unwrap();
    let c_outs = outs.get(&"C".to_string()).expect("C executed");
    let art = c_outs.get(&"out".to_string()).expect("C produced 'out'");
    assert_eq!(art.path, "x.wav");
    assert_eq!(art.meta, meta);
    let b_outs = outs.get(&"B".to_string()).expect("B executed");
    assert_eq!(b_outs.get(&"out".to_string()).unwrap().path, "x.wav");
}

#[test]
fn failure_is_swallowed_without_stop_on_error() {
    let mut engine = Engine::<AnyBlock>::new();
    engine.register("A".to_string(), source("out", "x.wav", vec![]));
    engine.register("B".to_string(), AnyBlock::Fail(FailBlock { message: "boom".to_string() }));
    engine.register("C".to_string(), AnyBlock::Normalize(NormalizeAudio));
    let g = GraphSpec {
        blocks: vec!["A".to_string(), "B".to_string(), "C".to_string()],
        edges: vec![edge("A", "out", "B", "in"), edge("B", "out", "C", "in")],
    };
    let opts = ExecutionOptions { stop_on_error: false };
    let outs = engine.run(&g, &opts).unwrap();
    assert!(outs.get(&"A".to_string()).is_some());
    assert!(outs.get(&"B".to_string()).is_none());
    assert!(outs.get(&"C".to_string()).is_none());
}

#[test]
fn failure_aborts_with_stop_on_error() {
    let mut engine = Engine::<AnyBlock>::new();
    engine.register("A".to_string(), source("out", "x.wav", vec![]));
    engine.register("B".to_string(), AnyBlock::Fail(FailBlock { message: "boom".to_string() }));
    engine.register("C".to_string(), AnyBlock::Normalize(NormalizeAudio));
    let g = GraphSpec {
        blocks: vec!["A".to_string(), "B".to_string(), "C".to_string()],
        edges: vec![edge("A", "out", "B", "in"), edge("B", "out", "C", "in")],
    };
    let opts = ExecutionOptions { stop_on_error: true };
    match engine.run(&g, &opts) {
        Err(ExecutionError::Block(BlockError::Processing(msg))) => assert_eq!(msg, "boom"),
        _ => panic!("expected Block(Processing)"),
    }
}

#[test]
fn fixture_two_block_pipeline() {
    let mut engine = Engine::<AnyBlock>::new();
    engine.register("A".to_string(), source("out", "a.wav", vec![]));
    engine.register("B".to_string(), AnyBlock::Normalize(NormalizeAudio));
    let g = GraphSpec {
        blocks: vec!["A".to_string(), "B".to_string()],
        edges: vec![edge("A", "out", "B", "in")],
    };
    let opts = ExecutionOptions::default();
    let outs = engine.run(&g, &opts).unwrap();
    assert_eq!(outs.get(&"A".to_string()).unwrap().get(&"out".to_string()).unwrap().path, "a.wav");
    assert_eq!(outs.get(&"B".to_string()).unwrap().get(&"out".to_string()).unwrap().path, "a.wav");
}

#[test]
fn registered_but_unlisted_blocks_are_inert() {
    let mut engine = Engine::<AnyBlock>::new();
    engine.register("A".to_string(), source("out", "a.wav", vec![]));
    engine.register("D".to_string(), source("out", "d.wav", vec![]));
    let g = GraphSpec {
        blocks: vec!["A".to_string()],
        edges: vec![],
    };
    let opts = ExecutionOptions::default();
    let outs = engine.run(&g, &opts).unwrap();
    assert!(outs.get(&"A".to_string()).is_some());
    assert!(outs.get(&"D".to_string()).is_none());
}

#[test]
fn register_replaces_earlier_entry() {
    let mut engine = Engine::<AnyBlock>::new();
    engine.register("A".to_string(), source("out", "old.wav", vec![]));
    engine.register("A".to_string(), source("out", "new.wav", vec![]));
    let g = GraphSpec {
        blocks: vec!["A".to_string()],
        edges: vec![],
    };
    let opts = ExecutionOptions::default();
    let outs = engine.run(&g, &opts).unwrap();
    assert_eq!(outs.get(&"A".to_string()).unwrap().get(&"out".to_string()).unwrap().path, "new.wav");
}

#[test]
fn default_policy_continues_past_failures() {
    let opts = ExecutionOptions::default();
    assert!(!opts.stop_on_error);
}

#[test]
fn later_edge_overrides_earlier_on_same_port() {
    let mut engine = Engine::<AnyBlock>::new();
    engine.register("A1".to_string(), source("out", "first.wav", vec![]));
    engine.register("A2".to_string(), source("out", "second.wav", vec![]));
    engine.register("B".to_string(), AnyBlock::Normalize(NormalizeAudio));
    let g = GraphSpec {
        blocks: vec!["A1".to_string(), "A2".to_string(), "B".to_string()],
        edges: vec![edge("A1", "out", "B", "in"), edge("A2", "out", "B", "in")],
    };
    let opts = ExecutionOptions::default();
    let outs = engine.run(&g, &opts).unwrap();
    assert_eq!(outs.get(&"B".to_string()).unwrap().get(&"out".to_string()).unwrap().path, "second.wav");
}
