use processing_core::adapters::{Publisher, VpError, YtClient, YtError};
use processing_core::blocks::{ConcatClips, FailBlock, NormalizeAudio};
use processing_core::ui::sample_blocks;
use processing_core::{Artifact, ArtifactMap, Block, BlockError, BlockSpec, PortKind, Table};

fn artifact(port: &str, path: &str) -> Artifact {
    Artifact { port: port.to_string(), path: path.to_string(), meta: vec![] }
}

#[test]
fn table_insert_and_get() {
    let mut t: Table<Artifact> = Table::new();
    assert!(t.get(&"x".to_string()).is_none());
    t.insert("x".to_string(), artifact("x", "one"));
    assert_eq!(t.get(&"x".to_string()).unwrap().path, "one");
    t.insert("x".to_string(), artifact("x", "two"));
    assert_eq!(t.get(&"x".to_string()).unwrap().path, "two");
    assert!(t.get(&"y".to_string()).is_none());
    assert!(t.contains_key(&"x".to_string()));
    assert!(!t.contains_key(&"y".to_string()));
}

#[test]
fn artifact_clone_preserves_contents() {
    let a = Artifact {
        port: "out".to_string(),
        path: "p.wav".to_string(),
        meta: vec![("k".to_string(), "v".to_string())],
    };
    let b = a.clone();
    assert_eq!(b.port, "out");
    assert_eq!(b.path, "p.wav");
    assert_eq!(b.meta, a.meta);
}

#[test]
fn normalize_audio_echoes_its_input() {
    let mut inputs: ArtifactMap = Table::new();
    inputs.insert("in".to_string(), artifact("in", "a.wav"));
    let out = NormalizeAudio.run(&inputs).unwrap();
    assert_eq!(out.get(&"out".to_string()).unwrap().path, "a.wav");
}

#[test]
fn normalize_audio_rejects_missing_input() {
    let inputs: ArtifactMap = Table::new();
    match NormalizeAudio.run(&inputs) {
        Err(BlockError::InvalidInput(msg)) => assert_eq!(msg, "missing 'in'"),
        _ => panic!("expected InvalidInput"),
    }
}

#[test]
fn concat_clips_forwards_input_a() {
    let mut inputs: ArtifactMap = Table::new();
    inputs.insert("a".to_string(), artifact("a", "v.mp4"));
    let out = ConcatClips.run(&inputs).unwrap();
    assert_eq!(out.get(&"out".to_string()).unwrap().path, "v.mp4");
}

#[test]
fn concat_clips_rejects_missing_input() {
    let inputs: ArtifactMap = Table::new();
    match ConcatClips.run(&inputs) {
        Err(BlockError::InvalidInput(msg)) => assert_eq!(msg, "missing 'a'"),
        _ => panic!("expected InvalidInput"),
    }
}

#[test]
fn fail_block_reports_processing() {
    let inputs: ArtifactMap = Table::new();
    let b = FailBlock { message: "nope".to_string() };
    match b.run(&inputs) {
        Err(BlockError::Processing(msg)) => assert_eq!(msg, "nope"),
        _ => panic!("expected Processing"),
    }
}

#[test]
fn normalize_audio_descriptor() {
    let s = NormalizeAudio.block_spec();
    assert_eq!(s.id, "normalize_audio");
    assert_eq!(s.name, "Normalize Audio");
    assert_eq!(s.inputs.len(), 1);
    assert_eq!(s.inputs[0].id, "in");
    assert!(matches!(s.inputs[0].kind, PortKind::Input));
    assert_eq!(s.inputs[0].mime, "audio/wav");
    assert_eq!(s.outputs.len(), 1);
    assert_eq!(s.outputs[0].id, "out");
    assert!(matches!(s.outputs[0].kind, PortKind::Output));
    assert_eq!(s.outputs[0].mime, "audio/wav");
    assert!(s.params.is_empty());
}

#[test]
fn concat_clips_descriptor() {
    let s = ConcatClips.block_spec();
    assert_eq!(s.id, "concat_clips");
    assert_eq!(s.name, "Concat Clips");
    assert_eq!(s.inputs.len(), 2);
    assert_eq!(s.inputs[0].id, "a");
    assert!(matches!(s.inputs[0].kind, PortKind::Input));
    assert_eq!(s.inputs[0].mime, "video/mp4");
    assert_eq!(s.inputs[1].id, "b");
    assert!(matches!(s.inputs[1].kind, PortKind::Input));
    assert_eq!(s.inputs[1].mime, "video/mp4");
    assert_eq!(s.outputs.len(), 1);
    assert_eq!(s.outputs[0].id, "out");
    assert!(matches!(s.outputs[0].kind, PortKind::Output));
    assert_eq!(s.outputs[0].mime, "video/mp4");
    assert!(s.params.is_empty());
}

#[test]
fn block_spec_carries_json_params() {
    let s = BlockSpec {
        id: "custom".to_string(),
        name: "Custom".to_string(),
        inputs: vec![],
        outputs: vec![],
        params: vec![("gain".to_string(), serde_json::Value::from(2))],
    };
    assert_eq!(s.params.len(), 1);
    assert_eq!(s.params[0].0, "gain");
}

#[test]
fn sample_blocks_lists_shipped_blocks() {
    let blocks = sample_blocks();
    assert_eq!(blocks.len(), 2);
    assert_eq!(blocks[0].id, "normalize_audio");
    assert_eq!(blocks[0].name, "Normalize Audio");
    assert_eq!(blocks[1].id, "concat_clips");
    assert_eq!(blocks[1].name, "Concat Clips");
}

#[test]
fn publisher_is_not_implemented() {
    let p = Publisher::new().unwrap();
    assert!(matches!(p.render_and_package("dir"), Err(VpError::NotImplemented)));
}

#[test]
fn yt_client_is_not_implemented() {
    let c = YtClient::new().unwrap();
    assert!(matches!(c.upload_video("p", "t", "d"), Err(YtError::NotImplemented)));
}
