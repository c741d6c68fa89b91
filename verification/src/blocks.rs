//! The block implementations this crate ships: pass-through audio and
//! video stubs, a source block that feeds fixed artifacts into a run,
//! an always-failing block, and a sum type of them all for
//! heterogeneous registries.

use vstd::prelude::*;
use crate::model::{Artifact, ArtifactMap, ArtifactView, Block, BlockError, BlockErrorView, BlockSpec, Port, PortKind, PortView, StepResult};
use crate::table::Table;

verus! {

/// The exact descriptor of the audio-normalization block: one audio
/// input `in`, one audio output `out`, no parameters.
pub open spec fn normalize_descriptor(r: BlockSpec) -> bool {
    &&& r.id@ == "normalize_audio"@
    &&& r.name@ == "Normalize Audio"@
    &&& r.inputs@.len() == 1
    &&& r.inputs@[0]@ == (PortView { id: "in"@, kind: PortKind::Input, mime: "audio/wav"@ })
    &&& r.outputs@.len() == 1
    &&& r.outputs@[0]@ == (PortView { id: "out"@, kind: PortKind::Output, mime: "audio/wav"@ })
    &&& r.params@.len() == 0
}

/// The exact descriptor of the clip-concatenation block: two video
/// inputs `a` and `b`, one video output `out`, no parameters.
pub open spec fn concat_descriptor(r: BlockSpec) -> bool {
    &&& r.id@ == "concat_clips"@
    &&& r.name@ == "Concat Clips"@
    &&& r.inputs@.len() == 2
    &&& r.inputs@[0]@ == (PortView { id: "a"@, kind: PortKind::Input, mime: "video/mp4"@ })
    &&& r.inputs@[1]@ == (PortView { id: "b"@, kind: PortKind::Input, mime: "video/mp4"@ })
    &&& r.outputs@.len() == 1
    &&& r.outputs@[0]@ == (PortView { id: "out"@, kind: PortKind::Output, mime: "video/mp4"@ })
    &&& r.params@.len() == 0
}

/// The exact descriptor of the source block: no declared ports (its
/// outputs depend on the artifacts it was built with), no parameters.
pub open spec fn source_descriptor(r: BlockSpec) -> bool {
    &&& r.id@ == "source"@
    &&& r.name@ == "Source"@
    &&& r.inputs@.len() == 0
    &&& r.outputs@.len() == 0
    &&& r.params@.len() == 0
}

/// The exact descriptor of the always-failing block: no ports, no
/// parameters.
pub open spec fn fail_descriptor(r: BlockSpec) -> bool {
    &&& r.id@ == "fail"@
    &&& r.name@ == "Fail"@
    &&& r.inputs@.len() == 0
    &&& r.outputs@.len() == 0
    &&& r.params@.len() == 0
}

/// The output map of a pass-through block: the input artifact under
/// `inp`, echoed to the single output port `out` with its path and
/// metadata unchanged.
pub open spec fn passthrough_output(
    inputs: Map<Seq<char>, ArtifactView>,
    inp: Seq<char>,
    out: Seq<char>,
) -> Map<Seq<char>, ArtifactView> {
    Map::empty().insert(
        out,
        ArtifactView { port: out, path: inputs[inp].path, meta: inputs[inp].meta },
    )
}

/// Echo the artifact delivered on `inp` to the port `out`, with path
/// and metadata unchanged; fail with `InvalidInput` carrying `msg` when
/// `inp` is absent.
fn passthrough_run(inputs: &ArtifactMap, inp: &str, out: &str, msg: &str) -> (r: StepResult<
    ArtifactMap,
>)
    ensures
        inputs@.contains_key(inp@) ==> (r matches Ok(o) && o@ == passthrough_output(
            inputs@,
            inp@,
            out@,
        )),
        !inputs@.contains_key(inp@) ==> (r matches Err(e) && e@ == BlockErrorView::InvalidInput(
            msg@,
        )),
{
    let key = String::from_str(inp);
    match inputs.get(&key) {
        Some(a) => {
            let ac = a.clone();
            let art = Artifact { port: String::from_str(out), path: ac.path, meta: ac.meta };
            let mut o: ArtifactMap = Table::new();
            o.insert(String::from_str(out), art);
            proof {
                assert(o@ =~~= passthrough_output(inputs@, inp@, out@));
            }
            Ok(o)
        },
        None => Err(BlockError::InvalidInput(String::from_str(msg))),
    }
}

/// An audio-normalization block. The processing itself is a stub that
/// passes the artifact through unchanged: input port `in`, output port
/// `out`.
pub struct NormalizeAudio;

impl Block for NormalizeAudio {
    open spec fn run_ok_spec(
        &self,
        inputs: Map<Seq<char>, ArtifactView>,
        outputs: Map<Seq<char>, ArtifactView>,
    ) -> bool {
        inputs.contains_key("in"@) && outputs == passthrough_output(inputs, "in"@, "out"@)
    }

    open spec fn run_err_spec(
        &self,
        inputs: Map<Seq<char>, ArtifactView>,
        err: BlockErrorView,
    ) -> bool {
        !inputs.contains_key("in"@) && err == BlockErrorView::InvalidInput("missing 'in'"@)
    }

    fn block_spec(&self) -> (r: BlockSpec)
        ensures
            normalize_descriptor(r),
    {
        BlockSpec {
            id: String::from_str("normalize_audio"),
            name: String::from_str("Normalize Audio"),
            inputs: vec![
                Port {
                    id: String::from_str("in"),
                    kind: PortKind::Input,
                    mime: String::from_str("audio/wav"),
                },
            ],
            outputs: vec![
                Port {
                    id: String::from_str("out"),
                    kind: PortKind::Output,
                    mime: String::from_str("audio/wav"),
                },
            ],
            params: Vec::new(),
        }
    }

    fn run(&self, inputs: &ArtifactMap) -> (r: StepResult<ArtifactMap>) {
        passthrough_run(inputs, "in", "out", "missing 'in'")
    }
}

/// A clip-concatenation block. The processing itself is a stub that
/// forwards input `a` unchanged: input ports `a` and `b`, output port
/// `out`.
pub struct ConcatClips;

impl Block for ConcatClips {
    open spec fn run_ok_spec(
        &self,
        inputs: Map<Seq<char>, ArtifactView>,
        outputs: Map<Seq<char>, ArtifactView>,
    ) -> bool {
        inputs.contains_key("a"@) && outputs == passthrough_output(inputs, "a"@, "out"@)
    }

    open spec fn run_err_spec(
        &self,
        inputs: Map<Seq<char>, ArtifactView>,
        err: BlockErrorView,
    ) -> bool {
        !inputs.contains_key("a"@) && err == BlockErrorView::InvalidInput("missing 'a'"@)
    }

    fn block_spec(&self) -> (r: BlockSpec)
        ensures
            concat_descriptor(r),
    {
        BlockSpec {
            id: String::from_str("concat_clips"),
            name: String::from_str("Concat Clips"),
            inputs: vec![
                Port {
                    id: String::from_str("a"),
                    kind: PortKind::Input,
                    mime: String::from_str("video/mp4"),
                },
                Port {
                    id: String::from_str("b"),
                    kind: PortKind::Input,
                    mime: String::from_str("video/mp4"),
                },
            ],
            outputs: vec![
                Port {
                    id: String::from_str("out"),
                    kind: PortKind::Output,
                    mime: String::from_str("video/mp4"),
                },
            ],
            params: Vec::new(),
        }
    }

    fn run(&self, inputs: &ArtifactMap) -> (r: StepResult<ArtifactMap>) {
        passthrough_run(inputs, "a", "out", "missing 'a'")
    }
}

/// The views of a list of artifacts.
pub open spec fn artifacts_view(s: Seq<Artifact>) -> Seq<ArtifactView> {
    s.map_values(|a: Artifact| a@)
}

/// The output map produced by a source block: each artifact under its
/// own port id, a later artifact overriding an earlier one on the same
/// port.
pub open spec fn source_output(s: Seq<ArtifactView>) -> Map<Seq<char>, ArtifactView>
    decreases s.len(),
{
    if s.len() == 0 {
        Map::empty()
    } else {
        source_output(s.drop_last()).insert(s.last().port, s.last())
    }
}

/// A block that produces fixed artifacts on its output ports regardless
/// of its inputs: the entry point of a pipeline, wrapping data that is
/// already available. It never fails.
pub struct SourceBlock {
    pub artifacts: Vec<Artifact>,
}

impl Block for SourceBlock {
    open spec fn run_ok_spec(
        &self,
        inputs: Map<Seq<char>, ArtifactView>,
        outputs: Map<Seq<char>, ArtifactView>,
    ) -> bool {
        outputs == source_output(artifacts_view(self.artifacts@))
    }

    open spec fn run_err_spec(
        &self,
        inputs: Map<Seq<char>, ArtifactView>,
        err: BlockErrorView,
    ) -> bool {
        false
    }

    fn block_spec(&self) -> (r: BlockSpec)
        ensures
            source_descriptor(r),
    {
        BlockSpec {
            id: String::from_str("source"),
            name: String::from_str("Source"),
            inputs: Vec::new(),
            outputs: Vec::new(),
            params: Vec::new(),
        }
    }

    fn run(&self, inputs: &ArtifactMap) -> (r: StepResult<ArtifactMap>) {
        let ghost av = artifacts_view(self.artifacts@);
        let mut o: ArtifactMap = Table::new();
        let mut i: usize = 0;
        proof {
            assert(av.take(0) =~= Seq::<ArtifactView>::empty());
        }
        while i < self.artifacts.len()
            invariant
                i <= self.artifacts@.len(),
                av == artifacts_view(self.artifacts@),
                o@ == source_output(av.take(i as int)),
            decreases self.artifacts@.len() - i,
        {
            proof {
                assert(av.take(i as int + 1).drop_last() =~= av.take(i as int));
                assert(av.take(i as int + 1).last() == av[i as int]);
            }
            let a = self.artifacts[i].clone();
            let port = a.port.clone();
            o.insert(port, a);
            i += 1;
        }
        proof {
            assert(av.take(self.artifacts@.len() as int) =~= av);
        }
        Ok(o)
    }
}

/// A block that always reports a `Processing` failure carrying its
/// message; the failure-policy paths of a run can be exercised with it.
pub struct FailBlock {
    pub message: String,
}

impl Block for FailBlock {
    open spec fn run_ok_spec(
        &self,
        inputs: Map<Seq<char>, ArtifactView>,
        outputs: Map<Seq<char>, ArtifactView>,
    ) -> bool {
        false
    }

    open spec fn run_err_spec(
        &self,
        inputs: Map<Seq<char>, ArtifactView>,
        err: BlockErrorView,
    ) -> bool {
        err == BlockErrorView::Processing(self.message@)
    }

    fn block_spec(&self) -> (r: BlockSpec)
        ensures
            fail_descriptor(r),
    {
        BlockSpec {
            id: String::from_str("fail"),
            name: String::from_str("Fail"),
            inputs: Vec::new(),
            outputs: Vec::new(),
            params: Vec::new(),
        }
    }

    fn run(&self, inputs: &ArtifactMap) -> (r: StepResult<ArtifactMap>) {
        Err(BlockError::Processing(self.message.clone()))
    }
}

/// The sum of the block implementations this crate ships, standing in
/// for runtime polymorphism over the `Block` capability: an engine over
/// `AnyBlock` can register any of them side by side.
pub enum AnyBlock {
    Normalize(NormalizeAudio),
    Concat(ConcatClips),
    Source(SourceBlock),
    Fail(FailBlock),
}

impl Block for AnyBlock {
    open spec fn run_ok_spec(
        &self,
        inputs: Map<Seq<char>, ArtifactView>,
        outputs: Map<Seq<char>, ArtifactView>,
    ) -> bool {
        match self {
            AnyBlock::Normalize(b) => b.run_ok_spec(inputs, outputs),
            AnyBlock::Concat(b) => b.run_ok_spec(inputs, outputs),
            AnyBlock::Source(b) => b.run_ok_spec(inputs, outputs),
            AnyBlock::Fail(b) => b.run_ok_spec(inputs, outputs),
        }
    }

    open spec fn run_err_spec(
        &self,
        inputs: Map<Seq<char>, ArtifactView>,
        err: BlockErrorView,
    ) -> bool {
        match self {
            AnyBlock::Normalize(b) => b.run_err_spec(inputs, err),
            AnyBlock::Concat(b) => b.run_err_spec(inputs, err),
            AnyBlock::Source(b) => b.run_err_spec(inputs, err),
            AnyBlock::Fail(b) => b.run_err_spec(inputs, err),
        }
    }

    fn block_spec(&self) -> (r: BlockSpec)
        ensures
            match self {
                AnyBlock::Normalize(_) => normalize_descriptor(r),
                AnyBlock::Concat(_) => concat_descriptor(r),
                AnyBlock::Source(_) => source_descriptor(r),
                AnyBlock::Fail(_) => fail_descriptor(r),
            },
    {
        match self {
            AnyBlock::Normalize(b) => b.block_spec(),
            AnyBlock::Concat(b) => b.block_spec(),
            AnyBlock::Source(b) => b.block_spec(),
            AnyBlock::Fail(b) => b.block_spec(),
        }
    }

    fn run(&self, inputs: &ArtifactMap) -> (r: StepResult<ArtifactMap>) {
        match self {
            AnyBlock::Normalize(b) => b.run(inputs),
            AnyBlock::Concat(b) => b.run(inputs),
            AnyBlock::Source(b) => b.run(inputs),
            AnyBlock::Fail(b) => b.run(inputs),
        }
    }
}

} // verus!
