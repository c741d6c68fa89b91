//! Data model of the pipeline engine: ports, artifacts, block descriptors,
//! the block-level error taxonomy, and the `Block` capability that concrete
//! processing units implement.

use vstd::prelude::*;
use crate::table::Table;

verus! {

/// Identifier of a block, unique within a registry and within a
/// `GraphSpec`'s block list.
pub type BlockId = String;

/// Identifier of a port, unique only within the scope of a single
/// block's declared ports.
pub type PortId = String;

/// Whether a port consumes or produces data.
#[derive(Clone, Copy, Debug, PartialEq, Eq, Structural)]
pub enum PortKind {
    Input,
    Output,
}

/// A typed slot on a block. The mime string is descriptive metadata only;
/// the engine does not enforce compatibility across connected ports.
#[derive(Debug)]
pub struct Port {
    pub id: PortId,
    pub kind: PortKind,
    pub mime: String,
}

/// Mathematical value of a `Port`.
#[verifier::ext_equal]
pub ghost struct PortView {
    pub id: Seq<char>,
    pub kind: PortKind,
    pub mime: Seq<char>,
}

impl View for Port {
    type V = PortView;

    open spec fn view(&self) -> PortView {
        PortView { id: self.id@, kind: self.kind, mime: self.mime@ }
    }
}

/// A reference to produced data (not the data itself) plus free-form
/// metadata, recorded as key/value pairs. Immutable once produced.
#[derive(Debug)]
pub struct Artifact {
    pub port: PortId,
    pub path: String,
    pub meta: Vec<(String, String)>,
}

/// Mathematical value of an `Artifact`.
#[verifier::ext_equal]
pub ghost struct ArtifactView {
    pub port: Seq<char>,
    pub path: Seq<char>,
    pub meta: Seq<(Seq<char>, Seq<char>)>,
}

/// The sequence of key/value pairs of a metadata list, as views.
pub open spec fn meta_view(m: Seq<(String, String)>) -> Seq<(Seq<char>, Seq<char>)> {
    m.map_values(|p: (String, String)| (p.0@, p.1@))
}

impl View for Artifact {
    type V = ArtifactView;

    open spec fn view(&self) -> ArtifactView {
        ArtifactView { port: self.port@, path: self.path@, meta: meta_view(self.meta@) }
    }
}

impl Clone for Artifact {
    /// Cloning an artifact preserves its view.
    fn clone(&self) -> (r: Self)
        ensures
            r@ == self@,
    {
        let mut meta: Vec<(String, String)> = Vec::new();
        let mut i: usize = 0;
        while i < self.meta.len()
            invariant
                i <= self.meta.len(),
                meta@.len() == i as int,
                forall|j: int| 0 <= j < i as int ==> meta@[j] == self.meta@[j],
            decreases self.meta.len() - i,
        {
            let k = self.meta[i].0.clone();
            let v = self.meta[i].1.clone();
            meta.push((k, v));
            i += 1;
        }
        proof {
            assert(meta@ =~= self.meta@);
        }
        Artifact { port: self.port.clone(), path: self.path.clone(), meta }
    }
}

/// A block-level failure, recoverable under the engine's default policy.
#[derive(Debug)]
pub enum BlockError {
    /// A required input port was absent or unusable.
    InvalidInput(String),
    /// Any other internal failure of the block.
    Processing(String),
}

/// Mathematical value of a `BlockError`.
pub ghost enum BlockErrorView {
    InvalidInput(Seq<char>),
    Processing(Seq<char>),
}

impl View for BlockError {
    type V = BlockErrorView;

    open spec fn view(&self) -> BlockErrorView {
        match self {
            BlockError::InvalidInput(m) => BlockErrorView::InvalidInput(m@),
            BlockError::Processing(m) => BlockErrorView::Processing(m@),
        }
    }
}

/// The result of one block execution.
pub type StepResult<T> = Result<T, BlockError>;

/// A map from port ids to the artifacts delivered on (or produced at)
/// those ports.
pub type ArtifactMap = Table<Artifact>;

/// Relies on the crate `serde_json` for its `Value` type: a JSON value,
/// carried opaquely inside `BlockSpec` parameters and never inspected by
/// the engine.
#[verifier::external_type_specification]
#[verifier::external_body]
pub struct ExValue(serde_json::Value);

/// Static introspectable descriptor of a block, independent of any
/// particular run.
pub struct BlockSpec {
    pub id: BlockId,
    pub name: String,
    pub inputs: Vec<Port>,
    pub outputs: Vec<Port>,
    pub params: Vec<(String, serde_json::Value)>,
}

/// The capability that concrete processing units implement. Blocks are
/// pure request/response units with no awareness of the graph: `run`
/// receives exactly the subset of input ports for which upstream data was
/// delivered, and it is the block's responsibility to detect missing
/// required ports and fail with `BlockError::InvalidInput`.
pub trait Block {
    /// Which successful output maps this block may return on the given
    /// inputs. A block that promises nothing lets this hold always.
    spec fn run_ok_spec(
        &self,
        inputs: Map<Seq<char>, ArtifactView>,
        outputs: Map<Seq<char>, ArtifactView>,
    ) -> bool;

    /// Which block-level failures this block may report on the given
    /// inputs. A block that promises nothing lets this hold always.
    spec fn run_err_spec(&self, inputs: Map<Seq<char>, ArtifactView>, err: BlockErrorView) -> bool;

    /// The static descriptor of this block, used only for introspection.
    fn block_spec(&self) -> BlockSpec;

    /// Execute the block on the delivered inputs. An output entry must be
    /// produced for every output port that downstream consumers may use;
    /// omitted ports are treated downstream as absent.
    fn run(&self, inputs: &ArtifactMap) -> (r: StepResult<ArtifactMap>)
        ensures
            (r matches Ok(out) ==> self.run_ok_spec(inputs@, out@)),
            (r matches Err(e) ==> self.run_err_spec(inputs@, e@)),
    ;
}

} // verus!
