//! The listing surface consumed by user interfaces: a summary per
//! available block.

use vstd::prelude::*;

verus! {

/// What a front-end shows of an available block.
#[derive(Debug, Clone, PartialEq, Eq)]
pub struct UiBlockSummary {
    pub id: String,
    pub name: String,
}

/// The summaries of the blocks this crate ships for composition.
pub fn sample_blocks() -> (r: Vec<UiBlockSummary>)
    ensures
        r@.len() == 2,
        r@[0].id@ == "normalize_audio"@ && r@[0].name@ == "Normalize Audio"@,
        r@[1].id@ == "concat_clips"@ && r@[1].name@ == "Concat Clips"@,
{
    vec![
        UiBlockSummary {
            id: String::from_str("normalize_audio"),
            name: String::from_str("Normalize Audio"),
        },
        UiBlockSummary {
            id: String::from_str("concat_clips"),
            name: String::from_str("Concat Clips"),
        },
    ]
}

} // verus!
