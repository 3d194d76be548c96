//! What a capture file says of itself.

use vstd::prelude::*;

verus! {

/// What a capture file says of itself.
#[derive(Debug, Clone)]
pub struct CaptureMetadata {
    pub total_probes: usize,
    pub samplerate: String,
    pub total_samples: u64,
    pub total_blocks: u64,
    pub samples_per_block: u64,
    pub probe_names: Vec<String>,
    pub trigger_sample: Option<u64>,
}

/// Metadata seen through its texts.
#[verifier::ext_equal]
pub struct MetadataView {
    pub total_probes: usize,
    pub samplerate: Seq<char>,
    pub total_samples: u64,
    pub total_blocks: u64,
    pub samples_per_block: u64,
    pub probe_names: Seq<Seq<char>>,
    pub trigger_sample: Option<u64>,
}

/// Names seen as character sequences.
pub open spec fn name_views(names: Seq<String>) -> Seq<Seq<char>> {
    names.map_values(|name: String| name@)
}

impl View for CaptureMetadata {
    type V = MetadataView;

    open spec fn view(&self) -> MetadataView {
        MetadataView {
            total_probes: self.total_probes,
            samplerate: self.samplerate@,
            total_samples: self.total_samples,
            total_blocks: self.total_blocks,
            samples_per_block: self.samples_per_block,
            probe_names: name_views(self.probe_names@),
            trigger_sample: self.trigger_sample,
        }
    }
}

} // verus!
