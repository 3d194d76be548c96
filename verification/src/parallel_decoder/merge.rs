//! Word assembly and the ordered merge of scanned fragments.

use vstd::prelude::*;

use crate::bits::{saturating_mul, spec_saturating_mul};
use crate::digital::Endianness;
use crate::parallel_decoder::types::{DecodeFragment, FragmentBoundary, FragmentView, StrobeMode};
use crate::streams::Word;

verus! {

/// Word-assembly accumulator.
#[derive(Debug, Clone, Copy, PartialEq, Eq, Structural)]
pub struct AssemblyState {
    pub value: u64,
    pub cycles: usize,
    pub first_ts: u64,
}

/// How successive bus values form one word.
#[derive(Debug, Clone, Copy, PartialEq, Eq, Structural)]
pub struct WordFormat {
    pub num_data_bits: usize,
    pub cycles_per_word: usize,
    pub endianness: Endianness,
}

impl WordFormat {
    /// A word holds at least one cycle and fits in 64 bits.
    pub open spec fn wf(self) -> bool {
        &&& 1 <= self.num_data_bits
        &&& 1 <= self.cycles_per_word
        &&& self.cycles_per_word * self.num_data_bits <= 64
    }

    /// The accumulated value after one more cycle.
    pub open spec fn absorb(self, value: u64, cycles: int, cycle: u64) -> u64 {
        match self.endianness {
            Endianness::Little => value | (cycle << ((cycles * self.num_data_bits) as u64)),
            Endianness::Big => (value << (self.num_data_bits as u64)) | cycle,
        }
    }
}

impl AssemblyState {
    /// Nothing assembled yet.
    pub fn new() -> (result: Self)
        ensures
            result == (AssemblyState { value: 0, cycles: 0, first_ts: 0 }),
    {
        AssemblyState { value: 0, cycles: 0, first_ts: 0 }
    }

    pub open spec fn wf(self, format: WordFormat) -> bool {
        self.cycles < format.cycles_per_word && (self.cycles == 0 ==> self.value == 0)
    }

    /// The partial word dropped.
    pub open spec fn dropped(self) -> AssemblyState {
        AssemblyState { value: 0, cycles: 0, first_ts: self.first_ts }
    }

    /// The state after one more cycle, and the word that it completes.
    pub open spec fn after_cycle(self, format: WordFormat, timestamp_ns: u64, cycle: u64) -> (
        AssemblyState,
        Option<Word>,
    ) {
        let first_ts = if self.cycles == 0 {
            timestamp_ns
        } else {
            self.first_ts
        };
        let value = format.absorb(self.value, self.cycles as int, cycle);
        if self.cycles + 1 < format.cycles_per_word {
            (AssemblyState { value, cycles: (self.cycles + 1) as usize, first_ts }, None)
        } else {
            (
                AssemblyState { value: 0, cycles: 0, first_ts },
                Some(
                    Word {
                        value,
                        timestamp_ns: first_ts,
                        duration_ns: if timestamp_ns >= first_ts {
                            (timestamp_ns - first_ts) as u64
                        } else {
                            0
                        },
                    },
                ),
            )
        }
    }

    /// Takes in one cycle and returns the word that it completes.
    pub fn add_cycle(&mut self, format: WordFormat, timestamp_ns: u64, cycle: u64) -> (result: Option<
        Word,
    >)
        requires
            format.wf(),
            old(self).wf(format),
        ensures
            (*final(self), result) == old(self).after_cycle(format, timestamp_ns, cycle),
            final(self).wf(format),
    {
        if self.cycles == 0 {
            self.first_ts = timestamp_ns;
        }
        proof {
            assert(self.cycles * format.num_data_bits + format.num_data_bits <= format.cycles_per_word
                * format.num_data_bits) by (nonlinear_arith)
                requires
                    self.cycles + 1 <= format.cycles_per_word,
                    format.num_data_bits >= 1,
            ;
            assert(0 <= self.cycles * format.num_data_bits) by (nonlinear_arith)
                requires
                    self.cycles >= 0,
                    format.num_data_bits >= 0,
            ;
        }
        match format.endianness {
            Endianness::Little => {
                self.value = self.value | (cycle << ((self.cycles * format.num_data_bits) as u64));
            },
            Endianness::Big => {
                // A cycle as wide as the word leaves nothing of the cycles before it.
                if format.num_data_bits < 64 {
                    self.value = (self.value << (format.num_data_bits as u64)) | cycle;
                } else {
                    let before: u64 = self.value;
                    let bits: u64 = format.num_data_bits as u64;
                    assert(bits >= 64 ==> (before << bits) | cycle == cycle) by (bit_vector);
                    self.value = cycle;
                }
            },
        }
        self.cycles = self.cycles + 1;
        if self.cycles < format.cycles_per_word {
            return None;
        }
        let word = Word::spanning(
            self.value,
            self.first_ts,
            timestamp_ns.saturating_sub(self.first_ts),
        );
        self.value = 0;
        self.cycles = 0;
        Some(word)
    }

    /// Drops the partial word.
    pub fn reset(&mut self)
        ensures
            *final(self) == old(self).dropped(),
    {
        self.cycles = 0;
        self.value = 0;
    }
}

/// Progress of a merge: the accumulator and the words completed so far.
#[verifier::ext_equal]
pub struct MergeState {
    pub assembly: AssemblyState,
    pub words: Seq<Word>,
}

impl MergeState {
    /// The partial word dropped.
    pub open spec fn dropped(self) -> MergeState {
        MergeState { assembly: self.assembly.dropped(), words: self.words }
    }

    /// The partial word dropped where `reset` says so.
    pub open spec fn dropped_if(self, reset: bool) -> MergeState {
        if reset {
            self.dropped()
        } else {
            self
        }
    }

    /// The same progress with other words ahead of its own.
    pub open spec fn behind(self, words: Seq<Word>) -> MergeState {
        MergeState { assembly: self.assembly, words: words + self.words }
    }

    /// One trigger merged.
    pub open spec fn merged(self, format: WordFormat, step: u64, position: u64, value: u64) -> MergeState {
        let timestamp_ns = spec_saturating_mul(position as int, step as int) as u64;
        let (assembly, word) = self.assembly.after_cycle(format, timestamp_ns, value);
        MergeState {
            assembly,
            words: match word {
                Some(word) => self.words.push(word),
                None => self.words,
            },
        }
    }

    /// The first `count` triggers merged; `first_reset` drops the partial word before the first.
    pub open spec fn merged_items(
        self,
        format: WordFormat,
        step: u64,
        items: Seq<(u64, u64, bool)>,
        first_reset: bool,
        count: nat,
    ) -> MergeState
        decreases count,
    {
        if count == 0 {
            self
        } else {
            let item = items[count - 1];
            self.merged_items(format, step, items, first_reset, (count - 1) as nat).dropped_if(
                item.2 || (first_reset && count == 1),
            ).merged(format, step, item.0, item.1)
        }
    }

    /// The first sample of a fragment, once the strobe level before it is known.
    pub open spec fn merged_boundary(
        self,
        format: WordFormat,
        mode: StrobeMode,
        previous: bool,
        step: u64,
        boundary: Option<FragmentBoundary>,
    ) -> (MergeState, bool) {
        match boundary {
            Some(boundary) => if mode.triggers(previous, boundary.strobe_value) {
                if boundary.cs_eligible {
                    (
                        self.dropped_if(boundary.reset_before).merged(
                            format,
                            step,
                            boundary.position,
                            boundary.data_value,
                        ),
                        false,
                    )
                } else {
                    (self, true)
                }
            } else {
                (self, boundary.reset_before || !boundary.cs_eligible)
            },
            None => (self, false),
        }
    }

    /// A whole fragment merged, given the strobe level before it.
    pub open spec fn merged_fragment(
        self,
        format: WordFormat,
        mode: StrobeMode,
        previous: bool,
        fragment: FragmentView,
    ) -> MergeState {
        let (start, first_reset) = self.merged_boundary(
            format,
            mode,
            previous,
            fragment.timestamp_step,
            fragment.boundary,
        );
        start.merged_items(
            format,
            fragment.timestamp_step,
            fragment.items,
            first_reset,
            fragment.items.len(),
        ).dropped_if(fragment.reset_after || (first_reset && fragment.items.len() == 0))
    }
}

proof fn lemma_items_behind_words(
    state: MergeState,
    words: Seq<Word>,
    format: WordFormat,
    step: u64,
    items: Seq<(u64, u64, bool)>,
    first_reset: bool,
    count: nat,
)
    ensures
        state.behind(words).merged_items(format, step, items, first_reset, count)
            == state.merged_items(format, step, items, first_reset, count).behind(words),
    decreases count,
{
    if count > 0 {
        lemma_items_behind_words(state, words, format, step, items, first_reset, (count - 1) as nat);
        assert(state.behind(words).merged_items(format, step, items, first_reset, count)
            =~= state.merged_items(format, step, items, first_reset, count).behind(words));
    }
}

/// A fragment yields the same words whatever words came before it.
pub proof fn law_fragment_appends_words(
    state: MergeState,
    words: Seq<Word>,
    format: WordFormat,
    mode: StrobeMode,
    previous: bool,
    fragment: FragmentView,
)
    ensures
        state.behind(words).merged_fragment(format, mode, previous, fragment)
            == state.merged_fragment(format, mode, previous, fragment).behind(words),
{
    let step = fragment.timestamp_step;
    let (start, first_reset) = state.merged_boundary(
        format,
        mode,
        previous,
        step,
        fragment.boundary,
    );
    let (behind, behind_reset) = state.behind(words).merged_boundary(
        format,
        mode,
        previous,
        step,
        fragment.boundary,
    );
    assert(behind =~= start.behind(words) && behind_reset == first_reset);
    lemma_items_behind_words(
        start,
        words,
        format,
        step,
        fragment.items,
        first_reset,
        fragment.items.len(),
    );
}

/// Appends a finished word where an output is connected.
fn emit(word_batch: &mut Option<Vec<Word>>, word: Word)
    ensures
        final(word_batch).is_some() == old(word_batch).is_some(),
        old(word_batch).is_some() ==> final(word_batch).unwrap()@ == old(word_batch).unwrap()@.push(word),
{
    if let Some(batch) = word_batch {
        batch.push(word);
    }
}

/// Merges one fragment into the word stream. The fragment's first edge is decided by the strobe
/// level that the fragment before it ended on. Returns the number of completed words; the words
/// themselves go to `word_batch`, where there is one.
pub fn merge_stream_fragment(
    fragment: &DecodeFragment,
    mode: StrobeMode,
    previous_strobe_value: &mut bool,
    format: WordFormat,
    assembly: &mut AssemblyState,
    word_batch: &mut Option<Vec<Word>>,
) -> (words_emitted: u64)
    requires
        format.wf(),
        old(assembly).wf(format),
        fragment.buffers.wf(),
        fragment.boundary is Some ==> mode.on_edges() && fragment.buffers@.len() < u64::MAX,
    ensures
        *final(previous_strobe_value) == fragment.last_strobe_value,
        words_emitted <= fragment.buffers@.len() + (if fragment.boundary is Some {
            1int
        } else {
            0int
        }),
        final(assembly).wf(format),
        final(word_batch).is_some() == old(word_batch).is_some(),
        ({
            let merged = MergeState { assembly: *old(assembly), words: Seq::empty() }.merged_fragment(
                format,
                mode,
                *old(previous_strobe_value),
                fragment@,
            );
            &&& *final(assembly) == merged.assembly
            &&& words_emitted == merged.words.len()
            &&& old(word_batch).is_some() ==> final(word_batch).unwrap()@ == old(word_batch).unwrap()@
                + merged.words
        }),
{
    let ghost start = MergeState { assembly: *assembly, words: Seq::<Word>::empty() };
    let ghost batch_before = word_batch.unwrap()@;
    let ghost mut state = start;
    let mut words_emitted: u64 = 0;
    let mut boundary_reset: bool = false;
    if let Some(boundary) = fragment.boundary {
        boundary_reset = boundary.reset_before || !boundary.cs_eligible;
        let previous: bool = *previous_strobe_value;
        let triggered: bool = match mode {
            StrobeMode::RisingEdge => !previous && boundary.strobe_value,
            StrobeMode::FallingEdge => previous && !boundary.strobe_value,
            StrobeMode::AnyEdge => previous != boundary.strobe_value,
            StrobeMode::HighLevel | StrobeMode::LowLevel => false,
        };
        if triggered {
            if boundary.cs_eligible {
                if boundary.reset_before {
                    assembly.reset();
                }
                let timestamp_ns: u64 = saturating_mul(boundary.position, fragment.timestamp_step);
                if let Some(word) = assembly.add_cycle(format, timestamp_ns, boundary.data_value) {
                    emit(word_batch, word);
                    words_emitted += 1;
                }
                proof {
                    state = start.dropped_if(boundary.reset_before).merged(
                        format,
                        fragment.timestamp_step,
                        boundary.position,
                        boundary.data_value,
                    );
                }
                boundary_reset = false;
            } else {
                boundary_reset = true;
            }
        }
    }
    let ghost first_reset = boundary_reset;
    let ghost entry = state;
    assert((entry, first_reset) == start.merged_boundary(
        format,
        mode,
        *old(previous_strobe_value),
        fragment.timestamp_step,
        fragment.boundary,
    ));
    proof {
        assert(batch_before + Seq::<Word>::empty() =~= batch_before);
        assert(word_batch.is_some() ==> word_batch.unwrap()@ =~= batch_before + state.words);
    }
    let mut index: usize = 0;
    while index < fragment.buffers.positions.len()
        invariant
            format.wf(),
            assembly.wf(format),
            fragment.buffers.wf(),
            index <= fragment.buffers@.len(),
            boundary_reset == (first_reset && index == 0),
            word_batch.is_some() == old(word_batch).is_some(),
            state == entry.merged_items(
                format,
                fragment.timestamp_step,
                fragment.buffers@,
                first_reset,
                index as nat,
            ),
            *assembly == state.assembly,
            words_emitted == state.words.len(),
            words_emitted <= index + (if fragment.boundary is Some {
                1int
            } else {
                0int
            }),
            fragment.boundary is Some ==> fragment.buffers@.len() < u64::MAX,
            word_batch.is_some() ==> word_batch.unwrap()@ == batch_before + state.words,
        decreases fragment.buffers@.len() - index,
    {
        let reset_before: bool = boundary_reset || fragment.buffers.reset_before[index];
        boundary_reset = false;
        if reset_before {
            assembly.reset();
        }
        let position: u64 = fragment.buffers.positions[index];
        let value: u64 = fragment.buffers.values[index];
        let timestamp_ns: u64 = saturating_mul(position, fragment.timestamp_step);
        let ghost next = state.dropped_if(reset_before).merged(
            format,
            fragment.timestamp_step,
            position,
            value,
        );
        if let Some(word) = assembly.add_cycle(format, timestamp_ns, value) {
            emit(word_batch, word);
            proof {
                assert(next.words == state.words.push(word));
                assert((batch_before + state.words).push(word) =~= batch_before + next.words);
            }
            words_emitted += 1;
        }
        proof {
            assert(fragment.buffers@[index as int] == (position, value, fragment.buffers.reset_before@[index as int]));
            state = next;
        }
        index += 1;
    }
    if boundary_reset || fragment.reset_after {
        assembly.reset();
    }
    *previous_strobe_value = fragment.last_strobe_value;
    words_emitted
}

} // verus!
