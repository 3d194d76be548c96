//! A bounded cache of packed blocks.

use vstd::prelude::*;

verus! {

/// A block in the cache.
#[derive(Debug)]
pub struct CachedBlock {
    pub channel: usize,
    pub block: u64,
    pub data: Vec<u8>,
}

/// A block in the cache seen through its contents.
#[verifier::ext_equal]
pub struct CachedView {
    pub channel: usize,
    pub block: u64,
    pub data: Seq<u8>,
}

impl View for CachedBlock {
    type V = CachedView;

    open spec fn view(&self) -> CachedView {
        CachedView { channel: self.channel, block: self.block, data: self.data@ }
    }
}

/// The blocks that were used last, the least recent one first.
#[derive(Debug)]
pub struct BlockCache {
    pub max_cached_blocks: usize,
    pub blocks: Vec<CachedBlock>,
}

/// Where a block is in the cache.
pub open spec fn place_of(blocks: Seq<CachedView>, channel: usize, block: u64) -> Option<int>
    decreases blocks.len(),
{
    if blocks.len() == 0 {
        None
    } else if blocks.last().channel == channel && blocks.last().block == block {
        Some(blocks.len() - 1)
    } else {
        place_of(blocks.drop_last(), channel, block)
    }
}

/// The blocks that stay of a cache: the `max` last ones.
pub open spec fn recent(blocks: Seq<CachedView>, max: int) -> Seq<CachedView> {
    if blocks.len() > max {
        blocks.skip(blocks.len() - max)
    } else {
        blocks
    }
}

/// Whether no block is there twice.
pub open spec fn distinct(blocks: Seq<CachedView>) -> bool {
    forall|i: int, j: int|
        0 <= i < j < blocks.len() ==> !((#[trigger] blocks[i]).channel == (
        #[trigger] blocks[j]).channel && blocks[i].block == blocks[j].block)
}

/// A cache after one of its blocks was used: that block is now the most recent one.
pub open spec fn touched(blocks: Seq<CachedView>, place: int) -> Seq<CachedView> {
    blocks.remove(place).push(blocks[place])
}

/// A found block is at its place.
pub proof fn lemma_place(blocks: Seq<CachedView>, channel: usize, block: u64)
    ensures
        place_of(blocks, channel, block) matches Some(place) ==> 0 <= place < blocks.len()
            && blocks[place].channel == channel && blocks[place].block == block,
        place_of(blocks, channel, block) is None ==> forall|i: int|
            0 <= i < blocks.len() ==> !((#[trigger] blocks[i]).channel == channel && blocks[i].block
                == block),
    decreases blocks.len(),
{
    if blocks.len() > 0 {
        let last = blocks.len() - 1;
        lemma_place(blocks.drop_last(), channel, block);
        if place_of(blocks, channel, block) is None {
            assert forall|i: int| 0 <= i < blocks.len() implies !((
            #[trigger] blocks[i]).channel == channel && blocks[i].block == block) by {
                if i < last {
                    assert(blocks.drop_last()[i] == blocks[i]);
                }
            }
        }
    }
}

proof fn lemma_touched(blocks: Seq<CachedView>, place: int)
    requires
        distinct(blocks),
        0 <= place < blocks.len(),
    ensures
        distinct(touched(blocks, place)),
        touched(blocks, place).len() == blocks.len(),
{
    let after = touched(blocks, place);
    assert forall|i: int, j: int| 0 <= i < j < after.len() implies !((
    #[trigger] after[i]).channel == (#[trigger] after[j]).channel && after[i].block
        == after[j].block) by {
        let old_i = if i < place { i } else { i + 1 };
        let old_j = if j == after.len() - 1 {
            place
        } else if j < place {
            j
        } else {
            j + 1
        };
        assert(after[i] == blocks[old_i]);
        assert(after[j] == blocks[old_j]);
    }
}

impl View for BlockCache {
    type V = Seq<CachedView>;

    open spec fn view(&self) -> Seq<CachedView> {
        self.blocks@.map_values(|block: CachedBlock| block@)
    }
}

impl BlockCache {
    /// No block is there twice, and there are no more than fit.
    pub open spec fn wf(&self) -> bool {
        &&& 0 < self.max_cached_blocks
        &&& self@.len() <= self.max_cached_blocks
        &&& distinct(self@)
    }

    /// An empty cache for one block.
    pub fn new() -> (result: BlockCache)
        ensures
            result.wf(),
            result@ == Seq::<CachedView>::empty(),
            result.max_cached_blocks == 1,
    {
        let result = BlockCache { max_cached_blocks: 1, blocks: Vec::new() };
        assert(result@ =~= Seq::<CachedView>::empty());
        result
    }

    /// Drops the least recent blocks until there are no more than fit.
    fn trim_cache(&mut self)
        requires
            0 < old(self).max_cached_blocks,
            distinct(old(self)@),
        ensures
            final(self).wf(),
            final(self).max_cached_blocks == old(self).max_cached_blocks,
            final(self)@ == recent(old(self)@, old(self).max_cached_blocks as int),
    {
        let ghost before = self@;
        assert(before.skip(0) =~= before);
        while self.blocks.len() > self.max_cached_blocks
            invariant
                0 < self.max_cached_blocks,
                self.max_cached_blocks == old(self).max_cached_blocks,
                self@.len() <= before.len(),
                self@ =~= before.skip(before.len() - self@.len()),
                before.len() > self.max_cached_blocks ==> self@.len() >= self.max_cached_blocks,
                before.len() <= self.max_cached_blocks ==> self@.len() == before.len(),
            decreases self.blocks@.len(),
        {
            let ghost current = self@;
            self.blocks.remove(0);
            assert(self@ =~= current.skip(1));
        }
        assert(distinct(self@)) by {
            let shift = before.len() - self@.len();
            assert forall|i: int, j: int| 0 <= i < j < self@.len() implies !((
            #[trigger] self@[i]).channel == (#[trigger] self@[j]).channel && self@[i].block
                == self@[j].block) by {
                assert(self@[i] == before[i + shift]);
                assert(self@[j] == before[j + shift]);
            }
        }
    }

    /// The same cache for another number of blocks, at least one.
    pub fn with_max_cached_blocks(self, max_cached_blocks: usize) -> (result: BlockCache)
        requires
            self.wf(),
        ensures
            result.wf(),
            result.max_cached_blocks == if max_cached_blocks == 0 {
                1
            } else {
                max_cached_blocks
            },
            result@ == recent(self@, result.max_cached_blocks as int),
    {
        let mut result = self;
        result.max_cached_blocks = if max_cached_blocks == 0 {
            1
        } else {
            max_cached_blocks
        };
        assert(result@ =~= self@);
        result.trim_cache();
        result
    }

    fn find(&self, channel: usize, block: u64) -> (result: Option<usize>)
        ensures
            match result {
                Some(place) => place_of(self@, channel, block) == Some(place as int) && place
                    < self.blocks@.len(),
                None => place_of(self@, channel, block) is None,
            },
    {
        let mut left: usize = self.blocks.len();
        assert(self@.take(left as int) =~= self@);
        while left > 0
            invariant
                left <= self.blocks@.len(),
                place_of(self@, channel, block) == place_of(
                    self@.take(left as int),
                    channel,
                    block,
                ),
            decreases left,
        {
            let entry: &CachedBlock = &self.blocks[left - 1];
            assert(self@.take(left as int).last() == entry@);
            assert(self@.take(left as int).drop_last() =~= self@.take(left - 1));
            if entry.channel == channel && entry.block == block {
                return Some(left - 1);
            }
            left -= 1;
        }
        None
    }

    /// Looks a block up. A block that is found becomes the most recent one.
    pub fn lookup(&mut self, channel: usize, block: u64) -> (result: Option<Vec<u8>>)
        requires
            old(self).wf(),
        ensures
            final(self).wf(),
            final(self).max_cached_blocks == old(self).max_cached_blocks,
            match place_of(old(self)@, channel, block) {
                Some(place) => {
                    &&& result matches Some(data)
                    &&& data@ == old(self)@[place].data
                    &&& final(self)@ == touched(old(self)@, place)
                },
                None => result is None && final(self)@ == old(self)@,
            },
    {
        let ghost before = self@;
        match self.find(channel, block) {
            Some(place) => {
                let entry: CachedBlock = self.blocks.remove(place);
                assert(self@ =~= before.remove(place as int));
                let data: Vec<u8> = copied(&entry.data);
                let ghost view = entry@;
                self.blocks.push(entry);
                proof {
                    assert(self@ =~= before.remove(place as int).push(view));
                    lemma_touched(before, place as int);
                }
                Some(data)
            },
            None => None,
        }
    }

    /// Takes a block in that was not there, as the most recent one. The least recent blocks that no
    /// longer fit are dropped.
    pub fn insert(&mut self, channel: usize, block: u64, data: Vec<u8>)
        requires
            old(self).wf(),
            place_of(old(self)@, channel, block) is None,
        ensures
            final(self).wf(),
            final(self).max_cached_blocks == old(self).max_cached_blocks,
            final(self)@ == recent(
                old(self)@.push(CachedView { channel, block, data: data@ }),
                old(self).max_cached_blocks as int,
            ),
    {
        let ghost before = self@;
        let ghost bytes = data@;
        proof {
            lemma_place(before, channel, block);
        }
        self.blocks.push(CachedBlock { channel, block, data });
        assert(self@ =~= before.push(CachedView { channel, block, data: bytes }));
        self.trim_cache();
    }
}

fn copied(data: &Vec<u8>) -> (result: Vec<u8>)
    ensures
        result@ == data@,
{
    let mut result: Vec<u8> = Vec::new();
    result.extend_from_slice(data.as_slice());
    assert(result@ =~= data@);
    result
}

/// A block that was just taken in is found, whatever was there before.
pub proof fn law_inserted_block_is_found(blocks: Seq<CachedView>, max: int, added: CachedView)
    requires
        0 < max,
    ensures
        place_of(recent(blocks.push(added), max), added.channel, added.block) == Some(
            recent(blocks.push(added), max).len() - 1,
        ),
        recent(blocks.push(added), max).last() == added,
{
}

/// Taking a block in keeps those that were used last: of the blocks there, all but the ones for
/// which there is no room, in their order.
pub proof fn law_recent_blocks_stay(blocks: Seq<CachedView>, max: int, added: CachedView, age: int)
    requires
        0 < max,
        1 <= age < max,
        age <= blocks.len(),
    ensures
        recent(blocks.push(added), max).contains(blocks[blocks.len() - age]),
{
    let after = recent(blocks.push(added), max);
    assert(after[after.len() - 1 - age] == blocks[blocks.len() - age]);
}

} // verus!
