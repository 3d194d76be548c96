//! Merging ordered streams by time.

use vstd::prelude::*;

verus! {

/// Whether the head of stream `index` comes next: no other head is earlier, and none of those at
/// the same time belongs to a stream before it.
pub open spec fn comes_next(times: Seq<Option<u64>>, index: int) -> bool {
    &&& 0 <= index < times.len()
    &&& times[index] is Some
    &&& forall|other: int|
        0 <= other < times.len() && (#[trigger] times[other]) is Some ==> times[index]->0
            < times[other]->0 || (times[index]->0 == times[other]->0 && index <= other)
}

/// Whether no stream has a head.
pub open spec fn no_heads(times: Seq<Option<u64>>) -> bool {
    forall|index: int| 0 <= index < times.len() ==> (#[trigger] times[index]) is None
}

/// Finds the head that comes next.
pub fn earliest(times: &Vec<Option<u64>>) -> (result: Option<usize>)
    ensures
        match result {
            Some(index) => comes_next(times@, index as int),
            None => no_heads(times@),
        },
{
    let mut best: Option<usize> = None;
    let mut at: usize = 0;
    while at < times.len()
        invariant
            at <= times@.len(),
            match best {
                Some(index) => comes_next(times@.take(at as int), index as int),
                None => no_heads(times@.take(at as int)),
            },
        decreases times@.len() - at,
    {
        let ghost before = times@.take(at as int);
        let ghost after = times@.take(at + 1);
        proof {
            assert forall|i: int| 0 <= i < before.len() implies #[trigger] after[i]
                == before[i] by {}
        }
        match times[at] {
            Some(time) => match best {
                Some(index) => {
                    assert(before[index as int] == times@[index as int]);
                    let leading: u64 = match times[index] {
                        Some(leading) => leading,
                        None => time,
                    };
                    if time < leading {
                        best = Some(at);
                    }
                    proof {
                        let kept = if time < leading {
                            at as int
                        } else {
                            index as int
                        };
                        assert forall|other: int|
                            0 <= other < after.len() && (#[trigger] after[other]) is Some implies (
                        after[kept]->0 < after[other]->0 || (after[kept]->0 == after[other]->0
                            && kept <= other)) by {
                            if other < at {
                                assert(before[other] is Some);
                            }
                        }
                    }
                },
                None => {
                    best = Some(at);
                    proof {
                        assert forall|other: int|
                            0 <= other < after.len() && (#[trigger] after[other]) is Some implies (
                        after[at as int]->0 < after[other]->0 || (after[at as int]->0
                            == after[other]->0 && at <= other)) by {
                            if other < at {
                                assert(before[other] is None);
                            }
                        }
                    }
                },
            },
            None => {
                proof {
                    match best {
                        Some(index) => {
                            assert forall|other: int|
                                0 <= other < after.len() && (
                                #[trigger] after[other]) is Some implies (after[index as int]->0
                                < after[other]->0 || (after[index as int]->0 == after[other]->0
                                && index <= other)) by {
                                assert(before[other] is Some);
                            }
                        },
                        None => {
                            assert forall|i: int| 0 <= i < after.len() implies (
                            #[trigger] after[i]) is None by {
                                if i < at {
                                    assert(before[i] is None);
                                }
                            }
                        },
                    }
                }
            },
        }
        at += 1;
    }
    assert(times@.take(at as int) =~= times@);
    best
}

/// At most one head comes next.
pub proof fn law_next_head_is_unique(times: Seq<Option<u64>>, left: int, right: int)
    requires
        comes_next(times, left),
        comes_next(times, right),
    ensures
        left == right,
{
    assert(times[left] is Some);
    assert(times[right] is Some);
}

} // verus!
