//! Finding the block at which a point in time falls, by binary search over
//! block numbers.
//!
//! Block times never decrease from one block to the next, but they are not
//! evenly spaced and may repeat. `Locator` holds the search's decisions for a
//! caller that fetches block times itself. `locate` runs the same steps over
//! block times held in memory.

use vstd::prelude::*;

verus! {

/// The block halfway between two bounds, rounded down.
pub open spec fn midpoint(low: int, high: int) -> int {
    low + (high - low) / 2
}

/// The answer of a search that is left with the blocks `low` to `high`.
///
/// While the bounds have not crossed, the block at their midpoint is looked
/// at. If it is earlier than the target, the search goes on above it; if it
/// is later, below it; if it has exactly the target's time, it is the answer,
/// whether or not a lower block has that time too. Once the bounds have
/// crossed, the answer is one past their midpoint, which is `low`.
pub open spec fn search(times: Seq<i64>, low: int, high: int, target: i64) -> int
    decreases high - low + 1,
{
    let mid = midpoint(low, high);
    if low > high {
        mid + 1
    } else if times[mid] < target {
        search(times, mid + 1, high, target)
    } else if times[mid] > target {
        search(times, low, mid - 1, target)
    } else {
        mid
    }
}

/// The block that a search over a whole chain settles on: the search's answer
/// over all blocks, or the chain's last block if that answer lies beyond it.
pub open spec fn located(times: Seq<i64>, target: i64) -> int {
    let answer = search(times, 0, times.len() - 1, target);
    if answer > times.len() - 1 {
        times.len() - 1
    } else {
        answer
    }
}

/// A binary search in progress, over the blocks that may still be the answer.
#[derive(Clone, Copy, Debug, PartialEq, Eq)]
pub struct Locator {
    low: u64,
    high: u64,
    latest: u64,
    target: i64,
}

/// What a search does next.
#[derive(Clone, Copy, Debug, PartialEq, Eq)]
pub enum LocatorStep {
    /// The search goes on: the time of the new midpoint is needed.
    Probe(Locator),
    /// The search is over, with this block as its answer.
    Located(u64),
}

impl Locator {
    #[verifier::type_invariant]
    spec fn bounded(&self) -> bool {
        self.low <= self.high <= self.latest
    }

    /// The lowest block that may still be the answer.
    pub closed spec fn low_bound(&self) -> int {
        self.low as int
    }

    /// The highest block that may still be looked at.
    pub closed spec fn high_bound(&self) -> int {
        self.high as int
    }

    /// The chain's last block.
    pub closed spec fn latest_block(&self) -> int {
        self.latest as int
    }

    /// The time that is searched for.
    pub closed spec fn target_time(&self) -> i64 {
        self.target
    }

    /// A search for `target` over the blocks 0 to `latest`.
    pub fn new(latest: u64, target: i64) -> (locator: Locator)
        ensures
            locator.low_bound() == 0,
            locator.high_bound() == latest,
            locator.latest_block() == latest,
            locator.target_time() == target,
    {
        Locator { low: 0, high: latest, latest, target }
    }

    /// The block whose time the search needs next: the midpoint of its
    /// bounds.
    pub fn probe(&self) -> (block: u64)
        ensures
            block == midpoint(self.low_bound(), self.high_bound()),
            self.low_bound() <= block <= self.high_bound(),
    {
        proof {
            use_type_invariant(self);
        }
        self.low + (self.high - self.low) / 2
    }

    /// Takes the time of the block that `probe` named and decides how the
    /// search goes on.
    ///
    /// A block with exactly the target's time is the answer. Otherwise the
    /// search goes on in the half that can still hold the answer; if that
    /// half is empty, the answer is its lower bound, or the chain's last
    /// block where the lower bound lies beyond it.
    pub fn observe(self, block_time: i64) -> (step: LocatorStep)
        ensures
            ({
                let low = self.low_bound();
                let high = self.high_bound();
                let mid = midpoint(low, high);
                let latest = self.latest_block();
                if block_time == self.target_time() {
                    step matches LocatorStep::Located(block) && block == mid
                } else if block_time < self.target_time() {
                    if mid == high {
                        step matches LocatorStep::Located(block) && block == if mid == latest {
                            latest
                        } else {
                            mid + 1
                        }
                    } else {
                        step matches LocatorStep::Probe(next) && next.low_bound() == mid + 1
                            && next.high_bound() == high && next.latest_block() == latest
                            && next.target_time() == self.target_time()
                    }
                } else {
                    if mid == low {
                        step matches LocatorStep::Located(block) && block == low
                    } else {
                        step matches LocatorStep::Probe(next) && next.low_bound() == low
                            && next.high_bound() == mid - 1 && next.latest_block() == latest
                            && next.target_time() == self.target_time()
                    }
                }
            }),
    {
        proof {
            use_type_invariant(&self);
        }
        let mid = self.low + (self.high - self.low) / 2;
        if block_time == self.target {
            LocatorStep::Located(mid)
        } else if block_time < self.target {
            if mid == self.high {
                if mid == self.latest {
                    LocatorStep::Located(self.latest)
                } else {
                    LocatorStep::Located(mid + 1)
                }
            } else {
                LocatorStep::Probe(
                    Locator { low: mid + 1, high: self.high, latest: self.latest, target: self.target },
                )
            }
        } else {
            if mid == self.low {
                LocatorStep::Located(self.low)
            } else {
                LocatorStep::Probe(
                    Locator { low: self.low, high: mid - 1, latest: self.latest, target: self.target },
                )
            }
        }
    }
}

/// Finds the block at which `target` falls in a chain whose block times are
/// `times`, block `n` having the time `times[n]`.
///
/// Returns `None` for a chain without blocks, and the block that the search
/// settles on otherwise.
pub fn locate(times: &Vec<i64>, target: i64) -> (block: Option<u64>)
    ensures
        block is None <==> times@.len() == 0,
        block matches Some(number) ==> number == located(times@, target),
{
    if times.len() == 0 {
        return None;
    }
    let latest = (times.len() - 1) as u64;
    let mut locator = Locator::new(latest, target);
    loop
        invariant
            times.len() == latest + 1,
            locator.latest_block() == latest,
            locator.target_time() == target,
            0 <= locator.low_bound() <= locator.high_bound() <= latest,
            ({
                let answer = search(times@, locator.low_bound(), locator.high_bound(), target);
                located(times@, target) == if answer > latest {
                    latest as int
                } else {
                    answer
                }
            }),
        decreases locator.high_bound() - locator.low_bound(),
    {
        let mid = locator.probe();
        proof {
            let low = locator.low_bound();
            let high = locator.high_bound();
            assert(search(times@, high + 1, high, target) == high + 1);
            assert(search(times@, low, low - 1, target) == low);
            assert(search(times@, low, high, target) == if times@[mid as int] < target {
                search(times@, mid + 1, high, target)
            } else if times@[mid as int] > target {
                search(times@, low, mid - 1, target)
            } else {
                mid as int
            });
        }
        match locator.observe(times[mid as usize]) {
            LocatorStep::Located(number) => {
                return Some(number);
            },
            LocatorStep::Probe(next) => {
                proof {
                    use_type_invariant(&next);
                }
                locator = next;
            },
        }
    }
}

/// Block times that never decrease from one block to the next.
pub open spec fn non_decreasing(times: Seq<i64>) -> bool {
    forall|i: int, j: int| 0 <= i <= j < times.len() ==> times[i] <= times[j]
}

/// Whether `block` is the first block whose time is `target` or later. Where
/// every block is earlier than `target`, that is the number one past the last
/// block.
pub open spec fn first_at_or_after(times: Seq<i64>, target: i64, block: int) -> bool {
    &&& 0 <= block <= times.len()
    &&& forall|i: int| 0 <= i < block ==> times[i] < target
    &&& block < times.len() ==> times[block] >= target
}

/// What a search yields on the blocks it is left with, given that every
/// block below them is earlier than the target and every block above them is
/// later: either a block with exactly the target's time, or the first block
/// that is later than the target, no block having the target's time.
proof fn lemma_search(times: Seq<i64>, low: int, high: int, target: i64)
    requires
        non_decreasing(times),
        0 <= low <= high + 1 <= times.len(),
        forall|i: int| 0 <= i < low ==> times[i] < target,
        forall|i: int| high < i < times.len() ==> times[i] > target,
    ensures
        ({
            let answer = search(times, low, high, target);
            &&& low <= answer <= high + 1
            &&& (answer <= high && times[answer] == target) || ((forall|i: int|
                0 <= i < answer ==> times[i] < target) && (forall|i: int|
                answer <= i < times.len() ==> times[i] > target))
        }),
    decreases high - low + 1,
{
    let mid = midpoint(low, high);
    if low <= high {
        if times[mid] < target {
            assert forall|i: int| 0 <= i < mid + 1 implies times[i] < target by {
                assert(times[i] <= times[mid]);
            }
            lemma_search(times, mid + 1, high, target);
        } else if times[mid] > target {
            assert forall|i: int| mid - 1 < i < times.len() implies times[i] > target by {
                assert(times[mid] <= times[i]);
            }
            lemma_search(times, low, mid - 1, target);
        }
    }
}

/// Where the search lands with respect to the first block at or after the
/// target.
///
/// On a chain whose block times never decrease, the block that the search
/// settles on is the first block whose time is the target or later, or the
/// chain's last block where there is none, if and only if the block before
/// the one it settles on does not have exactly the target's time. It misses
/// the first such block only within a run of blocks that all have the
/// target's time.
pub proof fn lemma_locate_first(times: Seq<i64>, target: i64, first: int)
    requires
        times.len() > 0,
        non_decreasing(times),
        first_at_or_after(times, target, first),
    ensures
        0 <= located(times, target) < times.len(),
        located(times, target) == (if first < times.len() {
            first
        } else {
            times.len() - 1
        }) <==> (located(times, target) == 0 || times[located(times, target) - 1] != target),
{
    lemma_search(times, 0, times.len() - 1, target);
    let answer = search(times, 0, times.len() - 1, target);
    let block = located(times, target);
    if answer < times.len() && times[answer] == target {
        assert(first <= answer);
        if answer > first {
            assert(times[first] <= times[answer - 1] <= times[answer]);
        }
    } else {
        assert(first == answer) by {
            if first < answer {
                assert(times[first] < target);
            }
            if answer < first {
                assert(times[answer] < target);
            }
        }
        if block > 0 {
            assert(times[block - 1] != target);
        }
    }
}

/// Where some block has exactly the target's time, the search settles on a
/// block with exactly that time, though not always on the first of them.
pub proof fn lemma_locate_exact(times: Seq<i64>, target: i64, witness: int)
    requires
        non_decreasing(times),
        0 <= witness < times.len(),
        times[witness] == target,
    ensures
        0 <= located(times, target) < times.len(),
        times[located(times, target)] == target,
{
    lemma_search(times, 0, times.len() - 1, target);
}

/// The search never settles on a block that is earlier than the target,
/// unless every block of the chain is.
pub proof fn lemma_locate_not_earlier(times: Seq<i64>, target: i64)
    requires
        times.len() > 0,
        non_decreasing(times),
        times[times.len() - 1] >= target,
    ensures
        0 <= located(times, target) < times.len(),
        times[located(times, target)] >= target,
{
    lemma_search(times, 0, times.len() - 1, target);
}

} // verus!
