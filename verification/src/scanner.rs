//! The backward scan: from a starting block down towards the chain's start,
//! block by block, until the time window is left behind.
//!
//! `ScanState` holds the decisions and the running aggregate for a caller
//! that fetches blocks and receipts itself. `scan` runs the same steps over a
//! chain that is held in memory.

use vstd::prelude::*;
use crate::amount::WideSum;
use crate::chain::{LogEntry, Transaction};
use crate::extract::{
    extract,
    extracted,
    lemma_records_within_range,
    targets_contract,
    total_amount,
    wants_receipt,
    TransferRecord,
};
use crate::filter::{Filter, WindowSide};

verus! {

/// Why a scan failed. A failed scan reports nothing.
#[derive(Clone, Copy, Debug, PartialEq, Eq, Structural)]
pub enum ScanError {
    /// A block that the scan asked for does not exist.
    BlockUnavailable,
    /// The receipt of a transaction that had to be examined does not exist.
    ReceiptUnavailable,
    /// Block number 0 came back where a later block was expected.
    UnexpectedGenesis,
}

/// Why a scan came to its end.
#[derive(Clone, Copy, Debug, PartialEq, Eq, Structural)]
pub enum StopReason {
    /// Block 1 was reached, the block right above the chain's first.
    ReachedGenesis,
    /// A block older than the window's start was reached.
    LeftWindow,
}

/// What to do with a block that was fetched.
#[derive(Clone, Copy, Debug, PartialEq, Eq, Structural)]
pub enum BlockAction {
    /// The block has number 0: the node is inconsistent and the run fails.
    Abort,
    /// The scan is complete; the block is not examined.
    Finish(StopReason),
    /// The block is more recent than the window: go on with the next one.
    Skip,
    /// The block lies in the window: examine its transactions, then go on.
    Process,
}

/// The decision on a fetched block, by its number and its time.
///
/// Number 0 is never a legitimate answer. Number 1 ends the scan whatever
/// its time. Any other block ends the scan if it is older than the window,
/// is skipped if it is more recent, and is examined otherwise.
pub open spec fn block_action(number: u64, timestamp: i64, filter: Filter) -> BlockAction {
    if number == 0 {
        BlockAction::Abort
    } else if number == 1 {
        BlockAction::Finish(StopReason::ReachedGenesis)
    } else {
        match filter.side_of(timestamp) {
            WindowSide::Before => BlockAction::Finish(StopReason::LeftWindow),
            WindowSide::After => BlockAction::Skip,
            WindowSide::Inside => BlockAction::Process,
        }
    }
}

/// The state of one scan: the number of the block to fetch next and the
/// aggregate over the records found so far.
pub struct ScanState {
    cursor: u64,
    count_all: u64,
    sum_all: WideSum,
    emitted: Ghost<Seq<TransferRecord>>,
}

impl ScanState {
    #[verifier::type_invariant]
    spec fn consistent(&self) -> bool {
        &&& self.count_all == self.emitted@.len()
        &&& self.sum_all@ == total_amount(self.emitted@)
        &&& self.sum_all.high <= self.count_all
    }

    /// The number of the block to fetch next.
    pub closed spec fn cursor_value(&self) -> u64 {
        self.cursor
    }

    /// The records that were handed to `record` so far, oldest call first.
    pub closed spec fn emitted(&self) -> Seq<TransferRecord> {
        self.emitted@
    }

    /// A scan that starts at block `start` and has found nothing yet.
    pub fn new(start: u64) -> (state: ScanState)
        ensures
            state.cursor_value() == start,
            state.emitted() == Seq::<TransferRecord>::empty(),
    {
        ScanState { cursor: start, count_all: 0, sum_all: WideSum::zero(), emitted: Ghost(Seq::empty()) }
    }

    /// The number of the block to fetch next.
    pub fn cursor(&self) -> (number: u64)
        ensures
            number == self.cursor_value(),
    {
        self.cursor
    }

    /// How many records were found: always the number of records emitted.
    pub fn count_all(&self) -> (count: u64)
        ensures
            count == self.emitted().len(),
    {
        proof {
            use_type_invariant(self);
        }
        self.count_all
    }

    /// The sum of the amounts found: always the exact sum over the records
    /// emitted.
    pub fn sum_all(&self) -> (sum: WideSum)
        ensures
            sum@ == total_amount(self.emitted()),
    {
        proof {
            use_type_invariant(self);
        }
        self.sum_all
    }

    /// Decides what to do with the block that was fetched, and moves the
    /// cursor to the block below it.
    ///
    /// The cursor moves for every block with a number above 1, before the
    /// block's time is looked at, so also where the scan ends on that block.
    /// For block 0 and block 1 it stays. The aggregate does not change.
    pub fn visit(&mut self, number: u64, timestamp: i64, filter: &Filter) -> (action: BlockAction)
        ensures
            action == block_action(number, timestamp, *filter),
            final(self).emitted() == old(self).emitted(),
            number >= 2 ==> final(self).cursor_value() == number - 1,
            number < 2 ==> final(self).cursor_value() == old(self).cursor_value(),
    {
        if number == 0 {
            return BlockAction::Abort;
        }
        if number == 1 {
            return BlockAction::Finish(StopReason::ReachedGenesis);
        }
        proof {
            use_type_invariant(&*self);
        }
        *self = ScanState {
            cursor: number - 1,
            count_all: self.count_all,
            sum_all: self.sum_all,
            emitted: self.emitted,
        };
        match filter.classify_time(timestamp) {
            WindowSide::Before => BlockAction::Finish(StopReason::LeftWindow),
            WindowSide::After => BlockAction::Skip,
            WindowSide::Inside => BlockAction::Process,
        }
    }

    /// Takes one record into the aggregate: the count grows by one and the
    /// sum by the record's amount. Neither ever shrinks.
    pub fn record(&mut self, record: &TransferRecord)
        requires
            old(self).emitted().len() < u64::MAX,
        ensures
            final(self).emitted() == old(self).emitted().push(*record),
            final(self).emitted().len() == old(self).emitted().len() + 1,
            total_amount(final(self).emitted()) == total_amount(old(self).emitted())
                + record.amount,
            final(self).cursor_value() == old(self).cursor_value(),
    {
        proof {
            use_type_invariant(&*self);
        }
        let mut sum = self.sum_all;
        sum.add_amount(record.amount);
        let ghost emitted = self.emitted@.push(*record);
        proof {
            assert(emitted.drop_last() =~= self.emitted@);
        }
        *self = ScanState {
            cursor: self.cursor,
            count_all: self.count_all + 1,
            sum_all: sum,
            emitted: Ghost(emitted),
        };
    }
}

/// A transaction together with what the node holds as its receipt.
#[derive(Clone, Debug, PartialEq, Eq)]
pub struct RecordedTransaction {
    /// The transaction as its block lists it.
    pub transaction: Transaction,
    /// The log entries of its receipt; `None` where the node has no receipt.
    pub receipt: Option<Vec<LogEntry>>,
}

/// A block of a chain held in memory. Its number is its place in the chain.
#[derive(Clone, Debug, PartialEq, Eq)]
pub struct RecordedBlock {
    /// The block's time (Unix time).
    pub timestamp: i64,
    /// The block's transactions, in their order.
    pub transactions: Vec<RecordedTransaction>,
}

/// What a completed scan found.
#[derive(Clone, Debug, PartialEq, Eq)]
pub struct ScanReport {
    /// The records, most recent block first and in each block in the order
    /// of its transactions.
    pub records: Vec<TransferRecord>,
    /// The number of records.
    pub count_all: u64,
    /// The sum of the records' amounts.
    pub sum_all: WideSum,
    /// The number of the block on which the scan ended.
    pub last_block: u64,
    /// Why it ended there.
    pub stop: StopReason,
}

/// Whether a scan that examines this transaction fails for want of its
/// receipt. Only the receipt of a transaction addressed to the contract is
/// ever asked for.
pub open spec fn receipt_missing(recorded: RecordedTransaction, filter: Filter) -> bool {
    targets_contract(recorded.transaction, filter) && recorded.receipt is None
}

/// Whether every receipt that a scan of this block needs is at hand.
pub open spec fn receipts_complete(block: RecordedBlock, filter: Filter) -> bool {
    forall|i: int|
        0 <= i < block.transactions@.len() ==> !receipt_missing(
            #[trigger] block.transactions@[i],
            filter,
        )
}

/// The records of one recorded transaction in a block of the given time.
pub open spec fn transaction_records(
    recorded: RecordedTransaction,
    filter: Filter,
    block_time: i64,
) -> Seq<TransferRecord> {
    match recorded.receipt {
        Some(logs) => extracted(recorded.transaction, logs@, filter, block_time),
        None => Seq::empty(),
    }
}

/// `transaction_records` as a function of the transaction alone.
pub open spec fn per_transaction(filter: Filter, block_time: i64) -> spec_fn(
    RecordedTransaction,
) -> Seq<TransferRecord> {
    |recorded: RecordedTransaction| transaction_records(recorded, filter, block_time)
}

/// The records of a block: those of its transactions, one transaction after
/// the other.
pub open spec fn block_records(block: RecordedBlock, filter: Filter) -> Seq<TransferRecord> {
    block.transactions@.flat_map(per_transaction(filter, block.timestamp))
}

/// What a block above the scan's end contributes: its records if its time
/// lies in the window, nothing if it is more recent.
pub open spec fn contribution(block: RecordedBlock, filter: Filter) -> Seq<TransferRecord> {
    if filter.side_of(block.timestamp) == WindowSide::Inside {
        block_records(block, filter)
    } else {
        Seq::empty()
    }
}

/// The block on which a scan from `start` ends: the highest block at or below
/// `start` that is block 1 (or 0) or is older than the window's start.
pub open spec fn stop_block(chain: Seq<RecordedBlock>, start: nat, filter: Filter) -> nat
    decreases start,
{
    if start <= 1 || chain[start as int].timestamp < filter.time_from {
        start
    } else {
        stop_block(chain, (start - 1) as nat, filter)
    }
}

/// The records of the blocks `high`, `high - 1`, down to `low + 1`, in that
/// order.
pub open spec fn window_records(
    chain: Seq<RecordedBlock>,
    low: nat,
    high: nat,
    filter: Filter,
) -> Seq<TransferRecord>
    decreases high - low,
{
    if high <= low {
        Seq::empty()
    } else {
        window_records(chain, low + 1, high, filter) + contribution(
            chain[low as int + 1],
            filter,
        )
    }
}

/// Whether some block from `high` down to `low + 1` lies in the window and
/// lacks a receipt that the scan needs.
pub open spec fn receipt_failure(
    chain: Seq<RecordedBlock>,
    low: nat,
    high: nat,
    filter: Filter,
) -> bool {
    exists|b: int|
        low < b <= high && filter.side_of((#[trigger] chain[b]).timestamp) == WindowSide::Inside
            && !receipts_complete(chain[b], filter)
}

/// The outcome of a scan of `chain` from block `start`, as `scan` computes
/// it.
///
/// The scan fails with `BlockUnavailable` if the chain has no block `start`,
/// and with `UnexpectedGenesis` if `start` is 0. Otherwise it walks down to
/// `stop_block`; it fails with `ReceiptUnavailable` if a block on the way
/// lies in the window and lacks a needed receipt, and else reports the
/// records of the blocks above the stop block that lie in the window.
pub open spec fn scan_outcome(
    chain: Seq<RecordedBlock>,
    start: u64,
    filter: Filter,
    result: Result<ScanReport, ScanError>,
) -> bool {
    let stop = stop_block(chain, start as nat, filter);
    if start >= chain.len() {
        result == Err::<ScanReport, ScanError>(ScanError::BlockUnavailable)
    } else if start == 0 {
        result == Err::<ScanReport, ScanError>(ScanError::UnexpectedGenesis)
    } else if receipt_failure(chain, stop, start as nat, filter) {
        result == Err::<ScanReport, ScanError>(ScanError::ReceiptUnavailable)
    } else {
        &&& result matches Ok(report)
        &&& report.records@ == window_records(chain, stop, start as nat, filter)
        &&& report.count_all == report.records@.len()
        &&& report.sum_all@ == total_amount(report.records@)
        &&& report.last_block == stop
        &&& report.stop == if stop == 1 {
            StopReason::ReachedGenesis
        } else {
            StopReason::LeftWindow
        }
    }
}

/// Examines the transactions of one block.
///
/// Fails, with `ReceiptUnavailable`, if and only if a transaction addressed
/// to the contract has no receipt. Otherwise returns the block's records in
/// the order of its transactions.
pub fn scan_block(block: &RecordedBlock, filter: &Filter) -> (result: Result<
    Vec<TransferRecord>,
    ScanError,
>)
    ensures
        result is Ok <==> receipts_complete(*block, *filter),
        result matches Ok(records) ==> records@ == block_records(*block, *filter),
        result matches Err(error) ==> error == ScanError::ReceiptUnavailable,
{
    let mut records: Vec<TransferRecord> = Vec::new();
    let ghost each = per_transaction(*filter, block.timestamp);
    let mut i: usize = 0;
    while i < block.transactions.len()
        invariant
            i <= block.transactions.len(),
            each == per_transaction(*filter, block.timestamp),
            records@ == block.transactions@.take(i as int).flat_map(each),
            forall|k: int|
                0 <= k < i ==> !receipt_missing(#[trigger] block.transactions@[k], *filter),
        decreases block.transactions.len() - i,
    {
        let recorded = &block.transactions[i];
        proof {
            let before = block.transactions@.take(i as int);
            before.lemma_flat_map_push(each, *recorded);
            assert(before.push(*recorded) =~= block.transactions@.take(i + 1));
        }
        if wants_receipt(&recorded.transaction, filter) {
            match &recorded.receipt {
                None => {
                    return Err(ScanError::ReceiptUnavailable);
                },
                Some(logs) => {
                    let mut found = extract(&recorded.transaction, logs, filter, block.timestamp);
                    records.append(&mut found);
                },
            }
        } else {
            proof {
                assert(each(*recorded) =~= Seq::<TransferRecord>::empty());
                assert(records@ + each(*recorded) =~= records@);
            }
        }
        i += 1;
    }
    proof {
        assert(block.transactions@.take(i as int) =~= block.transactions@);
    }
    Ok(records)
}

/// Scans a chain held in memory backward from block `start`.
///
/// Block `n` of the chain is `chain[n]`. The scan fetches `start`, then the
/// block below it, and so on. It ends on block 1, or on the first block that
/// is older than the window's start; a block more recent than the window's
/// end is passed over. It always ends, and never fetches block 0 unless it
/// was told to start there.
pub fn scan(chain: &Vec<RecordedBlock>, start: u64, filter: &Filter) -> (result: Result<
    ScanReport,
    ScanError,
>)
    ensures
        scan_outcome(chain@, start, *filter, result),
        result matches Ok(report) ==> {
            &&& 1 <= report.last_block <= start
            &&& report.last_block == 1 || chain@[report.last_block as int].timestamp
                < filter.time_from
            &&& report.count_all == report.records@.len()
            &&& report.sum_all@ == total_amount(report.records@)
        },
{
    if start >= chain.len() as u64 {
        return Err(ScanError::BlockUnavailable);
    }
    let mut state = ScanState::new(start);
    let mut records: Vec<TransferRecord> = Vec::new();
    loop
        invariant
            state.cursor_value() <= start < chain.len(),
            start > 0 ==> state.cursor_value() > 0,
            stop_block(chain@, state.cursor_value() as nat, *filter) == stop_block(
                chain@,
                start as nat,
                *filter,
            ),
            records@ == window_records(
                chain@,
                state.cursor_value() as nat,
                start as nat,
                *filter,
            ),
            !receipt_failure(chain@, state.cursor_value() as nat, start as nat, *filter),
            state.emitted() == records@,
        decreases state.cursor_value(),
    {
        let number = state.cursor();
        let block = &chain[number as usize];
        let ghost stop = stop_block(chain@, start as nat, *filter);
        match state.visit(number, block.timestamp, filter) {
            BlockAction::Abort => {
                return Err(ScanError::UnexpectedGenesis);
            },
            BlockAction::Finish(stop_reason) => {
                let count_all = state.count_all();
                let sum_all = state.sum_all();
                proof {
                    lemma_stop_block_bounds(chain@, start as nat, *filter, 0);
                }
                return Ok(ScanReport { records, count_all, sum_all, last_block: number, stop: stop_reason });
            },
            BlockAction::Skip => {
                proof {
                    lemma_window_step(chain@, (number - 1) as nat, start as nat, *filter);
                    lemma_receipt_failure_step(chain@, (number - 1) as nat, start as nat, *filter);
                    assert(records@ + contribution(chain@[number as int], *filter) =~= records@);
                }
            },
            BlockAction::Process => {
                proof {
                    lemma_window_step(chain@, (number - 1) as nat, start as nat, *filter);
                    lemma_receipt_failure_step(chain@, (number - 1) as nat, start as nat, *filter);
                }
                let found = match scan_block(block, filter) {
                    Ok(found) => found,
                    Err(error) => {
                        assert(receipt_failure(chain@, stop, start as nat, *filter)) by {
                            lemma_stop_block_bounds(chain@, (number - 1) as nat, *filter, 0);
                            let b = number as int;
                            assert(stop < b <= start && filter.side_of(chain@[b].timestamp)
                                == WindowSide::Inside);
                        }
                        return Err(error);
                    },
                };
                let ghost before = records@;
                let mut j: usize = 0;
                while j < found.len()
                    invariant
                        j <= found.len(),
                        records@ == before + found@.take(j as int),
                        state.emitted() == records@,
                        state.cursor_value() == number - 1,
                    decreases found.len() - j,
                {
                    records.push(found[j]);
                    assert(state.emitted().len() < records.len() <= u64::MAX);
                    state.record(&found[j]);
                    proof {
                        assert(found@.take(j + 1) =~= found@.take(j as int).push(found@[j as int]));
                        assert(records@ =~= before + found@.take(j + 1));
                    }
                    j += 1;
                }
                proof {
                    assert(found@.take(j as int) =~= found@);
                }
            },
        }
    }
}

/// Lowering the bottom of a range of blocks by one adds that block's
/// contribution at the end.
proof fn lemma_window_step(chain: Seq<RecordedBlock>, low: nat, high: nat, filter: Filter)
    requires
        low < high,
    ensures
        window_records(chain, low, high, filter) == window_records(chain, low + 1, high, filter)
            + contribution(chain[low as int + 1], filter),
{
}

/// A range of blocks has a receipt failure exactly if its lowest block has
/// one or the blocks above it have.
proof fn lemma_receipt_failure_step(chain: Seq<RecordedBlock>, low: nat, high: nat, filter: Filter)
    requires
        low < high,
    ensures
        receipt_failure(chain, low, high, filter) <==> receipt_failure(chain, low + 1, high, filter)
            || (filter.side_of(chain[low as int + 1].timestamp) == WindowSide::Inside
            && !receipts_complete(chain[low as int + 1], filter)),
{
    if receipt_failure(chain, low, high, filter) {
        let b = choose|b: int|
            low < b <= high && filter.side_of((#[trigger] chain[b]).timestamp)
                == WindowSide::Inside && !receipts_complete(chain[b], filter);
        if b != low + 1 {
            assert(receipt_failure(chain, low + 1, high, filter));
        }
    }
    if receipt_failure(chain, low + 1, high, filter) {
        let b = choose|b: int|
            low + 1 < b <= high && filter.side_of((#[trigger] chain[b]).timestamp)
                == WindowSide::Inside && !receipts_complete(chain[b], filter);
        assert(low < b <= high);
    }
    if filter.side_of(chain[low as int + 1].timestamp) == WindowSide::Inside && !receipts_complete(
        chain[low as int + 1],
        filter,
    ) {
        let b = low as int + 1;
        assert(low < b <= high && filter.side_of(chain[b].timestamp) == WindowSide::Inside);
    }
}

/// A scan ends where it should: at or below its start, never below block 1
/// unless it starts there, and on block 1 or on a block older than the
/// window. Every block above the stop block, up to the start, has a number
/// above 1 and is not older than the window: the scan passes it.
pub proof fn lemma_scan_ends(chain: Seq<RecordedBlock>, start: nat, filter: Filter)
    ensures
        stop_block(chain, start, filter) <= start,
        start >= 1 ==> stop_block(chain, start, filter) >= 1,
        stop_block(chain, start, filter) <= 1 || chain[stop_block(
            chain,
            start,
            filter,
        ) as int].timestamp < filter.time_from,
        forall|b: int|
            stop_block(chain, start, filter) < b <= start ==> b >= 2 && (#[trigger] chain[b]).timestamp
                >= filter.time_from,
{
    lemma_stop_block_bounds(chain, start, filter, 0);
    assert forall|b: int| stop_block(chain, start, filter) < b <= start implies b >= 2 && (
    #[trigger] chain[b]).timestamp >= filter.time_from by {
        lemma_stop_block_bounds(chain, start, filter, b);
    }
}

/// The facts of `lemma_scan_ends` for one block `b`, and that a scan from a
/// block that another scan passes ends where that scan ends.
proof fn lemma_stop_block_bounds(chain: Seq<RecordedBlock>, start: nat, filter: Filter, b: int)
    ensures
        stop_block(chain, start, filter) <= start,
        start >= 1 ==> stop_block(chain, start, filter) >= 1,
        stop_block(chain, start, filter) <= 1 || chain[stop_block(
            chain,
            start,
            filter,
        ) as int].timestamp < filter.time_from,
        stop_block(chain, start, filter) < b <= start ==> b >= 2 && chain[b].timestamp
            >= filter.time_from && stop_block(chain, b as nat, filter) == stop_block(
            chain,
            start,
            filter,
        ),
    decreases start,
{
    if !(start <= 1 || chain[start as int].timestamp < filter.time_from) {
        lemma_stop_block_bounds(chain, (start - 1) as nat, filter, b);
    }
}

/// Whether a record fits a filter: its time lies in the window and its
/// amount in the range.
pub open spec fn fits(record: TransferRecord, filter: Filter) -> bool {
    &&& filter.time_from <= record.timestamp <= filter.time_to
    &&& filter.amount_from <= record.amount <= filter.amount_to
}

/// Every record of the transactions of a block fits the filter's amount
/// range and carries the block's time.
proof fn lemma_transactions_records(
    transactions: Seq<RecordedTransaction>,
    filter: Filter,
    block_time: i64,
)
    ensures
        forall|i: int|
            0 <= i < transactions.flat_map(per_transaction(filter, block_time)).len() ==> {
                let record = #[trigger] transactions.flat_map(
                    per_transaction(filter, block_time),
                )[i];
                &&& record.timestamp == block_time
                &&& filter.amount_from <= record.amount <= filter.amount_to
            },
    decreases transactions.len(),
{
    let each = per_transaction(filter, block_time);
    if transactions.len() > 0 {
        let init = transactions.drop_last();
        let last = transactions.last();
        lemma_transactions_records(init, filter, block_time);
        init.lemma_flat_map_push(each, last);
        assert(init.push(last) =~= transactions);
        match last.receipt {
            Some(logs) => {
                lemma_records_within_range(last.transaction, logs@, filter, block_time);
            },
            None => {},
        }
    } else {
        assert(transactions.map_values(each) =~= Seq::<Seq<TransferRecord>>::empty());
    }
}

/// Nothing is reported that was not asked for: every record that a scan
/// reports lies in the filter's time window and in its amount range.
pub proof fn lemma_reported_records_fit(
    chain: Seq<RecordedBlock>,
    low: nat,
    high: nat,
    filter: Filter,
)
    ensures
        forall|i: int|
            0 <= i < window_records(chain, low, high, filter).len() ==> fits(
                #[trigger] window_records(chain, low, high, filter)[i],
                filter,
            ),
    decreases high - low,
{
    if low < high {
        lemma_reported_records_fit(chain, low + 1, high, filter);
        let block = chain[low as int + 1];
        lemma_transactions_records(block.transactions@, filter, block.timestamp);
        let above = window_records(chain, low + 1, high, filter);
        let added = contribution(block, filter);
        let all = window_records(chain, low, high, filter);
        assert(all == above + added);
        assert forall|i: int| 0 <= i < all.len() implies fits(#[trigger] all[i], filter) by {
            if i < above.len() {
                assert(all[i] == above[i]);
            } else {
                assert(all[i] == added[i - above.len()]);
                assert(added == block_records(block, filter));
            }
        }
    }
}

} // verus!
