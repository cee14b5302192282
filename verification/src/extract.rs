//! Turning the log entries of one transaction into transfer records.

use vstd::prelude::*;
use crate::amount::{decode_amount, decoded_amount};
use crate::chain::{Address, Hash32, LogEntry, Transaction};
use crate::filter::Filter;

verus! {

/// Number of topics of a transfer event: its signature and the two parties.
pub const TRANSFER_TOPICS: usize = 3;

/// One transfer that matched the filter.
#[derive(Clone, Copy, Debug, PartialEq, Eq)]
pub struct TransferRecord {
    /// Time of the block that holds the transaction (Unix time).
    pub timestamp: i64,
    /// The amount moved, in the token's smallest units.
    pub amount: u128,
    /// The sender, where the filter asks for the parties.
    pub from_address: Option<Address>,
    /// The recipient, where the filter asks for the parties.
    pub to_address: Option<Address>,
    /// Hash of the transaction that emitted the event.
    pub tx_hash: Hash32,
}

/// Whether the transaction is addressed to the filter's contract. One that
/// creates a contract has no destination and is not.
pub open spec fn targets_contract(tx: Transaction, filter: Filter) -> bool {
    tx.to == Some(filter.contract_address)
}

/// Whether a log entry is a transfer that the filter wants: the contract
/// emitted it, it has three topics, the first of them is the event's
/// signature where that is checked, and its amount lies within the range.
pub open spec fn log_matches(log: LogEntry, filter: Filter) -> bool {
    &&& log.address == filter.contract_address
    &&& log.topics@.len() == TRANSFER_TOPICS
    &&& (filter.check_signature ==> log.topics@[0] == filter.event_signature)
    &&& decoded_amount(log.data@) matches Some(units) && filter.admits_amount(units)
}

/// The record that a matching log entry gives rise to.
pub open spec fn record_of(
    log: LogEntry,
    tx_hash: Hash32,
    filter: Filter,
    block_time: i64,
) -> TransferRecord {
    TransferRecord {
        timestamp: block_time,
        amount: decoded_amount(log.data@).unwrap() as u128,
        from_address: if filter.decode_parties {
            Some(Address::of_topic(log.topics@[1]))
        } else {
            None
        },
        to_address: if filter.decode_parties {
            Some(Address::of_topic(log.topics@[2]))
        } else {
            None
        },
        tx_hash,
    }
}

/// What one log entry yields: its record if it matches, nothing otherwise.
pub open spec fn matched_record(
    log: LogEntry,
    tx_hash: Hash32,
    filter: Filter,
    block_time: i64,
) -> Option<TransferRecord> {
    if log_matches(log, filter) {
        Some(record_of(log, tx_hash, filter, block_time))
    } else {
        None
    }
}

/// `matched_record` as a function of the log entry alone.
pub open spec fn matcher(tx_hash: Hash32, filter: Filter, block_time: i64) -> spec_fn(
    LogEntry,
) -> Option<TransferRecord> {
    |log: LogEntry| matched_record(log, tx_hash, filter, block_time)
}

/// The records of one transaction: for a transaction addressed to the
/// contract, the records of its matching log entries in the receipt's order;
/// for any other, none.
pub open spec fn extracted(
    tx: Transaction,
    logs: Seq<LogEntry>,
    filter: Filter,
    block_time: i64,
) -> Seq<TransferRecord> {
    if targets_contract(tx, filter) {
        logs.filter_map(matcher(tx.hash, filter, block_time))
    } else {
        Seq::empty()
    }
}

/// Whether a transaction's receipt has to be looked at: only a transaction
/// addressed to the contract can yield records.
pub fn wants_receipt(tx: &Transaction, filter: &Filter) -> (wanted: bool)
    ensures
        wanted == targets_contract(*tx, *filter),
{
    match tx.to {
        Some(to) => to == filter.contract_address,
        None => false,
    }
}

/// Examines one log entry of a receipt.
///
/// Returns the entry's record if and only if the entry matches the filter.
/// An entry that does not match, or whose payload is malformed, is passed
/// over without an error.
pub fn match_log(log: &LogEntry, tx_hash: &Hash32, filter: &Filter, block_time: i64) -> (record:
    Option<TransferRecord>)
    ensures
        record is Some <==> log_matches(*log, *filter),
        record == matched_record(*log, *tx_hash, *filter, block_time),
{
    if log.address != filter.contract_address {
        return None;
    }
    if log.topics.len() != TRANSFER_TOPICS {
        return None;
    }
    if filter.check_signature && log.topics[0] != filter.event_signature {
        return None;
    }
    let amount = match decode_amount(log.data.as_slice()) {
        Some(units) => units,
        None => {
            return None;
        },
    };
    if !filter.amount_in_range(amount) {
        return None;
    }
    let from_address = if filter.decode_parties {
        Some(Address::from_topic(&log.topics[1]))
    } else {
        None
    };
    let to_address = if filter.decode_parties {
        Some(Address::from_topic(&log.topics[2]))
    } else {
        None
    };
    Some(TransferRecord { timestamp: block_time, amount, from_address, to_address, tx_hash: *tx_hash })
}

/// Extracts the transfer records of one transaction from its receipt's log
/// entries.
///
/// A transaction that is not addressed to the filter's contract yields
/// nothing, whatever its receipt holds. Otherwise every matching entry yields
/// one record, in the receipt's order, and no other entry yields any.
pub fn extract(tx: &Transaction, logs: &Vec<LogEntry>, filter: &Filter, block_time: i64) -> (records:
    Vec<TransferRecord>)
    ensures
        records@ == extracted(*tx, logs@, *filter, block_time),
{
    let mut records: Vec<TransferRecord> = Vec::new();
    if !wants_receipt(tx, filter) {
        return records;
    }
    let ghost pick = matcher(tx.hash, *filter, block_time);
    let mut i: usize = 0;
    while i < logs.len()
        invariant
            i <= logs.len(),
            pick == matcher(tx.hash, *filter, block_time),
            records@ == logs@.take(i as int).filter_map(pick),
        decreases logs.len() - i,
    {
        proof {
            let before = logs@.take(i as int);
            let upto = logs@.take(i + 1);
            assert(upto.drop_last() =~= before);
            assert(upto.last() == logs@[i as int]);
        }
        match match_log(&logs[i], &tx.hash, filter, block_time) {
            Some(record) => {
                records.push(record);
            },
            None => {},
        }
        i += 1;
    }
    proof {
        assert(logs@.take(i as int) =~= logs@);
    }
    records
}

/// The sum of the amounts of a sequence of records.
pub open spec fn total_amount(records: Seq<TransferRecord>) -> nat
    decreases records.len(),
{
    if records.len() == 0 {
        0
    } else {
        total_amount(records.drop_last()) + records.last().amount as nat
    }
}

/// `log_matches` as a function of the log entry alone.
pub open spec fn wanted(filter: Filter) -> spec_fn(LogEntry) -> bool {
    |log: LogEntry| log_matches(log, filter)
}

/// `record_of` as a function of the log entry alone.
pub open spec fn recorder(tx_hash: Hash32, filter: Filter, block_time: i64) -> spec_fn(
    LogEntry,
) -> TransferRecord {
    |log: LogEntry| record_of(log, tx_hash, filter, block_time)
}

/// Extraction is exact: the records of a transaction addressed to the
/// contract are those of its matching log entries, one for each and in their
/// order, and a log entry that does not match yields none. A transaction
/// addressed elsewhere yields no record at all.
pub proof fn lemma_extraction_exact(
    tx: Transaction,
    logs: Seq<LogEntry>,
    filter: Filter,
    block_time: i64,
)
    ensures
        targets_contract(tx, filter) ==> extracted(tx, logs, filter, block_time) == logs.filter(
            wanted(filter),
        ).map_values(recorder(tx.hash, filter, block_time)),
        !targets_contract(tx, filter) ==> extracted(tx, logs, filter, block_time).len() == 0,
    decreases logs.len(),
{
    if targets_contract(tx, filter) {
        let keep = wanted(filter);
        let make = recorder(tx.hash, filter, block_time);
        if logs.len() == 0 {
            assert(logs.filter(keep) =~= Seq::<LogEntry>::empty()) by {
                logs.lemma_filter_len(keep);
            }
            assert(extracted(tx, logs, filter, block_time) =~= logs.filter(keep).map_values(make));
        } else {
            let init = logs.drop_last();
            let last = logs.last();
            lemma_extraction_exact(tx, init, filter, block_time);
            assert(init.push(last) =~= logs);
            init.lemma_filter_push(last, keep);
            if log_matches(last, filter) {
                init.filter(keep).lemma_push_map_commute(make, last);
                assert(extracted(tx, logs, filter, block_time) =~= logs.filter(keep).map_values(
                    make,
                ));
            }
        }
    }
}

/// Every record of a transaction carries the block's time and the
/// transaction's hash, and an amount within the filter's range.
pub proof fn lemma_records_within_range(
    tx: Transaction,
    logs: Seq<LogEntry>,
    filter: Filter,
    block_time: i64,
)
    ensures
        forall|i: int|
            0 <= i < extracted(tx, logs, filter, block_time).len() ==> {
                let record = #[trigger] extracted(tx, logs, filter, block_time)[i];
                &&& filter.amount_from <= record.amount <= filter.amount_to
                &&& record.timestamp == block_time
                &&& record.tx_hash == tx.hash
            },
    decreases logs.len(),
{
    if targets_contract(tx, filter) && logs.len() > 0 {
        lemma_records_within_range(tx, logs.drop_last(), filter, block_time);
    }
}

} // verus!
