use transfer_scan::amount::{decode_amount, WideSum, AMOUNT_SCALE};
use transfer_scan::chain::{Address, Hash32, LogEntry, Transaction};
use transfer_scan::extract::{extract, match_log, wants_receipt, TransferRecord};
use transfer_scan::filter::{Filter, WindowSide};

fn payload_of(units: u128) -> Vec<u8> {
    let mut payload = vec![0u8; 16];
    payload.extend_from_slice(&units.to_be_bytes());
    payload
}

fn address(last: u8) -> Address {
    let mut bytes = [0u8; 20];
    bytes[0] = 0xda;
    bytes[19] = last;
    Address { bytes }
}

fn hash(last: u8) -> Hash32 {
    let mut bytes = [0u8; 32];
    bytes[0] = 0x11;
    bytes[31] = last;
    Hash32 { bytes }
}

fn party_topic(party: &Address) -> Hash32 {
    let mut bytes = [0u8; 32];
    bytes[12..].copy_from_slice(&party.bytes);
    Hash32 { bytes }
}

fn signature() -> Hash32 {
    hash(0xef)
}

fn token() -> Address {
    address(0xc7)
}

fn filter(amount_from: u128, amount_to: u128) -> Filter {
    Filter {
        time_from: 150,
        time_to: 450,
        amount_from,
        amount_to,
        contract_address: token(),
        event_signature: signature(),
        check_signature: true,
        decode_parties: false,
    }
}

fn transfer_log(units: u128) -> LogEntry {
    LogEntry {
        address: token(),
        topics: vec![signature(), party_topic(&address(1)), party_topic(&address(2))],
        data: payload_of(units),
    }
}

fn token_tx(id: u8) -> Transaction {
    Transaction { hash: hash(id), to: Some(token()) }
}

#[test]
fn one_token_decodes_to_one() {
    let amount = decode_amount(&payload_of(1_000_000)).unwrap();
    assert_eq!(amount, 1_000_000);
    assert_eq!(amount as f64 / AMOUNT_SCALE as f64, 1.0);
}

#[test]
fn large_amount_decodes_exactly() {
    let amount = decode_amount(&payload_of(1_234_567_000_000)).unwrap();
    assert_eq!(amount, 1_234_567_000_000);
    assert_eq!(amount as f64 / AMOUNT_SCALE as f64, 1_234_567.0);
}

#[test]
fn decoding_reads_most_significant_byte_first() {
    let mut payload = vec![0u8; 32];
    payload[30] = 0x01;
    payload[31] = 0x02;
    assert_eq!(decode_amount(&payload), Some(258));
    let mut top = vec![0u8; 32];
    top[16] = 0x80;
    assert_eq!(decode_amount(&top), Some(1u128 << 127));
}

#[test]
fn decoding_holds_the_full_128_bits() {
    let mut payload = vec![0u8; 16];
    payload.extend_from_slice(&[0xff; 16]);
    assert_eq!(decode_amount(&payload), Some(u128::MAX));
}

#[test]
fn decoding_ignores_the_high_half() {
    let mut payload = payload_of(42);
    payload[0] = 0xff;
    payload[15] = 0x01;
    assert_eq!(decode_amount(&payload), Some(42));
}

#[test]
fn zero_payload_decodes_to_zero() {
    assert_eq!(decode_amount(&[0u8; 32]), Some(0));
}

#[test]
fn payload_of_another_length_carries_no_amount() {
    assert_eq!(decode_amount(&[]), None);
    assert_eq!(decode_amount(&[0u8; 16]), None);
    assert_eq!(decode_amount(&[0u8; 31]), None);
    assert_eq!(decode_amount(&[0u8; 33]), None);
    assert_eq!(decode_amount(&[0u8; 48]), None);
    assert_eq!(decode_amount(&[0u8; 64]), None);
}

#[test]
fn wide_sum_starts_empty() {
    assert_eq!(WideSum::zero(), WideSum { high: 0, low: 0 });
}

#[test]
fn wide_sum_adds_without_carry() {
    let mut sum = WideSum::zero();
    sum.add_amount(1_500_000_000);
    sum.add_amount(250);
    assert_eq!(sum, WideSum { high: 0, low: 1_500_000_250 });
}

#[test]
fn wide_sum_carries_into_the_high_part() {
    let mut sum = WideSum::zero();
    sum.add_amount(u128::MAX);
    sum.add_amount(1);
    assert_eq!(sum, WideSum { high: 1, low: 0 });
    sum.add_amount(u128::MAX);
    sum.add_amount(u128::MAX);
    assert_eq!(sum, WideSum { high: 2, low: u128::MAX - 1 });
}

#[test]
fn addresses_compare_byte_by_byte() {
    assert_eq!(address(1), address(1));
    assert_ne!(address(1), address(2));
    let mut other = address(1);
    other.bytes[0] = 0;
    assert_ne!(address(1), other);
    assert_eq!(hash(7), hash(7));
    assert_ne!(hash(7), hash(8));
}

#[test]
fn address_is_the_low_twenty_bytes_of_a_topic() {
    let mut bytes = [0u8; 32];
    for (i, byte) in bytes.iter_mut().enumerate() {
        *byte = i as u8;
    }
    let found = Address::from_topic(&Hash32 { bytes });
    let mut expected = [0u8; 20];
    for (i, byte) in expected.iter_mut().enumerate() {
        *byte = 12 + i as u8;
    }
    assert_eq!(found, Address { bytes: expected });
}

#[test]
fn filter_needs_a_window_in_order() {
    let made = Filter::new(150, 450, 1, 2, token(), signature(), true, false);
    assert_eq!(
        made,
        Some(Filter {
            time_from: 150,
            time_to: 450,
            amount_from: 1,
            amount_to: 2,
            contract_address: token(),
            event_signature: signature(),
            check_signature: true,
            decode_parties: false,
        })
    );
    assert!(Filter::new(450, 450, 1, 2, token(), signature(), false, true).is_some());
    assert_eq!(Filter::new(451, 450, 1, 2, token(), signature(), true, false), None);
}

#[test]
fn window_bounds_are_inclusive() {
    let f = filter(0, 0);
    assert_eq!(f.classify_time(149), WindowSide::Before);
    assert_eq!(f.classify_time(150), WindowSide::Inside);
    assert_eq!(f.classify_time(300), WindowSide::Inside);
    assert_eq!(f.classify_time(450), WindowSide::Inside);
    assert_eq!(f.classify_time(451), WindowSide::After);
    assert_eq!(f.classify_time(-1), WindowSide::Before);
}

#[test]
fn amount_bounds_are_inclusive() {
    let f = filter(1_000, 2_000);
    assert!(!f.amount_in_range(999));
    assert!(f.amount_in_range(1_000));
    assert!(f.amount_in_range(1_500));
    assert!(f.amount_in_range(2_000));
    assert!(!f.amount_in_range(2_001));
}

#[test]
fn receipt_is_wanted_only_for_the_contract() {
    let f = filter(0, u128::MAX);
    assert!(wants_receipt(&token_tx(1), &f));
    assert!(!wants_receipt(&Transaction { hash: hash(1), to: Some(address(9)) }, &f));
    assert!(!wants_receipt(&Transaction { hash: hash(1), to: None }, &f));
}

#[test]
fn matching_log_yields_its_record() {
    let f = filter(1_000_000_000, 2_000_000_000);
    let record = match_log(&transfer_log(1_500_000_000), &hash(5), &f, 300);
    assert_eq!(
        record,
        Some(TransferRecord {
            timestamp: 300,
            amount: 1_500_000_000,
            from_address: None,
            to_address: None,
            tx_hash: hash(5),
        })
    );
}

#[test]
fn log_of_another_contract_is_passed_over() {
    let f = filter(0, u128::MAX);
    let mut log = transfer_log(5);
    log.address = address(9);
    assert_eq!(match_log(&log, &hash(5), &f, 300), None);
}

#[test]
fn log_needs_exactly_three_topics() {
    let f = filter(0, u128::MAX);
    let mut two = transfer_log(5);
    two.topics.pop();
    assert_eq!(match_log(&two, &hash(5), &f, 300), None);
    let mut four = transfer_log(5);
    four.topics.push(hash(0));
    assert_eq!(match_log(&four, &hash(5), &f, 300), None);
    let mut none = transfer_log(5);
    none.topics.clear();
    assert_eq!(match_log(&none, &hash(5), &f, 300), None);
}

#[test]
fn signature_is_checked_only_where_asked() {
    let mut log = transfer_log(5);
    log.topics[0] = hash(0x01);
    let checking = filter(0, u128::MAX);
    assert_eq!(match_log(&log, &hash(5), &checking, 300), None);
    let mut lenient = filter(0, u128::MAX);
    lenient.check_signature = false;
    assert!(match_log(&log, &hash(5), &lenient, 300).is_some());
}

#[test]
fn amount_outside_the_range_is_passed_over() {
    let f = filter(1_000, 2_000);
    assert_eq!(match_log(&transfer_log(999), &hash(5), &f, 300), None);
    assert!(match_log(&transfer_log(1_000), &hash(5), &f, 300).is_some());
    assert!(match_log(&transfer_log(2_000), &hash(5), &f, 300).is_some());
    assert_eq!(match_log(&transfer_log(2_001), &hash(5), &f, 300), None);
}

#[test]
fn malformed_payload_is_passed_over() {
    let f = filter(0, u128::MAX);
    let mut log = transfer_log(5);
    log.data.push(0);
    assert_eq!(match_log(&log, &hash(5), &f, 300), None);
    log.data.clear();
    assert_eq!(match_log(&log, &hash(5), &f, 300), None);
}

#[test]
fn parties_are_decoded_where_asked() {
    let mut f = filter(0, u128::MAX);
    f.decode_parties = true;
    let record = match_log(&transfer_log(7), &hash(5), &f, 300).unwrap();
    assert_eq!(record.from_address, Some(address(1)));
    assert_eq!(record.to_address, Some(address(2)));
    assert_eq!(record.amount, 7);
}

#[test]
fn extract_keeps_matching_logs_in_order() {
    let f = filter(1_000, 2_000);
    let mut foreign = transfer_log(1_500);
    foreign.address = address(9);
    let logs = vec![
        transfer_log(1_100),
        transfer_log(5),
        foreign,
        transfer_log(1_900),
        transfer_log(3_000),
        transfer_log(1_100),
    ];
    let records = extract(&token_tx(4), &logs, &f, 300);
    let amounts: Vec<u128> = records.iter().map(|r| r.amount).collect();
    assert_eq!(amounts, vec![1_100, 1_900, 1_100]);
    for record in &records {
        assert_eq!(record.tx_hash, hash(4));
        assert_eq!(record.timestamp, 300);
        assert!(f.amount_from <= record.amount && record.amount <= f.amount_to);
    }
}

#[test]
fn extract_yields_nothing_for_another_destination() {
    let f = filter(0, u128::MAX);
    let logs = vec![transfer_log(1_100)];
    let elsewhere = Transaction { hash: hash(4), to: Some(address(9)) };
    assert!(extract(&elsewhere, &logs, &f, 300).is_empty());
    let creation = Transaction { hash: hash(4), to: None };
    assert!(extract(&creation, &logs, &f, 300).is_empty());
    assert_eq!(extract(&token_tx(4), &logs, &f, 300).len(), 1);
}

#[test]
fn extract_of_no_logs_is_empty() {
    let f = filter(0, u128::MAX);
    assert!(extract(&token_tx(4), &Vec::new(), &f, 300).is_empty());
}
