use photon_packets::error::DecodeError;
use photon_packets::fragment::FragmentReassembler;
use photon_packets::header::CommandHeader;
use photon_packets::typ::CommandType;

fn fragment(start: u32, count: u32, offset: u32, total: u32) -> CommandHeader {
    CommandHeader::new(CommandType::Reliable, 0, 0, start).make_fragmented(start, count, 0, offset, total)
}

#[test]
fn fragments_in_order_complete_on_the_last() {
    let mut r = FragmentReassembler::new();
    assert_eq!(r.ingest(&fragment(7, 3, 0, 6), &[1, 2]), Ok(None));
    assert!(r.is_pending(7));
    assert_eq!(r.ingest(&fragment(7, 3, 2, 6), &[3, 4]), Ok(None));
    assert_eq!(
        r.ingest(&fragment(7, 3, 4, 6), &[5, 6]),
        Ok(Some(vec![1, 2, 3, 4, 5, 6]))
    );
    assert!(!r.is_pending(7));
}

#[test]
fn fragments_out_of_order_give_the_same_message() {
    let orders: [[usize; 3]; 6] = [
        [0, 1, 2],
        [0, 2, 1],
        [1, 0, 2],
        [1, 2, 0],
        [2, 0, 1],
        [2, 1, 0],
    ];
    let parts: [(u32, &[u8]); 3] = [(0, &[1, 2, 3]), (3, &[4]), (4, &[5, 6])];
    for order in orders {
        let mut r = FragmentReassembler::new();
        let mut results = Vec::new();
        for i in order {
            let (offset, bytes) = parts[i];
            results.push(r.ingest(&fragment(1, 3, offset, 6), bytes));
        }
        assert_eq!(results[0], Ok(None));
        assert_eq!(results[1], Ok(None));
        assert_eq!(results[2], Ok(Some(vec![1, 2, 3, 4, 5, 6])));
        assert!(!r.is_pending(1));
    }
}

#[test]
fn single_fragment_completes_at_once() {
    let mut r = FragmentReassembler::new();
    assert_eq!(r.ingest(&fragment(3, 1, 0, 2), &[8, 9]), Ok(Some(vec![8, 9])));
    assert!(!r.is_pending(3));
}

#[test]
fn duplicate_fragment_is_not_counted() {
    let mut r = FragmentReassembler::new();
    assert_eq!(r.ingest(&fragment(7, 2, 0, 4), &[1, 2]), Ok(None));
    assert_eq!(r.ingest(&fragment(7, 2, 0, 4), &[1, 2]), Ok(None));
    assert_eq!(r.ingest(&fragment(7, 2, 0, 4), &[9, 9]), Ok(None));
    assert!(r.is_pending(7));
    assert_eq!(r.ingest(&fragment(7, 2, 2, 4), &[3, 4]), Ok(Some(vec![1, 2, 3, 4])));
}

#[test]
fn message_is_delivered_once() {
    let mut r = FragmentReassembler::new();
    assert_eq!(r.ingest(&fragment(7, 2, 0, 2), &[1]), Ok(None));
    assert_eq!(r.ingest(&fragment(7, 2, 1, 2), &[2]), Ok(Some(vec![1, 2])));
    // the same fragment again starts a new message
    assert_eq!(r.ingest(&fragment(7, 2, 1, 2), &[2]), Ok(None));
    assert!(r.is_pending(7));
}

#[test]
fn messages_do_not_mix() {
    let mut r = FragmentReassembler::new();
    assert_eq!(r.ingest(&fragment(1, 2, 0, 2), &[1]), Ok(None));
    assert_eq!(r.ingest(&fragment(2, 2, 0, 2), &[7]), Ok(None));
    assert_eq!(r.ingest(&fragment(2, 2, 1, 2), &[8]), Ok(Some(vec![7, 8])));
    assert!(r.is_pending(1));
    assert_eq!(r.ingest(&fragment(1, 2, 1, 2), &[2]), Ok(Some(vec![1, 2])));
}

#[test]
fn unfilled_places_are_zero() {
    let mut r = FragmentReassembler::new();
    assert_eq!(r.ingest(&fragment(1, 2, 0, 5), &[1]), Ok(None));
    assert_eq!(r.ingest(&fragment(1, 2, 4, 5), &[2]), Ok(Some(vec![1, 0, 0, 0, 2])));
}

#[test]
fn fragment_beyond_the_message_is_an_error_and_discards() {
    let mut r = FragmentReassembler::new();
    assert_eq!(r.ingest(&fragment(7, 2, 0, 4), &[1, 2]), Ok(None));
    assert_eq!(
        r.ingest(&fragment(7, 2, 3, 4), &[3, 4]),
        Err(DecodeError::FragmentOutOfBounds)
    );
    assert!(!r.is_pending(7));
    // a fresh start is needed afterwards
    assert_eq!(r.ingest(&fragment(7, 2, 2, 4), &[3, 4]), Ok(None));
}

#[test]
fn first_fragment_beyond_the_message_is_an_error() {
    let mut r = FragmentReassembler::new();
    assert_eq!(
        r.ingest(&fragment(7, 2, 0xffff_ffff, 4), &[3, 4]),
        Err(DecodeError::FragmentOutOfBounds)
    );
    assert_eq!(
        r.ingest(&fragment(7, 2, 0, 0), &[3]),
        Err(DecodeError::FragmentOutOfBounds)
    );
    assert!(!r.is_pending(7));
}

#[test]
fn later_fragments_go_by_the_first_declaration() {
    let mut r = FragmentReassembler::new();
    assert_eq!(r.ingest(&fragment(7, 2, 0, 4), &[1, 2]), Ok(None));
    // declares a longer message and more fragments: the buffer stays as made
    assert_eq!(r.ingest(&fragment(7, 9, 2, 100), &[3, 4]), Ok(Some(vec![1, 2, 3, 4])));
}

#[test]
fn evict_discards_a_message() {
    let mut r = FragmentReassembler::new();
    assert!(!r.evict(7));
    assert_eq!(r.ingest(&fragment(7, 2, 0, 4), &[1, 2]), Ok(None));
    assert!(r.evict(7));
    assert!(!r.is_pending(7));
    assert_eq!(r.ingest(&fragment(7, 2, 2, 4), &[3, 4]), Ok(None));
    assert_eq!(r.ingest(&fragment(7, 2, 0, 4), &[5, 6]), Ok(Some(vec![5, 6, 3, 4])));
}

#[test]
fn empty_fragment_counts_by_its_offset() {
    let mut r = FragmentReassembler::new();
    assert_eq!(r.ingest(&fragment(7, 2, 4, 4), &[]), Ok(None));
    assert_eq!(r.ingest(&fragment(7, 2, 0, 4), &[1, 2, 3, 4]), Ok(Some(vec![1, 2, 3, 4])));
}
