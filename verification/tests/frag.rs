//! Reassembly of IPv6 fragments.
use yggstack::netstack::frag::{build_reassembled, FragReassembler};

const SRC: [u8; 16] = [1; 16];
const DST: [u8; 16] = [2; 16];

/// A fragment of a UDP packet.
fn fragment(id: u32, offset: u16, more: bool, payload: &[u8]) -> Vec<u8> {
    let mut p = vec![0x60, 0, 0, 0];
    p.extend_from_slice(&((payload.len() + 8) as u16).to_be_bytes());
    p.push(44);
    p.push(64);
    p.extend_from_slice(&SRC);
    p.extend_from_slice(&DST);
    p.push(17);
    p.push(0);
    p.extend_from_slice(&(offset | if more { 1 } else { 0 }).to_be_bytes());
    p.extend_from_slice(&id.to_be_bytes());
    p.extend_from_slice(payload);
    p
}

#[test]
fn packets_without_fragment_header_pass() {
    let mut r = FragReassembler::new();
    for p in [vec![], vec![1, 2, 3], {
        let mut p = vec![0u8; 60];
        p[6] = 17;
        p
    }] {
        assert_eq!(r.feed(p.clone()), Some(p));
    }
    assert_eq!(r.slot_count(), 0);
}

#[test]
fn fragments_make_a_packet_in_any_order() {
    let a = [7u8; 16];
    let b = [8u8; 5];
    let mut whole = a.to_vec();
    whole.extend_from_slice(&b);
    let want = build_reassembled(SRC, DST, 17, &whole);
    for swap in [false, true] {
        let mut r = FragReassembler::default();
        let (first, second) = (fragment(9, 0, true, &a), fragment(9, 16, false, &b));
        let (first, second) = if swap { (second, first) } else { (first, second) };
        assert_eq!(r.feed(first), None);
        assert_eq!(r.slot_count(), 1);
        assert_eq!(r.feed(second), Some(want.clone()));
        assert_eq!(r.slot_count(), 0);
    }
}

#[test]
fn reassembled_packets_have_a_plain_header() {
    let p = build_reassembled(SRC, DST, 17, &[1, 2, 3]);
    assert_eq!(p.len(), 43);
    assert_eq!(&p[0..8], &[0x60, 0, 0, 0, 0, 3, 17, 64]);
    assert_eq!(&p[8..24], &SRC);
    assert_eq!(&p[24..40], &DST);
    assert_eq!(&p[40..], &[1, 2, 3]);
}

#[test]
fn packets_are_told_apart_by_identification() {
    let mut r = FragReassembler::new();
    assert_eq!(r.feed(fragment(1, 0, true, &[1; 8])), None);
    assert_eq!(r.feed(fragment(2, 8, false, &[2; 3])), None);
    assert_eq!(r.slot_count(), 2);
    let mut whole = vec![1u8; 8];
    whole.extend_from_slice(&[3; 3]);
    assert_eq!(
        r.feed(fragment(1, 8, false, &[3; 3])),
        Some(build_reassembled(SRC, DST, 17, &whole))
    );
    assert_eq!(r.slot_count(), 1);
}

#[test]
fn malformed_fragments_are_dropped() {
    let mut r = FragReassembler::new();
    let mut short = fragment(1, 0, true, &[]);
    short.truncate(44);
    assert_eq!(r.feed(short), None);
    assert_eq!(r.slot_count(), 0);
    assert_eq!(r.feed(fragment(3, 0, true, &[1; 8])), None);
    assert_eq!(r.slot_count(), 1);
    assert_eq!(r.feed(fragment(3, 65528, false, &[0; 9])), None);
    assert_eq!(r.slot_count(), 0);
}

#[test]
fn incomplete_packets_expire() {
    let mut r = FragReassembler::new();
    assert_eq!(r.feed_at(fragment(1, 0, true, &[1; 8]), 1_000), None);
    assert_eq!(r.slot_count(), 1);
    r.evict_expired(1_000 + 59_999_999_999);
    assert_eq!(r.slot_count(), 1);
    r.evict_expired(1_000 + 60_000_000_000);
    assert_eq!(r.slot_count(), 0);
    assert_eq!(r.feed_at(fragment(1, 8, false, &[3; 3]), 70_000_000_000), None);
    assert_eq!(r.slot_count(), 1);
}

#[test]
fn a_repeated_fragment_does_not_stand_for_a_missing_one() {
    let mut r = FragReassembler::new();
    assert_eq!(r.feed(fragment(7, 0, true, &[1; 8])), None);
    assert_eq!(r.feed(fragment(7, 0, true, &[1; 8])), None);
    assert_eq!(r.feed(fragment(7, 16, false, &[3; 8])), None);
    assert_eq!(r.slot_count(), 1);
    let mut whole = vec![1u8; 8];
    whole.extend_from_slice(&[2; 8]);
    whole.extend_from_slice(&[3; 8]);
    assert_eq!(
        r.feed(fragment(7, 8, true, &[2; 8])),
        Some(build_reassembled(SRC, DST, 17, &whole))
    );
    assert_eq!(r.slot_count(), 0);
}

#[test]
fn open_packets_are_counted() {
    let mut r = FragReassembler::new();
    assert_eq!(r.feed_at(fragment(1, 0, true, &[1; 8]), 0), None);
    assert_eq!(r.feed_at(fragment(2, 0, true, &[2; 8]), 1), None);
    assert_eq!(r.feed_at(fragment(1, 16, true, &[1; 8]), 2), None);
    assert_eq!(r.slot_count(), 2);
    assert_eq!(r.feed_at(fragment(3, 65528, false, &[0; 9]), 3), None);
    assert_eq!(r.slot_count(), 2);
    assert!(r.feed_at(fragment(2, 8, false, &[2; 1]), 4).is_some());
    assert_eq!(r.slot_count(), 1);
    assert_eq!(r.feed_at(fragment(1, 65528, false, &[0; 9]), 5), None);
    assert_eq!(r.slot_count(), 0);
    assert_eq!(r.feed_at(fragment(1, 8, true, &[1; 8]), 6), None);
    assert_eq!(r.slot_count(), 1);
}
