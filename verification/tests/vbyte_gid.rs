use rsrv::gid::{IdMax, FAST_REFILL_NANOS, STEP_MAX};
use rsrv::token::{client_by_token, client_id_by_cookie, client_id_token, token_for, ClientState};
use rsrv::vbyte_codec::list_overflows;

fn client_part(token: &str) -> Vec<u8> {
    xxai::cookie_decode(token).unwrap()[8..].to_vec()
}

/// A token whose client part is the given bytes, signed with `sk`.
fn signed(sk: &[u8], part: &[u8]) -> String {
    let mut keyed = sk.to_vec();
    keyed.extend_from_slice(part);
    let mut bytes = xxhash_rust::xxh3::xxh3_64(&keyed).to_le_bytes().to_vec();
    bytes.extend_from_slice(part);
    xxai::cookie_encode(bytes)
}

#[test]
fn compress_list_bytes() {
    let sk = [7u8; 32];
    assert_eq!(client_part(&token_for(&sk, 127, 300)), vec![127, 0xac, 0x02]);
    assert_eq!(client_part(&client_id_token(&sk, 127, 300)), vec![127, 0xac, 0x02]);
    assert_eq!(client_part(&token_for(&sk, 0, u64::MAX)).len(), 11);
}

#[test]
fn decode_round_trip() {
    let sk = [7u8; 32];
    for (day, client) in [(0u64, 0u64), (1, 127), (128, 16383), (16384, u64::MAX), (4095, 1 << 63)] {
        let t = token_for(&sk, day, client);
        assert!(!list_overflows(&client_part(&t)));
        let expect = if day < 4096 { ClientState::Current(client) } else { ClientState::Invalid };
        assert_eq!(client_by_token(&t, &sk, day % 4096), expect);
        assert_eq!(client_id_by_cookie(&client_id_token(&sk, day, client), &sk, day % 4096), expect);
    }
}

#[test]
fn cut_short_decodes_to_empty() {
    let sk = [7u8; 32];
    assert_eq!(client_id_by_cookie(&signed(&sk, &[1, 0x80]), &sk, 1), ClientState::Invalid);
    assert_eq!(client_by_token(&signed(&sk, &[0x81]), &sk, 1), ClientState::Invalid);
    assert_eq!(client_by_token(&signed(&sk, &[1, 2]), &sk, 1), ClientState::Current(2));
    assert_eq!(client_by_token(&signed(&sk, &[1, 2, 3]), &sk, 1), ClientState::Invalid);
}

#[test]
fn overflow_detection() {
    assert!(!list_overflows(&[0xff; 10]));
    assert!(list_overflows(&[0xff; 11]));
    let mut v = vec![5u8];
    v.extend_from_slice(&[0x80; 10]);
    v.push(1);
    assert!(list_overflows(&v));
    assert!(!list_overflows(&[]));
}

#[test]
fn block_hands_out_its_ids() {
    let mut a = IdMax::new();
    assert_eq!(a.next_step(1000), 1);
    a.refill(10, 1000);
    assert_eq!((a.id, a.max, a.time, a.step), (9, 10, 1000, 1));
    assert_eq!(a.take(), (10, true));
    let s = a.next_step(2000);
    assert_eq!(s, 2);
    a.refill(12, 2000);
    assert_eq!(a.take(), (11, false));
    assert_eq!(a.take(), (12, true));
}

#[test]
fn step_grows_and_shrinks() {
    let mut a = IdMax { id: 0, max: 0, time: 1, step: 8 };
    assert_eq!(a.next_step(1 + FAST_REFILL_NANOS - 1), 16);
    let mut a = IdMax { id: 0, max: 0, time: 1, step: 8 };
    assert_eq!(a.next_step(1 + FAST_REFILL_NANOS), 4);
    let mut a = IdMax { id: 0, max: 0, time: 1, step: 2 };
    assert_eq!(a.next_step(1 + FAST_REFILL_NANOS), 2);
    let mut a = IdMax { id: 0, max: 0, time: 1, step: 40000 };
    assert_eq!(a.next_step(2), STEP_MAX);
    let mut a = IdMax { id: 0, max: 0, time: 0, step: 5 };
    assert_eq!(a.next_step(7), 5);
}

#[test]
fn fast_refill_bound_matches_f32_comparison() {
    let below = FAST_REFILL_NANOS - 1;
    assert!(6e11f32 > below as f32);
    assert!(!(6e11f32 > FAST_REFILL_NANOS as f32));
}
