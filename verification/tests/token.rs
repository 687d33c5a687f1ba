use rsrv::token::{
    client_by_cookie, client_by_token, client_id_by_cookie, client_id_by_header,
    client_id_cookie, client_id_token, client_state, client_user_cookie, day10_of,
    needs_fresh_id, set_cookie, stored_secret, token_for, ClientState, ClientUser, UidStep,
};

fn sk() -> Vec<u8> {
    (0u8..32).collect()
}

#[test]
fn day10_of_counts_ten_day_periods() {
    assert_eq!(day10_of(0), 0);
    assert_eq!(day10_of(863_999), 0);
    assert_eq!(day10_of(864_000), 1);
    assert_eq!(day10_of(864_000 * 4096), 0);
    assert_eq!(day10_of(864_000 * 4097 + 5), 1);
}

#[test]
fn client_state_window() {
    assert_eq!(client_state(100, 7, 100, 41), ClientState::Current(7));
    assert_eq!(client_state(60, 7, 100, 41), ClientState::Renew(7));
    // renewed up to and including 41 periods, not after
    assert_eq!(client_state(59, 7, 100, 41), ClientState::Renew(7));
    assert_eq!(client_state(58, 7, 100, 41), ClientState::Invalid);
    // the client-id middleware stops after 40
    assert_eq!(client_state(60, 7, 100, 40), ClientState::Renew(7));
    assert_eq!(client_state(59, 7, 100, 40), ClientState::Invalid);
    // wraps around the period counter
    assert_eq!(client_state(4090, 7, 5, 41), ClientState::Renew(7));
    assert_eq!(client_state(4060, 7, 5, 41), ClientState::Renew(7));
    assert_eq!(client_state(4059, 7, 5, 41), ClientState::Invalid);
    assert_eq!(client_state(4060, 7, 5, 40), ClientState::Invalid);
    assert_eq!(client_state(4096, 7, 5, 41), ClientState::Invalid);
    assert_eq!(client_state(u64::MAX, 7, 5, 41), ClientState::Invalid);
    assert_eq!(client_state(6, 7, 5, 41), ClientState::Invalid);
}

#[test]
fn token_round_trip_is_current() {
    let sk = sk();
    let t = token_for(&sk, 100, 12345);
    assert_eq!(client_by_token(&t, &sk, 100), ClientState::Current(12345));
    assert_eq!(client_id_by_cookie(&t, &sk, 100), ClientState::Current(12345));
}

#[test]
fn token_ages_into_renewal_then_rejection() {
    let sk = sk();
    let t = token_for(&sk, 100, 99);
    assert_eq!(client_by_token(&t, &sk, 140), ClientState::Renew(99));
    assert_eq!(client_by_token(&t, &sk, 141), ClientState::Renew(99));
    assert_eq!(client_by_token(&t, &sk, 142), ClientState::Invalid);
    let t = client_id_token(&sk, 100, 99);
    assert_eq!(client_id_by_cookie(&t, &sk, 140), ClientState::Renew(99));
    assert_eq!(client_id_by_cookie(&t, &sk, 141), ClientState::Invalid);
    assert_eq!(client_by_token(&t, &sk, 99), ClientState::Invalid);
}

#[test]
fn token_under_another_secret_is_rejected() {
    let sk = sk();
    let t = token_for(&sk, 100, 99);
    let other = vec![1u8; 32];
    assert_eq!(client_by_token(&t, &other, 100), ClientState::Invalid);
}

#[test]
fn tampered_or_garbage_tokens_are_rejected() {
    let sk = sk();
    let t = token_for(&sk, 100, 99);
    let mut chars: Vec<char> = t.chars().collect();
    let last = chars.len() - 1;
    chars[last] = if chars[last] == '0' { '1' } else { '0' };
    let bad: String = chars.into_iter().collect();
    assert_eq!(client_by_token(&bad, &sk, 100), ClientState::Invalid);
    assert_eq!(client_by_token("", &sk, 100), ClientState::Invalid);
    assert_eq!(client_by_token("not a token ;", &sk, 100), ClientState::Invalid);
    assert_eq!(client_id_by_cookie("\u{263a}", &sk, 100), ClientState::Invalid);
}

#[test]
fn token_bytes_layout() {
    // hash (8 bytes, little-endian) then the variable-byte encoding of day and client
    let sk = sk();
    let t = token_for(&sk, 3, 300);
    let bytes = xxai::cookie_decode(&t).unwrap();
    assert_eq!(&bytes[8..], &[3u8, 0xac, 0x02][..]);
    let mut keyed = sk.clone();
    keyed.extend_from_slice(&bytes[8..]);
    let mac = xxhash_rust::xxh3::xxh3_64(&keyed);
    assert_eq!(&bytes[..8], &mac.to_le_bytes()[..]);
}

#[test]
fn cookie_header_uses_first_i_cookie() {
    let sk = sk();
    let t = token_for(&sk, 10, 42);
    let header = format!("a=1; I={t}; I=zzz");
    assert_eq!(client_by_cookie(Some(&header), &sk, 10), ClientState::Current(42));
    let header = format!("I=zzz; I={t}");
    assert_eq!(client_by_cookie(Some(&header), &sk, 10), ClientState::Invalid);
    assert_eq!(client_by_cookie(Some("a=1; b=2"), &sk, 10), ClientState::Invalid);
    assert_eq!(client_by_cookie(None, &sk, 10), ClientState::Invalid);
}

#[test]
fn set_cookie_text() {
    let c = set_cookie("TOKEN", "www.example.com:8080");
    assert_eq!(
        c,
        "I=TOKEN;max-age=99999999;domain=example.com;path=/;HttpOnly;SameSite=None;Secure"
    );
}

#[test]
fn client_user_cookie_current_sets_nothing() {
    let sk = sk();
    let (u, c) = client_user_cookie("example.com", ClientState::Current(5), &sk, 10, 77);
    assert_eq!(u, ClientUser { id: 5, _uid: Some(0) });
    assert!(c.is_none());
}

#[test]
fn client_user_cookie_renew_keeps_client() {
    let sk = sk();
    let (u, c) = client_user_cookie("example.com", ClientState::Renew(5), &sk, 10, 77);
    assert_eq!(u, ClientUser { id: 5, _uid: None });
    let c = c.unwrap();
    let token = &c["I=".len()..c.find(';').unwrap()];
    assert_eq!(client_by_token(token, &sk, 10), ClientState::Current(5));
    assert!(c.ends_with(";max-age=99999999;domain=example.com;path=/;HttpOnly;SameSite=None;Secure"));
}

#[test]
fn client_user_cookie_invalid_takes_fresh_id() {
    let sk = sk();
    let (u, c) = client_user_cookie("example.com", ClientState::Invalid, &sk, 10, 77);
    assert_eq!(u, ClientUser { id: 77, _uid: Some(0) });
    let c = c.unwrap();
    let token = &c["I=".len()..c.find(';').unwrap()];
    assert_eq!(client_by_token(token, &sk, 10), ClientState::Current(77));
    let (u, _) = client_user_cookie("example.com", ClientState::Renew(0), &sk, 10, 78);
    assert_eq!(u, ClientUser { id: 78, _uid: Some(0) });
}

#[test]
fn fresh_id_needed() {
    assert!(!needs_fresh_id(&ClientState::Current(0)));
    assert!(!needs_fresh_id(&ClientState::Renew(3)));
    assert!(needs_fresh_id(&ClientState::Renew(0)));
    assert!(needs_fresh_id(&ClientState::Invalid));
}

#[test]
fn stored_secret_needs_32_bytes() {
    assert_eq!(stored_secret(Some(vec![9u8; 32])), Some(vec![9u8; 32]));
    assert_eq!(stored_secret(Some(vec![9u8; 31])), None);
    assert_eq!(stored_secret(None), None);
}

#[test]
fn client_id_middleware_reads_and_issues_tokens() {
    let sk = sk();
    let t = client_id_token(&sk, 10, 42);
    let header = format!("a=1; I={t}");
    assert_eq!(client_id_by_header(Some(&header), &sk, 10), ClientState::Current(42));
    assert_eq!(client_id_by_header(Some(&header), &sk, 30), ClientState::Renew(42));
    assert_eq!(client_id_by_header(Some("a=1"), &sk, 10), ClientState::Invalid);
    assert_eq!(client_id_by_header(None, &sk, 10), ClientState::Invalid);

    assert_eq!(client_id_cookie("example.com", ClientState::Current(5), &sk, 10, 77), (5, None));
    let (id, c) = client_id_cookie("www.example.com", ClientState::Renew(5), &sk, 11, 77);
    assert_eq!(id, 5);
    assert_eq!(c.unwrap(), set_cookie(&client_id_token(&sk, 11, 5), "example.com"));
    let (id, c) = client_id_cookie("example.com", ClientState::Invalid, &sk, 11, 77);
    assert_eq!(id, 77);
    let c = c.unwrap();
    let token = &c["I=".len()..c.find(';').unwrap()];
    assert_eq!(client_id_by_cookie(token, &sk, 11), ClientState::Current(77));
}

#[test]
fn finding_the_user() {
    let mut c = ClientUser { id: 3, _uid: Some(0) };
    assert_eq!(c.uid_step(), UidStep::Lookup);
    assert_eq!(c.uid_found(Some(8)), Some(8));
    assert_eq!(c, ClientUser { id: 3, _uid: Some(8) });
    assert_eq!(c.uid_step(), UidStep::Known(Some(8)));
    assert_eq!(ClientUser { id: 3, _uid: None }.uid_step(), UidStep::Known(None));
    let mut d = ClientUser { id: 4, _uid: Some(0) };
    assert_eq!(d.uid_found(None), None);
    assert_eq!(d.uid_step(), UidStep::Known(None));
}
