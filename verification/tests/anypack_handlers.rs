use rsrv::anypack::{
    cid_rid_ts_li, fav_page, nchan_message, publish_to_user_client, seen_page, Any, VecAny,
};
use rsrv::handlers::{
    fav_post_body, user_fav_request, KIND_SYNC_FAV,
    es_fav_text, es_seen_sql, es_seen_text,
    after_ts_sql, day_range, fav_answer_of, fav_json_item, fav_post_parse, fav_sync_msg,
    insert_sql, publish_fav_sync, rec_by_action, row_of, search_level, seen_after_ts_sql,
    seen_publish, seen_rows, seen_rows_flat, sync_seen_sql, unique_ids, CidRid, FavBatch, Level, RecChina, LEVEL_ADULT, LEVEL_ANY,
    LEVEL_SAFE, WR, WS,
};

#[test]
fn pack_integers() {
    assert_eq!(Any::U8(5).pack(), vec![5]);
    assert_eq!(Any::U8(200).pack(), vec![0xcc, 200]);
    assert_eq!(Any::U64(300).pack(), vec![0xcd, 0x01, 0x2c]);
    assert_eq!(Any::U32(70000).pack(), vec![0xce, 0, 1, 0x11, 0x70]);
    assert_eq!(Any::U64(1 << 40).pack(), vec![0xcf, 0, 0, 1, 0, 0, 0, 0, 0]);
    assert_eq!(Any::I8(-1).pack(), vec![0xff]);
    assert_eq!(Any::I64(-100).pack(), vec![0xd0, 0x9c]);
}

#[test]
fn pack_lists_and_strings() {
    let mut v = VecAny::new();
    v.push(Any::U8(1));
    v.push(Any::Str("hi".to_string()));
    assert_eq!(v.len(), 2);
    assert_eq!(v.pack(), vec![0x92, 0x01, 0xa2, b'h', b'i']);
    assert_eq!(Any::VecU8(vec![1, 200]).pack(), vec![0x92, 0x01, 0xcc, 0xc8]);
    let mut outer = VecAny::default();
    outer.push(Any::VecAny(v));
    assert_eq!(Any::VecAny(outer).pack(), vec![0x91, 0x92, 0x01, 0xa2, b'h', b'i']);
    let mut big = VecAny::new();
    for i in 0..16u8 {
        big.push(Any::U8(i));
    }
    let p = big.pack();
    assert_eq!(&p[..3], &[0xdc, 0x00, 0x10]);
    assert_eq!(p.len(), 19);
}

#[test]
fn cid_rid_ts_list() {
    let t = cid_rid_ts_li(vec![(1, 10, 100), (2, 20, 200)]);
    assert_eq!(
        Any::VecAny(t).pack(),
        vec![0x93, 0x92, 1, 10, 0x92, 2, 20, 0xcc, 200]
    );
    assert_eq!(cid_rid_ts_li(vec![]).len(), 0);
}

#[test]
fn published_messages() {
    let m = publish_to_user_client(1, 2, 7, Any::U8(5));
    assert_eq!((m.sender_client_id, m.uid, m.kind), (1, 2, 7));
    assert_eq!(m.msg.pack(), vec![5]);
    let m = publish_fav_sync(3, 9, 10, 12, ",1,2,3,4");
    assert_eq!((m.sender_client_id, m.uid, m.kind), (3, 9, KIND_SYNC_FAV));
    match m.msg {
        Any::Str(t) => assert_eq!(t, "10,12,1,2,3,4"),
        other => panic!("unexpected {other:?}"),
    }
}

#[test]
fn request_bodies() {
    let p = fav_post_body(b"[9, 4, 1, 2, 3, 255, 7]").unwrap().unwrap();
    assert_eq!((p.uid, p.last_sync_id), (9, 4));
    assert_eq!(p.items, vec![(1, 2, 3, -1)]);
    assert!(fav_post_body(b"[9, 4]").unwrap().is_none());
    assert!(fav_post_body(b"[9, -4]").is_none());
    assert!(fav_post_body(b"not json").is_none());
    assert_eq!(user_fav_request(b"[7, 0]"), Some((7, 0)));
    assert_eq!(user_fav_request(b"[7, 100]"), Some((7, 100)));
    assert_eq!(user_fav_request(b"[7]"), None);
    assert_eq!(user_fav_request(b"{}"), None);
}

#[test]
fn seen_queries() {
    assert_eq!(
        after_ts_sql(7, 1700000000000),
        "SELECT cid,rid,CAST(ts as BIGINT) t FROM seen WHERE uid=7 AND ts>1700000000000 ORDER BY TS"
    );
    assert_eq!(
        seen_after_ts_sql(7, 0),
        "SELECT cid,rid,CAST(ts as BIGINT) t FROM seen WHERE uid=7 AND ts>0"
    );
    assert_eq!(seen_rows_flat(&vec![(1, 2, 3), (-1, -2, 4)]), vec![1, 2, 3, u64::MAX, u64::MAX - 1, 4]);
}

#[test]
fn fav_request_parse() {
    assert!(fav_post_parse(&vec![1, 2]).is_none());
    let p = fav_post_parse(&vec![7, 3, 70000, 5, 6, 255, 1, 2, 3]).unwrap();
    assert_eq!((p.uid, p.last_sync_id), (7, 3));
    assert_eq!(p.items, vec![(70000u64 as u16, 5, 6, -1i8)]);
    let p = fav_post_parse(&vec![7, 3, 1]).unwrap();
    assert!(p.items.is_empty());
}

#[test]
fn fav_answer_rows() {
    let rows = vec![(10u64, 1u16, 2u64, 3u64, -1i8), (11, 4, 5, 6, 1)];
    assert_eq!(fav_answer_of(&rows, 0), (vec![1, 2, 3, u64::MAX, 4, 5, 6, 1, 11], 11));
    assert_eq!(fav_answer_of(&rows, 20).1, 20);
    assert_eq!(fav_answer_of(&vec![], 0), (vec![], 0));
    assert_eq!(fav_answer_of(&vec![], 5), (vec![5], 5));
}

#[test]
fn fav_batch_texts() {
    assert_eq!(fav_json_item(1, 2, 3, -1), ",1,2,3,-1");
    let mut b = FavBatch::new();
    b.record(Some(8), (1, 2, 3, 4));
    b.record(None, (9, 9, 9, 9));
    b.record(Some(9), (5, 6, 7, -8));
    assert_eq!((b.id, b.n, b.json.as_str()), (9, 2, ",1,2,3,4,5,6,7,-8"));
    assert_eq!(fav_sync_msg(3, 9, &b.json), "3,9,1,2,3,4,5,6,7,-8");
}

#[test]
fn insert_rows() {
    assert_eq!(row_of(&[1, 2, 3]), "(1,2,3)");
    assert_eq!(row_of(&[]), "()");
    let (rows, next) = seen_rows(7, 1, &vec![10, 11], 100);
    assert_eq!(rows, vec!["(7,1,10,100)".to_string(), "(7,1,11,101)".to_string()]);
    assert_eq!(next, 102);
    assert_eq!(
        insert_sql("INSERT INTO seen (uid,cid,rid,ts) VALUES ", &rows),
        "INSERT INTO seen (uid,cid,rid,ts) VALUES (7,1,10,100),(7,1,11,101)"
    );
}

#[test]
fn query_levels_and_days() {
    assert_eq!(search_level(LEVEL_ANY), Level::All);
    assert_eq!(search_level(LEVEL_ADULT), Level::Nsfw);
    assert_eq!(search_level(LEVEL_SAFE), Level::Sfw);
    assert_eq!(search_level(9), Level::Sfw);
    assert_eq!(day_range(0, 0, 100), None);
    assert_eq!(day_range(3, 0, 100), Some((97, 101)));
    assert_eq!(day_range(0, 50, 100), Some((49, 50)));
}

#[test]
fn channel_messages() {
    assert_eq!(WR::from_int(0), Some(WR::Sync));
    assert_eq!(WR::from_int(1), None);
    assert_eq!(WR::Sync.to_int(), 0);
    assert_eq!(WS::NotLoggedIn.to_int(), 0);
    let acts = vec![(CidRid { cid: 1, rid: 2 }, RecChina { action: 1, chain: vec![] })];
    assert!(rec_by_action(0, &acts).is_empty());
    assert!(rec_by_action(0, &vec![]).is_empty());
}

#[test]
fn any_from_str_and_numbers() {
    assert_eq!(Any::from_str("ab").pack(), vec![0xa2, b'a', b'b']);
    assert_eq!(Any::from_u64s(&vec![1, 300]).pack(), vec![0x92, 0x01, 0xcd, 0x01, 0x2c]);
    assert_eq!(Any::from_u64s(&vec![]).pack(), vec![0x90]);
}

#[test]
fn nchan_message_frames_kind_and_body() {
    assert_eq!(nchan_message(1, Any::U8(2)), vec![0x92, 0x01, 0x02]);
    assert_eq!(
        nchan_message(300, Any::from_str("x")),
        vec![0x92, 0xcd, 0x01, 0x2c, 0xa1, b'x']
    );
}

#[test]
fn seen_page_lists_rows_then_cursor() {
    let li = vec![(10u64, 1i8, 5i64), (20u64, -1i8, 7i64)];
    let (page, last) = seen_page(&li, 3);
    assert_eq!(last, 20);
    assert_eq!(page.len(), 7);
    assert_eq!(page.pack(), vec![0x97, 10, 1, 5, 20, 0xff, 7, 3]);
}

#[test]
fn fav_page_lists_rows_then_cursor() {
    let li = vec![(8u64, 2u16, 9u64, 11u64, 1i8), (12u64, 3u16, 4u64, 13u64, -1i8)];
    let (page, last) = fav_page(&li, 6);
    assert_eq!(last, 12);
    assert_eq!(page.len(), 9);
    assert_eq!(page.pack(), vec![0x99, 2, 9, 11, 1, 3, 4, 13, 0xff, 6]);
}

#[test]
fn sync_seen_query_text() {
    assert_eq!(
        sync_seen_sql(7, 1700000000000),
        "SELECT CAST(ts as BIGINT) t,cid,rid FROM seen WHERE uid=7 AND ts>ARROW_CAST(1700000000000,'Timestamp(Millisecond,None)') ORDER BY ts LIMIT 8192"
    );
}

#[test]
fn ids_each_once() {
    let mut u = unique_ids(&vec![5, 3, 5, 9, 3]);
    u.sort();
    assert_eq!(u, vec![3, 5, 9]);
    assert!(unique_ids(&vec![]).is_empty());
}

#[test]
fn seen_publish_message() {
    assert_eq!(seen_publish(&vec![1, 20]), "[[1],[20]]");
    assert_eq!(seen_publish(&vec![]), "[]");
}

#[test]
fn pack_signed_integers() {
    assert_eq!(Any::I8(-32).pack(), vec![0xe0]);
    assert_eq!(Any::I8(-33).pack(), vec![0xd0, 0xdf]);
    assert_eq!(Any::I8(127).pack(), vec![0x7f]);
    assert_eq!(Any::I16(-200).pack(), vec![0xd1, 0xff, 0x38]);
    assert_eq!(Any::I16(300).pack(), vec![0xd1, 0x01, 0x2c]);
    assert_eq!(Any::I32(-40000).pack(), vec![0xd2, 0xff, 0xff, 0x63, 0xc0]);
    assert_eq!(Any::I32(70000).pack(), vec![0xd2, 0, 1, 0x11, 0x70]);
    assert_eq!(
        Any::I64(-3_000_000_000).pack(),
        vec![0xd3, 0xff, 0xff, 0xff, 0xff, 0x4d, 0x2f, 0xa2, 0x00]
    );
    assert_eq!(Any::I64(1 << 40).pack(), vec![0xd3, 0, 0, 1, 0, 0, 0, 0, 0]);
}

#[test]
fn event_stream_texts() {
    let rows = vec![(10u64, 2u16, 30u64, 40u64, -1i8), (11, 3, 31, 41, 1)];
    assert_eq!(es_fav_text(7, 9, &rows), "7,9,11,2,30,40,-1,3,31,41,1");
    assert_eq!(es_seen_text(7, 5, &vec![(100, -2, 8), (101, 1, 9)]), "7,100,-2,8,101,1,9,5");
    assert_eq!(es_seen_text(7, 5, &vec![]), "7,5");
    assert_eq!(
        es_seen_sql(7, 1700),
        "SELECT CAST(ts as BIGINT) t,cid,rid FROM seen WHERE uid=7 AND ts>CAST(1700 as TIMESTAMP) ORDER BY ts LIMIT 8192"
    );
}
