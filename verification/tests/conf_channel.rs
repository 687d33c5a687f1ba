use rsrv::channel::{
    channel_for, channel_numbers, channel_request, channel_user, es_channel, es_cursors, es_list,
    es_user, sync_cursors,
};
use rsrv::handlers::{rec_li_ids, rec_li_ids_checked};
use rsrv::kvconf::{host_port, parse_u8, resp_version, server_conf, RespVersion, ServerConf};

#[test]
fn host_port_lists() {
    assert_eq!(
        host_port(" h1:6380  h2 ").unwrap(),
        vec![("h1".to_string(), 6380), ("h2".to_string(), 6379)]
    );
    assert_eq!(host_port("a:1:2").unwrap(), vec![("a".to_string(), 1)]);
    assert_eq!(host_port("a:+80").unwrap(), vec![("a".to_string(), 80)]);
    assert!(host_port("a:70000").is_none());
    assert!(host_port("a:x b").is_none());
    assert!(host_port("a:").is_none());
    assert!(host_port("").unwrap().is_empty());
}

#[test]
fn small_numbers() {
    assert_eq!(parse_u8("255"), Some(255));
    assert_eq!(parse_u8("256"), None);
    assert_eq!(parse_u8("+7"), Some(7));
    assert_eq!(parse_u8(""), None);
    assert_eq!(parse_u8("-1"), None);
}

#[test]
fn server_and_protocol() {
    match server_conf(vec![("h".to_string(), 1)]) {
        ServerConf::Centralized(h, p) => assert_eq!((h.as_str(), p), ("h", 1)),
        _ => panic!("one server"),
    }
    match server_conf(vec![("a".to_string(), 1), ("b".to_string(), 2)]) {
        ServerConf::Clustered(v) => assert_eq!(v.len(), 2),
        _ => panic!("cluster"),
    }
    assert_eq!(resp_version(Some(2)), RespVersion::Resp2);
    assert_eq!(resp_version(Some(3)), RespVersion::Resp3);
    assert_eq!(resp_version(None), RespVersion::Resp3);
}

#[test]
fn channel_names_read_back() {
    let (ch, url) = channel_for(5, 9);
    assert_eq!(url, format!("/nchan/{ch}"));
    assert_eq!(channel_user(&ch), Some(5));
    assert_eq!(ch, ub64::b64e(vb::e_li([5u64, 9])));
    assert_eq!(channel_for(1, 300).0, "AawC");
    assert_eq!(channel_for(255, 0).0, "_wEA");
    assert_eq!(channel_user("!!"), None);
    assert_eq!(channel_user(&ub64::b64e(vb::e_li([1u64]))), None);
}

#[test]
fn channel_request_reads_user() {
    let (uid, ch, url) = channel_request(&ub64::u64_b64(300), 4);
    assert_eq!(uid, 300);
    assert_eq!(channel_user(&ch), Some(300));
    assert_eq!(url, format!("/nchan/{ch}"));
    assert_eq!(channel_request("***", 4).0, 0);
    assert_eq!(channel_request(&ub64::b64e([0x2cu8, 0x01]), 4).0, 300);
    assert_eq!(channel_request(&ub64::b64e([1u8, 0, 0, 0, 0, 0, 0, 0, 9]), 4).0, 1);
}

#[test]
fn sync_request_cursors() {
    assert_eq!(sync_cursors(&vb::e_li([5u64, 300, 7])), Some((5, 300)));
    assert_eq!(sync_cursors(&vb::e_li([5u64, 300])), Some((5, 300)));
    assert_eq!(sync_cursors(&vb::e_li([5u64])), None);
    assert_eq!(sync_cursors(&[]), None);
    assert_eq!(sync_cursors(&[0x80]), None);
    // a tenth byte may only hold the top bit
    let mut max = vec![0xffu8; 9];
    max.push(1);
    max.push(2);
    assert_eq!(sync_cursors(&max), Some((u64::MAX, 2)));
    let mut over = vec![0xffu8; 9];
    over.push(2);
    over.push(2);
    assert_eq!(sync_cursors(&over), None);
}

#[test]
fn recommendation_list_ids() {
    let members = vec![vb::e_li([1u64, 5]), vec![0x80], vb::e_li([2u64, 600, 7])];
    assert_eq!(rec_li_ids(&members), vec![1, 5, 2, 600]);
    assert_eq!(rec_li_ids_checked(&members), Some(vec![1, 5, 2, 600]));
    assert_eq!(rec_li_ids_checked(&vec![vb::e_li([3u64])]), None);
    assert_eq!(rec_li_ids_checked(&vec![]), Some(vec![]));
}

#[test]
fn channel_numbers_tell_bad_names_apart() {
    let (ch, _) = channel_for(5, 9);
    assert_eq!(channel_numbers(&ch), Some(vec![5, 9]));
    assert_eq!(channel_numbers(&ub64::b64e(vb::e_li([1u64]))), Some(vec![1]));
    assert_eq!(channel_numbers("!!"), None);
    assert_eq!(channel_numbers(&ub64::b64e([0x80u8])), None);
}

#[test]
fn event_stream_requests() {
    let text = ub64::b64e(vbyte::compress_list(&[7, 300, 9]));
    let li = es_list(&text).unwrap();
    assert_eq!(li, vec![7, 300, 9]);
    assert_eq!(es_user(&li), Some(7));
    assert_eq!(es_cursors(&li), (300, 9));
    assert_eq!(es_user(&vec![7]), None);
    assert_eq!(es_user(&vec![7, 1]), Some(7));
    assert_eq!(es_list("!!"), Some(vec![]));
    assert_eq!(es_list(&ub64::b64e([0x80u8])), Some(vec![]));
    assert_eq!(es_list(&ub64::b64e([0xffu8; 11])), None);

    let (ch, url) = es_channel(256);
    assert_eq!(ch, ub64::b64e([0u8, 1]));
    assert_eq!(url, format!("/nchan/{ch}"));
    assert_eq!(es_channel(0).0, "");
    assert_eq!(es_channel(5).0, ub64::u64_b64(5));
}
