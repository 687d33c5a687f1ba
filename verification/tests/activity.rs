use rsrv::activity::{list_acceptable, lists_acceptable, LogBatch};
use rsrv::handlers::CidRid;

const RECS: [u8; 3] = [1, 2, 3];
const FAV_RM: u8 = 3;

#[test]
fn plain_actions_give_one_row_per_pair() {
    let mut b = LogBatch::new();
    b.log_list(7, 9, 100, &vec![5, 1, 10, 2, 20], &RECS, FAV_RM);
    assert_eq!(b.to_insert, vec!["(7,5,1,10,9,100)", "(7,5,2,20,9,100)"]);
    assert!(b.rec_chain.is_empty());
    assert!(b.rec_action.is_empty());
}

#[test]
fn chain_actions_record_their_chain() {
    let mut b = LogBatch::new();
    b.log_list(7, 9, 100, &vec![2, 300, 11, 1, 12, 4, 13], &RECS, FAV_RM);
    assert_eq!(b.to_insert, vec!["(7,2,300,11,9,100)"]);
    assert_eq!(b.rec_chain, vec!["(7,2,44,11,1,12,100)", "(7,2,44,11,4,13,100)"]);
    assert_eq!(b.rec_action.len(), 1);
    assert_eq!(b.rec_action[0].0, CidRid { cid: 44, rid: 11 });
    assert_eq!(b.rec_action[0].1.action, 2);
    assert_eq!(
        b.rec_action[0].1.chain,
        vec![CidRid { cid: 1, rid: 12 }, CidRid { cid: 4, rid: 13 }]
    );
}

#[test]
fn removal_takes_the_chain_out() {
    let mut b = LogBatch::new();
    let lists = vec![
        vec![2, 300, 11, 1, 12],
        vec![1, 8, 9, 6, 6],
        vec![3, 300, 11, 0, 0],
        vec![],
        vec![2, 1, 2],
    ];
    assert!(lists_acceptable(&lists, &RECS, FAV_RM));
    b.log_group(7, 9, 100, &lists, &RECS, FAV_RM);
    assert_eq!(b.to_insert, vec!["(7,2,300,11,9,100)", "(7,1,8,9,9,100)"]);
    assert_eq!(b.rec_chain, vec!["(7,2,44,11,1,12,100)", "(7,1,8,9,6,6,100)"]);
    assert_eq!(b.rec_action.len(), 1);
    assert_eq!(b.rec_action[0].0, CidRid { cid: 8, rid: 9 });
}

#[test]
fn a_later_chain_replaces_an_earlier_one() {
    let mut b = LogBatch::new();
    b.log_list(1, 2, 3, &vec![1, 5, 6, 7, 8], &RECS, FAV_RM);
    b.log_list(1, 2, 3, &vec![2, 5, 6, 9, 10], &RECS, FAV_RM);
    assert_eq!(b.rec_action.len(), 1);
    assert_eq!(b.rec_action[0].1.action, 2);
    assert_eq!(b.rec_action[0].1.chain, vec![CidRid { cid: 9, rid: 10 }]);
    assert_eq!(b.to_insert.len(), 2);
}

#[test]
fn lists_that_would_read_past_their_end() {
    assert!(list_acceptable(&vec![], &RECS, FAV_RM));
    assert!(list_acceptable(&vec![5, 1, 2], &RECS, FAV_RM));
    assert!(!list_acceptable(&vec![5, 1], &RECS, FAV_RM));
    assert!(list_acceptable(&vec![2, 1], &RECS, FAV_RM));
    assert!(list_acceptable(&vec![3, 1, 2, 3], &RECS, FAV_RM));
    assert!(!list_acceptable(&vec![2, 1, 2, 3], &RECS, FAV_RM));
    assert!(list_acceptable(&vec![2, 1, 2, 3, 4], &RECS, FAV_RM));
    assert!(!lists_acceptable(&vec![vec![1, 2], vec![5, 1]], &RECS, FAV_RM));
}
