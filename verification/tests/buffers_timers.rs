use vnet::buffers::{RecvBuf, SendBuf, NextData, PayloadMap, MAX_MSG_SIZE};
use vnet::retransmission::{RetransmissionTimer, RetransmissionQueue, RetrSegment, MIN_RTO, MAX_RTO, MAX_RETRANSMISSIONS};
use vnet::tcp::ACK;

#[test]
fn recv_buf_in_order() {
    let mut b = RecvBuf::new();
    b.set_init_seq(99);
    assert_eq!(b.expected_seq(), 100);
    assert_eq!(b.window(), 65535);
    assert_eq!(b.add(100, b"abc".to_vec()), 103);
    assert_eq!(b.window(), 65532);
    assert_eq!(b.read(2), b"ab".to_vec());
    assert_eq!(b.expected_seq(), 103);
    assert_eq!(b.read(10), b"c".to_vec());
    assert_eq!(b.read(10), Vec::<u8>::new());
}

#[test]
fn recv_buf_reassembles_out_of_order() {
    let mut b = RecvBuf::new();
    b.set_init_seq(0);
    assert_eq!(b.add(4, b"def".to_vec()), 1);
    assert_eq!(b.add(7, b"gh".to_vec()), 1);
    assert_eq!(b.add(1, b"abc".to_vec()), 9);
    assert_eq!(b.read(100), b"abcdefgh".to_vec());
    // an old segment is ignored
    assert_eq!(b.add(3, b"zz".to_vec()), 9);
    assert_eq!(b.read(100), Vec::<u8>::new());
}

#[test]
fn recv_buf_final_seq() {
    let mut b = RecvBuf::new();
    assert!(b.can_receive());
    b.set_final_seq(5);
    assert!(!b.can_receive());
    b.add(1, b"x".to_vec());
    assert!(b.can_receive());
}

#[test]
fn payload_map_counts_bytes() {
    let mut m = PayloadMap::new();
    m.insert(5, vec![1, 2, 3]);
    m.insert(9, vec![4]);
    assert_eq!(m.len(), 4);
    // replacing an entry takes off the old bytes and counts the new ones
    m.insert(5, vec![7]);
    assert_eq!(m.len(), 2);
    assert_eq!(m.remove(&5), Some(vec![7]));
    assert_eq!(m.remove(&5), None);
    assert_eq!(m.len(), 1);
}

#[test]
fn send_buf_fills_and_sends_within_window() {
    let mut s = SendBuf::new(1000);
    assert!(s.fill_with(b"hello".to_vec()).is_empty());
    assert!(matches!(s.next_data(), NextData::ZeroWindow(ref v) if v == b"h"));
    let mut s = SendBuf::new(1000);
    s.fill_with(b"hello".to_vec());
    s.update_window(3);
    assert!(matches!(s.next_data(), NextData::Data(ref v) if v == b"hel"));
    assert!(matches!(s.next_data(), NextData::ZeroWindow(ref v) if v == b"l"));
    s.update_window(100);
    s.probing = false;
    assert!(matches!(s.next_data(), NextData::Data(ref v) if v == b"lo"));
    assert!(matches!(s.next_data(), NextData::NoData));
    assert!(s.ack_ok(1004));
    assert!(!s.ack_ok(1007));
    assert!(!s.ack_ok(999));
    assert!(!s.ack_data(1004));
    assert_eq!(s.num_acked, 3);
    assert_eq!(s.nxt, 2);
}

#[test]
fn send_buf_keeps_the_rest_when_full() {
    let mut s = SendBuf::new(0);
    let rest = s.fill_with(vec![0u8; 65535 + 10]);
    assert_eq!(rest.len(), 10);
    assert_eq!(s.fill_with(vec![1, 2]), vec![1, 2]);
}

#[test]
fn send_buf_segments_are_at_most_one_payload() {
    let mut s = SendBuf::new(0);
    s.fill_with(vec![7u8; 5000]);
    s.update_window(60000);
    match s.next_data() {
        NextData::Data(v) => assert_eq!(v.len(), MAX_MSG_SIZE),
        _ => panic!(),
    }
}

#[test]
fn rto_follows_the_estimates() {
    let mut t = RetransmissionTimer::new();
    assert_eq!(t.rto, MIN_RTO);
    t.update_rto(100_000_000);
    assert_eq!(t.srtt, Some(100_000_000));
    assert_eq!(t.rttvar, Some(50_000_000));
    assert_eq!(t.rto, 300_000_000);
    t.update_rto(20_000_000);
    assert_eq!(t.srtt, Some(90_000_000));
    assert_eq!(t.rttvar, Some(57_500_000));
    assert_eq!(t.rto, 320_000_000);
    t.update_rto(0);
    t.update_rto(0);
    assert!(t.rto >= MIN_RTO);
}

#[test]
fn rto_backs_off_and_resets() {
    let mut t = RetransmissionTimer::new();
    t.do_retransmission();
    assert_eq!(t.rto, 2 * MIN_RTO);
    assert_eq!(t.retransmission_count, 1);
    for _ in 0..40 {
        t.do_retransmission();
    }
    assert_eq!(t.rto, MAX_RTO);
    t.reset();
    assert_eq!(t.retransmission_count, 0);
    assert_eq!(t.rto, MIN_RTO);
}

#[test]
fn retransmission_queue_acks_and_times_out() {
    let mut q = RetransmissionQueue::new();
    assert!(q.is_empty());
    q.add_segment(100, b"abc".to_vec(), ACK, 7, 1_000);
    q.add_segment(103, b"de".to_vec(), ACK, 8, 2_000);
    assert_eq!(q.calculate_rtt(103, 5_000), Some(4_000));
    assert_eq!(q.calculate_rtt(50, 5_000), None);
    assert!(q.remove_acked_segments(103).is_none());
    assert!(!q.is_empty());
    // the same acknowledgement three more times: fast retransmit on the third
    assert!(q.remove_acked_segments(103).is_none());
    assert!(q.remove_acked_segments(103).is_none());
    let fast = q.remove_acked_segments(103).unwrap();
    assert_eq!(fast.seq_num, 103);
    assert_eq!(fast.payload, b"de".to_vec());
    assert!(q.get_next_timeout(10_000, 5_000).is_none());
    let seg = q.get_next_timeout(1_000, 5_000).unwrap();
    assert_eq!(seg.seq_num, 103);
    q.mark_sent(103, 9_000);
    assert!(q.remove_acked_segments(105).is_none());
    assert!(q.is_empty());
}

#[test]
fn retr_segment_timeout() {
    let mut s = RetrSegment::new(1, vec![1], ACK, 0, 100);
    assert!(!s.timed_out(50, 120));
    assert!(s.timed_out(50, 150));
    s.update_time_of_send(200);
    assert!(!s.timed_out(50, 220));
    assert!(MAX_RETRANSMISSIONS > 0);
}

#[test]
fn send_buf_check_timeouts_resends_then_gives_up() {
    let mut s = SendBuf::new(0);
    s.retr_queue.add_segment(1, vec![9], ACK, 0, 0);
    let mut total = 0;
    for k in 1..10u64 {
        let r = s.check_timeouts(10, k * 100);
        total += r.len();
    }
    assert!(total >= 1);
    assert!(s.retr_queue.is_empty());
}
