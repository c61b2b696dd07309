//! Waiting for the nodes of a quantum.
use virtmcu::deterministic_coordinator::barrier::{BarrierError, CoordMessage, QuantumBarrier};
use virtmcu::deterministic_coordinator::topology::Protocol;

fn dummy_msg(vtime: u64, seq: u64, src: u32) -> CoordMessage {
    CoordMessage {
        delivery_vtime_ns: vtime,
        src_node_id: src,
        dst_node_id: 1,
        sequence_number: seq,
        protocol: Protocol::Uart,
        payload: vec![],
    }
}

#[test]
fn test_barrier_waits_for_all_3_nodes() {
    let mut barrier = QuantumBarrier::<CoordMessage>::new(3, 1024);
    assert!(barrier.submit_done(0, 0, 0, vec![]).unwrap().is_none());
    assert!(barrier.submit_done(1, 0, 0, vec![]).unwrap().is_none());
    assert!(barrier.submit_done(2, 0, 0, vec![]).unwrap().is_some());
}

#[test]
fn test_canonical_sort_same_vtime() {
    let mut barrier = QuantumBarrier::<CoordMessage>::new(3, 1024);
    barrier
        .submit_done(2, 0, 0, vec![dummy_msg(10, 0, 2)])
        .unwrap();
    barrier
        .submit_done(0, 0, 0, vec![dummy_msg(10, 0, 0)])
        .unwrap();
    let sorted = barrier
        .submit_done(1, 0, 0, vec![dummy_msg(10, 0, 1)])
        .unwrap()
        .unwrap();

    assert_eq!(sorted.len(), 3);
    assert_eq!(sorted[0].src_node_id, 0);
    assert_eq!(sorted[1].src_node_id, 1);
    assert_eq!(sorted[2].src_node_id, 2);
}

#[test]
fn test_canonical_sort_different_vtime() {
    let mut barrier = QuantumBarrier::<CoordMessage>::new(3, 1024);
    barrier
        .submit_done(0, 0, 0, vec![dummy_msg(30, 0, 0)])
        .unwrap();
    barrier
        .submit_done(1, 0, 0, vec![dummy_msg(10, 0, 1)])
        .unwrap();
    let sorted = barrier
        .submit_done(2, 0, 0, vec![dummy_msg(20, 0, 2)])
        .unwrap()
        .unwrap();

    assert_eq!(sorted.len(), 3);
    assert_eq!(sorted[0].delivery_vtime_ns, 10);
    assert_eq!(sorted[1].delivery_vtime_ns, 20);
    assert_eq!(sorted[2].delivery_vtime_ns, 30);
}

#[test]
fn test_barrier_reset_allows_next_quantum() {
    let mut barrier = QuantumBarrier::<CoordMessage>::new(2, 1024);
    barrier.submit_done(0, 0, 0, vec![]).unwrap();
    barrier.submit_done(1, 0, 0, vec![]).unwrap();

    barrier.reset();

    assert!(barrier.submit_done(0, 0, 0, vec![]).unwrap().is_none());
    assert!(barrier.submit_done(1, 0, 0, vec![]).unwrap().is_some());
}

#[test]
fn test_barrier_duplicate_done_rejected() {
    let mut barrier = QuantumBarrier::<CoordMessage>::new(2, 1024);
    barrier.submit_done(0, 0, 0, vec![]).unwrap();
    assert!(matches!(
        barrier.submit_done(0, 0, 0, vec![]),
        Err(BarrierError::DuplicateDone)
    ));
}

#[test]
fn test_admission_control_drops_excess() {
    let mut barrier = QuantumBarrier::<CoordMessage>::new(1, 3);
    let msgs = vec![
        dummy_msg(0, 0, 0),
        dummy_msg(0, 1, 0),
        dummy_msg(0, 2, 0),
        dummy_msg(0, 3, 0),
        dummy_msg(0, 4, 0),
    ];

    let result = barrier.submit_done(0, 0, 0, msgs).unwrap().unwrap();
    assert_eq!(result.len(), 3);
}

#[test]
fn test_admission_control_deterministic_truncation_payloads() {
    // Proves that messages with identical vtime/seq but different payloads
    // are still truncated deterministically regardless of input order.
    let max_msgs = 2;

    let mut m1 = dummy_msg(10, 1, 0);
    m1.payload = vec![1];
    let mut m2 = dummy_msg(10, 1, 0);
    m2.payload = vec![2];
    let mut m3 = dummy_msg(10, 1, 0);
    m3.payload = vec![3];

    // Different input permutations
    let perms = vec![
        vec![m1.clone(), m2.clone(), m3.clone()],
        vec![m3.clone(), m2.clone(), m1.clone()],
        vec![m2.clone(), m3.clone(), m1.clone()],
        vec![m1.clone(), m3.clone(), m2.clone()],
    ];

    let mut expected_result = None;
    for msgs in perms {
        let mut barrier = QuantumBarrier::<CoordMessage>::new(1, max_msgs);
        let result = barrier.submit_done(0, 0, 0, msgs).unwrap().unwrap();
        assert_eq!(result.len(), 2);

        if let Some(expected) = &expected_result {
            assert_eq!(
                &result, expected,
                "Truncation was not deterministic across input permutations!"
            );
        } else {
            expected_result = Some(result);
        }
    }
}

#[test]
fn test_admission_control_deterministic_truncation() {
    let mut barrier = QuantumBarrier::<CoordMessage>::new(1, 3);
    let msgs = vec![
        dummy_msg(10, 4, 0),
        dummy_msg(5, 1, 0),
        dummy_msg(10, 3, 0),
        dummy_msg(5, 2, 0),
        dummy_msg(15, 5, 0),
    ];

    let result = barrier
        .submit_done(0, 0, 0, msgs)
        .unwrap()
        .unwrap();

    assert_eq!(result.len(), 3);
    assert_eq!(result[0].delivery_vtime_ns, 5);
    assert_eq!(result[0].sequence_number, 1);

    assert_eq!(result[1].delivery_vtime_ns, 5);
    assert_eq!(result[1].sequence_number, 2);

    assert_eq!(result[2].delivery_vtime_ns, 10);
    assert_eq!(result[2].sequence_number, 3);
}

#[test]
fn test_admission_control_within_limit() {
    let mut barrier = QuantumBarrier::<CoordMessage>::new(1, 3);
    let msgs = vec![dummy_msg(0, 0, 0), dummy_msg(0, 1, 0), dummy_msg(0, 2, 0)];

    let result = barrier
        .submit_done(0, 0, 0, msgs)
        .unwrap()
        .unwrap();
    assert_eq!(result.len(), 3);
}

#[test]
fn test_admission_control_zero_messages() {
    let mut barrier = QuantumBarrier::<CoordMessage>::new(1, 3);
    let result = barrier
        .submit_done(0, 0, 0, vec![])
        .unwrap()
        .unwrap();
    assert_eq!(result.len(), 0);
}

#[test]
fn test_admission_control_stress() {
    let max_msgs = 1024;
    let mut barrier = QuantumBarrier::<CoordMessage>::new(1, max_msgs);

    let mut msgs = Vec::with_capacity(10_000);
    // Insert in reverse order to ensure worst-case sort complexity
    for i in (0..10_000).rev() {
        msgs.push(dummy_msg(i as u64, (10_000 - i) as u64, 0));
    }

    let result = barrier
        .submit_done(0, 0, 0, msgs)
        .unwrap()
        .unwrap();

    assert_eq!(result.len(), max_msgs);
    assert_eq!(result[0].delivery_vtime_ns, 0);
    assert_eq!(result[1023].delivery_vtime_ns, 1023);
}
