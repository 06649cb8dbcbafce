use tftpd::engine::Receiver;
use tftpd::engine::ReceiverOutcome;
use tftpd::engine::RetryOutcome;
use tftpd::engine::Sender;
use tftpd::engine::SenderOutcome;
use tftpd::Message;
use tftpd::WindowRead;

#[test]
fn sender_walks_through_an_upload() {
    let window = WindowRead::new(2, 5, b"Hello, world!".to_vec());
    let mut sender = Sender::new(window, 3);

    sender.window.fill();
    let msgs = sender.window_data();
    assert_eq!(msgs.len(), 2);
    match &msgs[0] {
        Message::Data { block, payload } => {
            assert_eq!(*block, 1);
            assert_eq!(payload, &b"Hello".to_vec());
        }
        other => panic!("expected data, got {:?}", other),
    }
    match &msgs[1] {
        Message::Data { block, payload } => {
            assert_eq!(*block, 2);
            assert_eq!(payload, &b", wor".to_vec());
        }
        other => panic!("expected data, got {:?}", other),
    }

    match sender.on_message(Message::Ack { block: 2 }) {
        SenderOutcome::Progress => {}
        other => panic!("expected progress, got {:?}", other),
    }

    sender.window.fill();
    let msgs = sender.window_data();
    assert_eq!(msgs.len(), 1);
    match &msgs[0] {
        Message::Data { block, payload } => {
            assert_eq!(*block, 3);
            assert_eq!(payload, &b"ld!".to_vec());
        }
        other => panic!("expected data, got {:?}", other),
    }

    // A late duplicate of an old acknowledgement is ignored.
    match sender.on_message(Message::Ack { block: 2 }) {
        SenderOutcome::Stale => {}
        other => panic!("expected a stale ack, got {:?}", other),
    }

    match sender.on_message(Message::Ack { block: 3 }) {
        SenderOutcome::Finished => {}
        other => panic!("expected completion, got {:?}", other),
    }
    assert!(sender.done);
}

#[test]
fn sender_aborts_on_peer_error() {
    let window = WindowRead::new(2, 5, b"Hello".to_vec());
    let mut sender = Sender::new(window, 3);
    sender.window.fill();
    let outcome = sender.on_message(Message::Error { code: 3, message: b"Disk full".to_vec() });
    match outcome {
        SenderOutcome::PeerError { code, message } => {
            assert_eq!(code, 3);
            assert_eq!(message, b"Disk full".to_vec());
        }
        other => panic!("expected the peer's error, got {:?}", other),
    }
}

#[test]
fn receiver_walks_through_a_download() {
    let mut receiver = Receiver::new(2, 5, 3);

    match receiver.on_message(Message::Data { block: 1, payload: b"Hello".to_vec() }) {
        ReceiverOutcome::Accepted => {}
        other => panic!("expected a buffered block, got {:?}", other),
    }
    match receiver.on_message(Message::Data { block: 2, payload: b", wor".to_vec() }) {
        ReceiverOutcome::AckWindow { block } => assert_eq!(block, 2),
        other => panic!("expected a window acknowledgement, got {:?}", other),
    }
    // A retransmitted old block only re-triggers the acknowledgement.
    match receiver.on_message(Message::Data { block: 2, payload: b", wor".to_vec() }) {
        ReceiverOutcome::ResendAck { block } => assert_eq!(block, 2),
        other => panic!("expected a re-sent acknowledgement, got {:?}", other),
    }
    match receiver.on_message(Message::Data { block: 3, payload: b"ld!".to_vec() }) {
        ReceiverOutcome::Finished { block } => assert_eq!(block, 3),
        other => panic!("expected completion, got {:?}", other),
    }
    assert!(receiver.done);
    assert_eq!(receiver.window.get_sink().as_slice(), b"Hello, world!");
    assert_eq!(receiver.window.file_len(), 13);
}

#[test]
fn receiver_rejects_out_of_window_blocks() {
    let mut receiver = Receiver::new(2, 5, 3);
    match receiver.on_message(Message::Data { block: 9, payload: b"Hello".to_vec() }) {
        ReceiverOutcome::Violation => {}
        other => panic!("expected a protocol violation, got {:?}", other),
    }
    // An oversized payload is a violation too.
    match receiver.on_message(Message::Data { block: 1, payload: b"toolong".to_vec() }) {
        ReceiverOutcome::Violation => {}
        other => panic!("expected a protocol violation, got {:?}", other),
    }
}

#[test]
fn retry_budget_counts_down_to_exhaustion() {
    let window = WindowRead::new(1, 512, b"x".to_vec());
    let mut sender = Sender::new(window, 3);
    sender.window.fill();
    assert_eq!(sender.on_timeout(), RetryOutcome::Retry);
    assert_eq!(sender.on_timeout(), RetryOutcome::Retry);
    assert_eq!(sender.on_timeout(), RetryOutcome::Exhausted);

    let mut receiver = Receiver::new(1, 512, 2);
    assert_eq!(receiver.on_timeout(), RetryOutcome::Retry);
    assert_eq!(receiver.on_timeout(), RetryOutcome::Exhausted);
}

/// Runs one upload end to end, losing the first `drops` responses on
/// their way back to the sender.
fn run_transfer(
    source: &[u8],
    block_size: u16,
    window_size: u16,
    retry_limit: u16,
    mut drops: u32,
) -> Result<Vec<u8>, String> {
    let window = WindowRead::new(window_size, block_size, source.to_vec());
    let mut sender = Sender::new(window, retry_limit);
    let mut receiver = Receiver::new(window_size, block_size, retry_limit);
    let mut rounds = 0;
    while !sender.done {
        rounds += 1;
        if rounds > 10_000 {
            return Err("the transfer hangs".to_string());
        }
        sender.window.fill();
        let mut ack: Option<u16> = None;
        if receiver.done {
            ack = Some(receiver.last_acked);
        } else {
            for m in sender.window_data() {
                match receiver.on_message(m) {
                    ReceiverOutcome::Accepted => {}
                    ReceiverOutcome::AckWindow { block } => ack = Some(block),
                    ReceiverOutcome::Finished { block } => ack = Some(block),
                    ReceiverOutcome::ResendAck { block } => ack = Some(block),
                    ReceiverOutcome::Violation => return Err("protocol violation".to_string()),
                    ReceiverOutcome::PeerError { .. } => return Err("peer error".to_string()),
                }
            }
        }
        let lost = drops > 0;
        if lost {
            drops -= 1;
        }
        if lost || ack.is_none() {
            match sender.on_timeout() {
                RetryOutcome::Retry => continue,
                RetryOutcome::Exhausted => return Err("timeout exhaustion".to_string()),
            }
        }
        match sender.on_message(Message::Ack { block: ack.unwrap() }) {
            SenderOutcome::Progress => {}
            SenderOutcome::Finished => {}
            SenderOutcome::Stale => match sender.on_timeout() {
                RetryOutcome::Retry => {}
                RetryOutcome::Exhausted => return Err("timeout exhaustion".to_string()),
            },
            other => return Err(format!("unexpected outcome {:?}", other)),
        }
    }
    Ok(receiver.window.get_sink().clone())
}

#[test]
fn simulated_transfer_reproduces_the_source() {
    let source = b"Hello, world!".to_vec();
    assert_eq!(tftpd::engine::simulate_transfer(source.clone(), 5, 2, 3, 0), Some(source.clone()));
    // Stop-and-wait: a windowsize of 1.
    assert_eq!(tftpd::engine::simulate_transfer(source.clone(), 4, 1, 3, 0), Some(source));
    // A source that is an exact multiple of the block size.
    let exact = b"0123456789".to_vec();
    assert_eq!(tftpd::engine::simulate_transfer(exact.clone(), 5, 2, 3, 0), Some(exact));
    let empty: Vec<u8> = Vec::new();
    assert_eq!(tftpd::engine::simulate_transfer(empty.clone(), 512, 1, 3, 0), Some(empty));
    let long: Vec<u8> = (0..=255u8).cycle().take(4096).collect();
    assert_eq!(tftpd::engine::simulate_transfer(long.clone(), 16, 8, 3, 0), Some(long));
}

#[test]
fn simulated_transfer_survives_losses_under_the_retry_budget() {
    let source = b"Hello, world!".to_vec();
    assert_eq!(tftpd::engine::simulate_transfer(source.clone(), 5, 2, 3, 1), Some(source.clone()));
    assert_eq!(tftpd::engine::simulate_transfer(source.clone(), 5, 2, 3, 2), Some(source.clone()));
    assert_eq!(tftpd::engine::simulate_transfer(source.clone(), 5, 2, 3, 3), None);
    assert_eq!(tftpd::engine::simulate_transfer(source, 5, 2, 3, 9), None);
}

#[test]
fn transfer_survives_fewer_drops_than_the_retry_limit() {
    let source = b"The quick brown fox jumps over the lazy dog";
    assert_eq!(run_transfer(source, 5, 2, 3, 0).unwrap(), source.to_vec());
    assert_eq!(run_transfer(source, 5, 2, 3, 1).unwrap(), source.to_vec());
    assert_eq!(run_transfer(source, 5, 2, 3, 2).unwrap(), source.to_vec());
    assert_eq!(run_transfer(source, 7, 4, 5, 4).unwrap(), source.to_vec());
}

#[test]
fn transfer_fails_by_timeout_at_the_retry_limit() {
    let source = b"The quick brown fox jumps over the lazy dog";
    assert_eq!(run_transfer(source, 5, 2, 3, 3), Err("timeout exhaustion".to_string()));
    assert_eq!(run_transfer(source, 5, 2, 3, 7), Err("timeout exhaustion".to_string()));
}
