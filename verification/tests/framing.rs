use mpc_rooms::framing::{FlushStep, FrameStatus, ReadAction, TCPDuplex, WriteOutcome};

fn drain(d: &mut TCPDuplex<String>) -> Vec<u8> {
    let mut out = Vec::new();
    while let Some(c) = d.pop_front_chunk() {
        out.extend_from_slice(&c);
    }
    out
}

#[test]
fn new_connection_has_uuid_and_empty_queue() {
    let a: TCPDuplex<String> = TCPDuplex::new();
    let b: TCPDuplex<String> = TCPDuplex::new();
    assert_eq!(a.uuid.len(), 36);
    assert_ne!(a.uuid, b.uuid);
    assert_eq!(a.pending_chunk_count(), 0);
}

#[test]
fn queue_message_pushes_prefix_then_payload() {
    let mut d: TCPDuplex<String> = TCPDuplex::new();
    d.queue_message(b"\"hello\"".to_vec());
    assert_eq!(d.pending_chunk_count(), 2);
    let prefix = d.pop_front_chunk().unwrap();
    assert_eq!(&prefix[..], &[0u8, 0, 0, 7]);
    let payload = d.pop_front_chunk().unwrap();
    assert_eq!(&payload[..], b"\"hello\"");
    assert!(d.pop_front_chunk().is_none());
}

#[test]
fn prefix_is_big_endian() {
    let mut d: TCPDuplex<String> = TCPDuplex::new();
    d.queue_message(vec![1u8; 0x01_0203]);
    let prefix = d.pop_front_chunk().unwrap();
    assert_eq!(&prefix[..], &[0u8, 1, 2, 3]);
}

#[test]
fn push_front_restores_a_chunk() {
    let mut d: TCPDuplex<String> = TCPDuplex::new();
    d.queue_message(b"ab".to_vec());
    let first = d.pop_front_chunk().unwrap();
    d.push_front_chunk(first);
    assert_eq!(drain(&mut d), vec![0, 0, 0, 2, b'a', b'b']);
}

#[test]
fn written_frames_read_back_in_order() {
    let mut w: TCPDuplex<String> = TCPDuplex::new();
    w.queue_message(b"one".to_vec());
    w.queue_message(Vec::new());
    w.queue_message(b"three".to_vec());
    let wire = drain(&mut w);
    let mut r: TCPDuplex<String> = TCPDuplex::new();
    assert!(matches!(r.on_read(&wire), ReadAction::Buffered));
    let mut got = Vec::new();
    loop {
        match r.next_frame() {
            FrameStatus::Frame(b) => got.push(b.to_vec()),
            FrameStatus::NeedHeader => break,
            FrameStatus::AwaitingBody => panic!("unexpected partial frame"),
        }
    }
    assert_eq!(got, vec![b"one".to_vec(), Vec::new(), b"three".to_vec()]);
}

#[test]
fn partial_input_waits() {
    let mut r: TCPDuplex<String> = TCPDuplex::new();
    assert!(matches!(r.next_frame(), FrameStatus::NeedHeader));
    assert!(matches!(r.on_read(&[0, 0, 0]), ReadAction::Buffered));
    assert!(matches!(r.next_frame(), FrameStatus::NeedHeader));
    assert!(matches!(r.on_read(&[3, b'a']), ReadAction::Buffered));
    assert!(matches!(r.next_frame(), FrameStatus::AwaitingBody));
    assert!(matches!(r.on_read(&[b'b', b'c', 0]), ReadAction::Buffered));
    assert_eq!(r.received_len(), 8);
    match r.next_frame() {
        FrameStatus::Frame(b) => assert_eq!(&b[..], b"abc"),
        _ => panic!("expected a frame"),
    }
    assert!(matches!(r.next_frame(), FrameStatus::NeedHeader));
}

#[test]
fn settle_chunk_write_steps() {
    let mut d: TCPDuplex<String> = TCPDuplex::new();
    d.queue_message(b"xyz".to_vec());
    let c = d.pop_front_chunk().unwrap();
    assert!(matches!(d.settle_chunk_write(c, WriteOutcome::WouldBlock), FlushStep::Wait));
    assert_eq!(d.pending_chunk_count(), 2);
    let c = d.pop_front_chunk().unwrap();
    assert!(matches!(d.settle_chunk_write(c, WriteOutcome::Written(4)), FlushStep::Continue));
    assert_eq!(d.pending_chunk_count(), 1);
    let c = d.pop_front_chunk().unwrap();
    assert!(matches!(d.settle_chunk_write(c, WriteOutcome::Written(1)), FlushStep::Continue));
    let rest = d.pop_front_chunk().unwrap();
    assert_eq!(&rest[..], b"yz");
    assert!(matches!(d.settle_chunk_write(rest, WriteOutcome::Written(0)), FlushStep::WriteZero));
    let rest = d.pop_front_chunk().unwrap();
    assert!(matches!(d.settle_chunk_write(rest, WriteOutcome::Failed), FlushStep::Abort));
    let rest = d.pop_front_chunk().unwrap();
    assert_eq!(&rest[..], b"yz");
    assert!(matches!(d.settle_chunk_write(rest, WriteOutcome::Written(2)), FlushStep::Continue));
    assert_eq!(d.pending_chunk_count(), 0);
}

#[test]
fn short_writes_send_every_byte_once() {
    let mut w: TCPDuplex<String> = TCPDuplex::new();
    w.queue_message(b"hello".to_vec());
    w.queue_message(b"world!".to_vec());
    let mut sent = Vec::new();
    while let Some(c) = w.pop_front_chunk() {
        let n = c.len().min(2);
        sent.extend_from_slice(&c[..n]);
        assert!(matches!(w.settle_chunk_write(c, WriteOutcome::Written(n)), FlushStep::Continue));
    }
    let mut r: TCPDuplex<String> = TCPDuplex::new();
    assert!(matches!(r.on_read(&sent), ReadAction::Buffered));
    assert!(matches!(r.next_frame(), FrameStatus::Frame(b) if &b[..] == b"hello"));
    assert!(matches!(r.next_frame(), FrameStatus::Frame(b) if &b[..] == b"world!"));
}

#[test]
fn empty_read_ends_stream() {
    let mut r: TCPDuplex<String> = TCPDuplex::new();
    assert!(matches!(r.on_read(&[]), ReadAction::EndOfStream));
    assert_eq!(r.received_len(), 0);
}

#[test]
fn connection_id_is_a_v4_uuid() {
    let d: TCPDuplex<String> = TCPDuplex::new();
    let c: Vec<char> = d.uuid.chars().collect();
    assert_eq!(c.len(), 36);
    assert_eq!(c[8], '-');
    assert_eq!(c[14], '4');
    assert!("89ab".contains(c[19]));
}
