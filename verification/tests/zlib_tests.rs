use basalt::zlib::{has_zlib_suffix, GatewayZlib, ZlibError, MAX_BUF};
use flate2::{Compress, Compression, FlushCompress};
use std::io::Write;

/// Compress `data` on a persistent zlib stream, ending with a sync
/// flush (the message-boundary marker Discord uses).
fn sync_chunk(comp: &mut Compress, data: &[u8]) -> Vec<u8> {
    let mut out = vec![0u8; 16 * 1024];
    let before_out = comp.total_out();
    comp.compress(data, &mut out, FlushCompress::Sync).expect("compress");
    let produced = (comp.total_out() - before_out) as usize;
    out.truncate(produced);
    assert!(out.ends_with(&[0x00, 0x00, 0xFF, 0xFF]) || produced > 0);
    out
}

#[test]
fn detects_suffix() {
    assert!(has_zlib_suffix(&[0x42, 0x42, 0x00, 0x00, 0xFF, 0xFF]));
    assert!(!has_zlib_suffix(&[0x42, 0x42]));
    assert!(!has_zlib_suffix(&[]));
}

#[test]
fn round_trip_single_message() {
    let mut comp = Compress::new(Compression::default(), true);
    let frame = sync_chunk(&mut comp, b"hello discord");
    let mut z = GatewayZlib::new();
    match z.push_bytes(&frame).unwrap() {
        Some(out) => assert_eq!(&out, b"hello discord"),
        None => panic!("expected to detect suffix"),
    }
}

#[test]
fn fragmented_delivery_across_pushes() {
    let mut comp = Compress::new(Compression::default(), true);
    let encoded = sync_chunk(&mut comp, b"fragmented payload");
    let mut z = GatewayZlib::new();
    let half = encoded.len() / 2;
    assert!(z.push_bytes(&encoded[..half]).unwrap().is_none());
    match z.push_bytes(&encoded[half..]).unwrap() {
        Some(out) => assert_eq!(&out, b"fragmented payload"),
        None => panic!("expected payload after final fragment"),
    }
}

#[test]
fn context_takeover_across_messages() {
    let mut comp = Compress::new(Compression::default(), true);
    let frame1 = sync_chunk(&mut comp, b"first message about basalt");
    let frame2 = sync_chunk(&mut comp, b"second message about basalt too");
    let mut z = GatewayZlib::new();
    let out1 = z.push_bytes(&frame1).unwrap().expect("message 1");
    assert_eq!(&out1, b"first message about basalt");
    let out2 = z.push_bytes(&frame2).unwrap().expect("message 2 with shared context");
    assert_eq!(&out2, b"second message about basalt too");
}

#[test]
fn finishes_stream_and_restarts() {
    let mut z = GatewayZlib::new();
    let mut encoder = flate2::write::ZlibEncoder::new(Vec::new(), Compression::default());
    encoder.write_all(b"done stream").unwrap();
    let mut frame1 = encoder.finish().unwrap();
    frame1.extend_from_slice(&[0x00, 0x00, 0xFF, 0xFF]);
    let out1 = z.push_bytes(&frame1).unwrap().expect("finished frame decodes");
    assert_eq!(&out1, b"done stream");
    let mut comp = Compress::new(Compression::default(), true);
    let mut frame2 = sync_chunk(&mut comp, b"new stream message");
    frame2.extend_from_slice(&[0x00, 0x00, 0xFF, 0xFF]);
    let out2 = z.push_bytes(&frame2).unwrap().expect("new stream decodes");
    assert_eq!(&out2, b"new stream message");
}

#[test]
fn corrupt_frame_is_a_decode_error() {
    let mut z = GatewayZlib::new();
    let garbage = [0x12u8, 0x34, 0x56, 0x00, 0x00, 0xFF, 0xFF];
    match z.push_bytes(&garbage) {
        Err(ZlibError::Decode { buffered, .. }) => assert_eq!(buffered, garbage.len()),
        other => panic!("expected a decode error, got {:?}", other.map(|o| o.map(|v| v.len()))),
    }
    // After the reset a fresh stream decodes again.
    let mut comp = Compress::new(Compression::default(), true);
    let frame = sync_chunk(&mut comp, b"after reset");
    assert_eq!(z.push_bytes(&frame).unwrap().unwrap(), b"after reset".to_vec());
}

#[test]
fn oversized_unterminated_buffer_overflows() {
    let mut z = GatewayZlib::new();
    let big = vec![0x41u8; MAX_BUF + 1];
    match z.push_bytes(&big) {
        Err(ZlibError::Overflow { max_buf }) => assert_eq!(max_buf, MAX_BUF),
        _ => panic!("expected overflow"),
    }
    // The buffer was dropped: a short unterminated push is simply pending.
    assert!(z.push_bytes(&[1, 2, 3]).unwrap().is_none());
}

#[test]
fn payload_larger_than_the_window_comes_out_whole() {
    // Highly compressible: a few KiB of input inflate to well over 64 KiB.
    let data: Vec<u8> = (0..300_000u32).map(|i| b"abcdefgh"[(i % 8) as usize]).collect();
    let mut comp = Compress::new(Compression::default(), true);
    let mut frame = vec![0u8; 64 * 1024];
    let before = comp.total_out();
    comp.compress(&data, &mut frame, FlushCompress::Sync).expect("compress");
    frame.truncate((comp.total_out() - before) as usize);
    assert_eq!(comp.total_in() as usize, data.len());
    let mut z = GatewayZlib::new();
    let out = z.push_bytes(&frame).unwrap().expect("a whole message");
    assert_eq!(out.len(), data.len());
    assert_eq!(out, data);
    // The context carries on for the next message.
    let next = sync_chunk(&mut comp, b"after the big one");
    assert_eq!(z.push_bytes(&next).unwrap().as_deref(), Some(&b"after the big one"[..]));
}
