use permessage_deflate::codec::DeflateContext;
use permessage_deflate::deflate::DeflateConfig;

const TRAILER: [u8; 4] = [0x00, 0x00, 0xff, 0xff];

fn round_trip(config: DeflateConfig, payload: &[u8]) {
    let mut ctx = DeflateContext::from_config(config);
    let compressed = ctx.compress(payload).expect("compress should succeed");
    let decompressed = ctx.decompress(compressed, true).expect("decompress should succeed");
    assert_eq!(decompressed, payload);
}

#[test]
fn round_trip_simple_payload() {
    round_trip(DeflateConfig::default(), b"Hello WebSocket compression!");
}

#[test]
fn round_trip_empty_payload() {
    round_trip(DeflateConfig::default(), b"");
}

#[test]
fn round_trip_large_repetitive_payload() {
    let payload: Vec<u8> = (0..100_000u32).map(|i| (i % 251) as u8).collect();
    round_trip(DeflateConfig::default(), &payload);
}

#[test]
fn round_trip_incompressible_payload() {
    // A pseudo-random payload that deflate cannot shrink.
    let mut state: u32 = 0x1234_5678;
    let payload: Vec<u8> = (0..4096)
        .map(|_| {
            state = state.wrapping_mul(1_664_525).wrapping_add(1_013_904_223);
            (state >> 24) as u8
        })
        .collect();
    round_trip(DeflateConfig::default(), &payload);
}

#[test]
fn round_trip_with_context_reset() {
    let config = DeflateConfig {
        compression: 6,
        request_no_context_takeover: true,
        accept_no_context_takeover: true,
    };
    let mut ctx = DeflateContext::from_config(config);
    for _ in 0..3 {
        let payload = b"the same message again and again".to_vec();
        let compressed = ctx.compress(&payload).expect("compress should succeed");
        let decompressed = ctx.decompress(compressed, true).expect("decompress should succeed");
        assert_eq!(decompressed, payload);
    }
}

#[test]
fn round_trip_several_messages_shared_context() {
    let mut ctx = DeflateContext::from_config(DeflateConfig::default());
    let messages: [&[u8]; 4] = [
        b"first message",
        b"second message, somewhat longer than the first one",
        b"",
        b"first message",
    ];
    for payload in messages {
        let compressed = ctx.compress(payload).expect("compress should succeed");
        let decompressed = ctx.decompress(compressed, true).expect("decompress should succeed");
        assert_eq!(decompressed, payload);
    }
}

#[test]
fn compress_output_never_ends_with_trailer() {
    let mut ctx = DeflateContext::from_config(DeflateConfig::default());
    let payloads: [&[u8]; 5] = [
        b"",
        b"a",
        b"Hello WebSocket compression!",
        &[0x00; 64],
        &[0xff; 64],
    ];
    for payload in payloads {
        let compressed = ctx.compress(payload).expect("compress should succeed");
        assert!(
            compressed.len() < 4 || compressed[compressed.len() - 4..] != TRAILER,
            "wire form must not end with the empty-block trailer"
        );
    }
}

#[test]
fn compress_actually_shrinks_repetitive_data() {
    let mut ctx = DeflateContext::from_config(DeflateConfig::default());
    let payload = vec![b'x'; 10_000];
    let compressed = ctx.compress(&payload).expect("compress should succeed");
    assert!(compressed.len() < payload.len() / 10);
}

#[test]
fn fragmented_message_decompresses_like_the_whole() {
    let payload = b"a message split into two fragments by the frame layer".to_vec();

    let mut whole = DeflateContext::from_config(DeflateConfig::default());
    let compressed = whole.compress(&payload).expect("compress should succeed");
    let whole_output =
        whole.decompress(compressed.clone(), true).expect("decompress should succeed");

    let mut fragmented = DeflateContext::from_config(DeflateConfig::default());
    let again = fragmented.compress(&payload).expect("compress should succeed");
    let cut = again.len() / 2;
    let first = again[..cut].to_vec();
    let second = again[cut..].to_vec();
    let mut output = fragmented.decompress(first, false).expect("decompress should succeed");
    output.extend(fragmented.decompress(second, true).expect("decompress should succeed"));

    assert_eq!(output, whole_output);
    assert_eq!(output, payload);
}

#[test]
fn decompress_garbage_fails() {
    let mut ctx = DeflateContext::from_config(DeflateConfig::default());
    let garbage = vec![0xde, 0xad, 0xbe, 0xef, 0x01, 0x02, 0x03];
    assert!(ctx.decompress(garbage, true).is_err());
}
