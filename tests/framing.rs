use tcp2udp::deframe::{decode_frames, Deframer, PumpStep};
use tcp2udp::frame::{encode_frame, MAX_FRAME_PAYLOAD};
use tcp2udp::SessionError;

fn frames(payloads: &[Vec<u8>]) -> Vec<u8> {
    let mut out = Vec::new();
    for p in payloads {
        out.extend(encode_frame(p).unwrap());
    }
    out
}

#[test]
fn encode_puts_big_endian_length_first() {
    assert_eq!(encode_frame(&[1, 2, 3]).unwrap(), vec![0, 3, 1, 2, 3]);
    let p = vec![7u8; 0x1234];
    let f = encode_frame(&p).unwrap();
    assert_eq!(&f[..2], &[0x12, 0x34]);
    assert_eq!(&f[2..], &p[..]);
}

#[test]
fn encode_empty_datagram_is_bare_header() {
    assert_eq!(encode_frame(&[]).unwrap(), vec![0, 0]);
}

#[test]
fn encode_largest_datagram() {
    let p = vec![0xabu8; MAX_FRAME_PAYLOAD];
    let f = encode_frame(&p).unwrap();
    assert_eq!(f.len(), 65537);
    assert_eq!(&f[..2], &[0xff, 0xff]);
}

#[test]
fn encode_oversized_datagram_fails() {
    let p = vec![0u8; 65536];
    assert_eq!(encode_frame(&p), Err(SessionError::FrameTooLarge));
}

#[test]
fn round_trip_sequence_of_payloads() {
    let payloads = vec![
        vec![],
        vec![1u8],
        vec![2u8, 3, 4],
        vec![9u8; 300],
        vec![],
        vec![5u8; MAX_FRAME_PAYLOAD],
    ];
    let stream = frames(&payloads);
    assert_eq!(decode_frames(&stream).unwrap(), payloads);
}

#[test]
fn decode_empty_stream_gives_no_payloads() {
    assert_eq!(decode_frames(&[]).unwrap(), Vec::<Vec<u8>>::new());
}

#[test]
fn boundaries_preserved_under_any_read_cuts() {
    let payloads = vec![vec![1u8, 2], vec![], vec![3u8; 10], vec![4u8]];
    let stream = frames(&payloads);
    for cut in 1..=stream.len() {
        let mut d = Deframer::new();
        let mut got: Vec<Vec<u8>> = Vec::new();
        for chunk in stream.chunks(cut) {
            match d.on_read(chunk).unwrap() {
                PumpStep::Forward(v) => got.extend(v),
                PumpStep::Closed => panic!("closed on a non-empty read"),
            }
        }
        assert!(matches!(d.on_read(&[]), Ok(PumpStep::Closed)));
        assert_eq!(got, payloads);
    }
}

#[test]
fn byte_at_a_time_emits_each_frame_when_complete() {
    let stream = frames(&[vec![7u8, 8], vec![]]);
    let mut d = Deframer::new();
    let counts: Vec<usize> = stream.iter().map(|b| d.push(&[*b]).len()).collect();
    assert_eq!(counts, vec![0, 0, 0, 1, 0, 1]);
    assert_eq!(d.pending_len(), 0);
}

#[test]
fn truncated_payload_is_an_error_and_never_sent() {
    let mut d = Deframer::new();
    let got = match d.on_read(&[0, 5, 1, 2]).unwrap() {
        PumpStep::Forward(v) => v,
        PumpStep::Closed => panic!("closed on a non-empty read"),
    };
    assert!(got.is_empty());
    assert_eq!(d.pending_len(), 4);
    assert!(matches!(d.on_read(&[]), Err(SessionError::TruncatedFrame)));
    assert_eq!(decode_frames(&[0, 5, 1, 2]), Err(SessionError::TruncatedFrame));
}

#[test]
fn truncated_after_complete_frames() {
    let mut stream = frames(&[vec![1u8], vec![2u8, 3]]);
    stream.extend([0, 4, 9]);
    assert_eq!(decode_frames(&stream), Err(SessionError::TruncatedFrame));
    let mut d = Deframer::new();
    assert_eq!(d.push(&stream), vec![vec![1u8], vec![2u8, 3]]);
    assert_eq!(d.pending_len(), 3);
}

#[test]
fn partial_header_at_end_is_truncated() {
    assert_eq!(decode_frames(&[0, 1, 5, 0]), Err(SessionError::TruncatedFrame));
}

#[test]
fn clean_close_between_frames() {
    let mut d = Deframer::new();
    assert!(matches!(d.on_read(&[]), Ok(PumpStep::Closed)));
}

#[test]
fn idle_datagram_direction_does_not_stall_decoding() {
    // Only stream bytes are fed; no datagram ever arrives.
    let payloads: Vec<Vec<u8>> = (0u8..50).map(|i| vec![i; i as usize]).collect();
    let stream = frames(&payloads);
    let mut d = Deframer::new();
    let mut got = Vec::new();
    for chunk in stream.chunks(7) {
        got.extend(d.push(chunk));
    }
    assert_eq!(got, payloads);
}
