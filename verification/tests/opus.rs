use dictation::opus_encoder::{opus_head_packet, opus_tags_packet, OpusOggEncoder, FRAME_BYTES};

/// Encodes the chunks as one stream with a stand-in codec that keeps the
/// first two bytes of each frame; returns the output of each step.
fn encode_all(chunks: Vec<Vec<u8>>, serial: u32) -> Vec<Vec<u8>> {
    let codec = |frame: &[u8]| -> Result<Vec<u8>, String> {
        assert_eq!(frame.len(), FRAME_BYTES);
        Ok(frame[..2].to_vec())
    };
    OpusOggEncoder::with_serial(serial)
        .encode_stream(&chunks, codec)
        .into_iter()
        .map(|item| item.expect("the stand-in codec does not fail"))
        .collect()
}

fn count_pages(bytes: &[u8]) -> usize {
    bytes.windows(4).filter(|w| *w == b"OggS").count()
}

#[test]
fn test_opus_ogg_encoding() {
    let samples = vec![0.0f32; 16000];
    let bytes: Vec<u8> = samples.iter().flat_map(|s| s.to_le_bytes()).collect();
    let codec = |frame: &[u8]| -> Result<Vec<u8>, String> { Ok(frame[..2].to_vec()) };
    let mut total_bytes = 0;
    let mut item_count = 0;
    for res in OpusOggEncoder::new().encode_stream(&vec![bytes.clone()], codec) {
        match res {
            Ok(b) => {
                total_bytes += b.len();
                item_count += 1;
            }
            Err(e) => panic!("Encoding error: {}", e),
        }
    }
    assert!(total_bytes > 0);
    assert!(item_count >= 3);
    let steps = encode_all(vec![bytes], 7);
    let total_bytes: usize = steps.iter().map(|s| s.len()).sum();
    let page_count: usize = steps.iter().map(|s| count_pages(s)).sum();
    assert!(total_bytes > 0);
    assert!(page_count >= 3);
    assert_eq!(steps.len(), 50);
    assert_eq!(count_pages(&steps[0]), 3);
}

#[test]
fn partial_frame_is_padded_and_encoded() {
    let steps = encode_all(vec![vec![1u8; 400]], 1);
    assert_eq!(steps.len(), 1);
    assert_eq!(count_pages(&steps[0]), 3);
    let none = encode_all(vec![], 1);
    assert_eq!(none.len(), 1);
    assert_eq!(count_pages(&none[0]), 2);
}

#[test]
fn header_packets() {
    let head = opus_head_packet();
    assert_eq!(&head[..8], b"OpusHead");
    assert_eq!(head.len(), 19);
    assert_eq!(u32::from_le_bytes([head[12], head[13], head[14], head[15]]), 16000);
    let tags = opus_tags_packet();
    assert_eq!(&tags[..8], b"OpusTags");
    assert_eq!(&tags[12..21], b"dictation");
    assert_eq!(tags.len(), 25);
}

#[test]
fn item_count_does_not_depend_on_chunking() {
    let whole = encode_all(vec![vec![0u8; 4 * 1000]], 3);
    let split = encode_all(vec![vec![0u8; 4 * 1], vec![0u8; 4 * 333], vec![], vec![0u8; 4 * 666]], 3);
    assert_eq!(whole.len(), 4);
    assert_eq!(whole, split);
}

#[test]
fn codec_error_ends_the_stream() {
    let codec = |_frame: &[u8]| -> Result<Vec<u8>, String> { Err("Opus encoding error: bad".to_string()) };
    let items = OpusOggEncoder::with_serial(5).encode_stream(&vec![vec![0u8; 4 * 700]], codec);
    assert_eq!(items.len(), 1);
    assert_eq!(items[0].as_ref().err().unwrap(), "Opus encoding error: bad");
}
