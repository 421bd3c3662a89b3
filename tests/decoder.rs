use qoi_viewer::{hash, parse_header, Channels, ColorSpace, HeaderError, Pixel, QoiDecoder, QoiHeader};

const FOOTER: [u8; 8] = [0, 0, 0, 0, 0, 0, 0, 1];

fn header(width: u32, height: u32, channels: u8, colorspace: u8) -> Vec<u8> {
    let mut v = b"qoif".to_vec();
    v.extend_from_slice(&width.to_be_bytes());
    v.extend_from_slice(&height.to_be_bytes());
    v.push(channels);
    v.push(colorspace);
    v
}

fn stream(width: u32, height: u32, chunks: &[u8]) -> Vec<u8> {
    let mut v = header(width, height, 4, 0);
    v.extend_from_slice(chunks);
    v.extend_from_slice(&FOOTER);
    v
}

fn decode_all(data: &[u8]) -> Vec<Pixel> {
    let (_, mut dec) = QoiDecoder::start(data).expect("valid header");
    let mut out = Vec::new();
    while let Some(p) = dec.next() {
        out.push(p);
    }
    out
}

fn px(r: u8, g: u8, b: u8, a: u8) -> Pixel {
    Pixel::new(r, g, b, a)
}

#[test]
fn single_opaque_pixel() {
    let mut data = header(1, 1, 3, 0);
    data.extend_from_slice(&[0xFE, 0xFF, 0x00, 0x00]);
    data.extend_from_slice(&FOOTER);
    assert_eq!(decode_all(&data), vec![px(255, 0, 0, 255)]);
}

#[test]
fn two_identical_pixels() {
    let mut data = header(1, 2, 3, 0);
    data.extend_from_slice(&[0xFE, 0xFF, 0x00, 0x00, 0xC0]);
    data.extend_from_slice(&FOOTER);
    assert_eq!(decode_all(&data), vec![px(255, 0, 0, 255), px(255, 0, 0, 255)]);
}

#[test]
fn index_reuse() {
    let p = px(10, 20, 30, 255);
    assert_eq!(hash(&p), 9);
    let data = stream(2, 1, &[0xFE, 10, 20, 30, 0x09]);
    assert_eq!(decode_all(&data), vec![p, p]);
}

#[test]
fn diff_wrap() {
    let data = stream(1, 1, &[0x55]);
    assert_eq!(decode_all(&data), vec![px(255, 255, 255, 255)]);
}

#[test]
fn luma_zero_deltas() {
    let data = stream(2, 1, &[0xFE, 100, 100, 100, 0xA0, 0x88]);
    assert_eq!(decode_all(&data), vec![px(100, 100, 100, 255), px(100, 100, 100, 255)]);
}

#[test]
fn luma_wraps_at_channel_boundary() {
    // previous red 0xFE, green delta 0, red-minus-green delta +3 -> 0x01
    let data = stream(2, 1, &[0xFE, 0xFE, 0, 0, 0xA0, 0xB8]);
    assert_eq!(decode_all(&data), vec![px(0xFE, 0, 0, 255), px(0x01, 0, 0, 255)]);
}

#[test]
fn diff_wraps_upward() {
    // previous (255, 0, 1); deltas +1, -2, -1
    let data = stream(2, 1, &[0xFE, 255, 0, 1, 0x40 | (3 << 4) | (0 << 2) | 1]);
    assert_eq!(decode_all(&data), vec![px(255, 0, 1, 255), px(0, 254, 0, 255)]);
}

#[test]
fn luma_negative_deltas() {
    // dg = -32, dr_dg = -8, db_dg = +7 from previous (0, 0, 0, 255)
    let data = stream(1, 1, &[0x80, 0x0F]);
    assert_eq!(decode_all(&data), vec![px(216, 224, 231, 255)]);
}

#[test]
fn rgba_chunk_sets_alpha_and_rgb_keeps_it() {
    let data = stream(2, 1, &[0xFF, 1, 2, 3, 4, 0xFE, 5, 6, 7]);
    assert_eq!(decode_all(&data), vec![px(1, 2, 3, 4), px(5, 6, 7, 4)]);
}

#[test]
fn header_round_trip() {
    let data = stream(135, 240, &[]);
    let (h, _) = QoiDecoder::start(&data).unwrap();
    assert_eq!(
        h,
        QoiHeader { width: 135, height: 240, channels: Channels::Rgba, colorspace: ColorSpace::SrgbLinearAlpha }
    );
    let data = header(0x0102_0304, 0xA0B0_C0D0, 3, 1);
    assert_eq!(
        parse_header(&data),
        Ok(QoiHeader {
            width: 0x0102_0304,
            height: 0xA0B0_C0D0,
            channels: Channels::Rgb,
            colorspace: ColorSpace::AllLinear
        })
    );
}

#[test]
fn header_errors() {
    let good = header(1, 1, 3, 0);
    assert_eq!(parse_header(&good[..13]), Err(HeaderError::Truncated));
    assert_eq!(parse_header(&[]), Err(HeaderError::Truncated));
    let mut bad = good.clone();
    bad[0] = b'Q';
    assert_eq!(parse_header(&bad), Err(HeaderError::BadMagic));
    assert_eq!(parse_header(&header(1, 1, 5, 0)), Err(HeaderError::BadChannels));
    assert_eq!(parse_header(&header(1, 1, 4, 2)), Err(HeaderError::BadColorSpace));
    assert_eq!(parse_header(&header(0, 1, 4, 0)), Err(HeaderError::ZeroSize));
    assert_eq!(parse_header(&header(1, 0, 4, 0)), Err(HeaderError::ZeroSize));
    assert!(QoiDecoder::start(&header(0, 0, 4, 0)).is_err());
}

#[test]
fn pixel_count_is_declared_size() {
    // the run covers more than the declared 3 pixels; only 3 are emitted
    let data = stream(3, 1, &[0xFE, 1, 2, 3, 0xC5, 0xFE, 9, 9, 9]);
    assert_eq!(decode_all(&data).len(), 3);
    // the end marker is never read as chunks
    let data = stream(2, 2, &[0xFE, 1, 1, 1, 0xC2]);
    assert_eq!(decode_all(&data), vec![px(1, 1, 1, 255); 4]);
}

#[test]
fn truncated_stream_ends_short() {
    let mut data = header(4, 1, 4, 0);
    data.extend_from_slice(&[0xFE, 1, 2, 3, 0xFF, 4, 5]);
    assert_eq!(decode_all(&data), vec![px(1, 2, 3, 255)]);
    let (_, mut dec) = QoiDecoder::start(&data).unwrap();
    dec.next();
    assert_eq!(dec.next(), None);
    assert_eq!(dec.next(), None);
}

#[test]
fn cache_holds_every_emitted_pixel() {
    // a pixel made by DIFF is found again at its hash slot
    let p = px(1, 0, 255, 255);
    let slot = hash(&p) as u8;
    let data = stream(3, 1, &[0x40 | (3 << 4) | (2 << 2) | 1, 0xFE, 7, 7, 7, slot]);
    assert_eq!(decode_all(&data), vec![p, px(7, 7, 7, 255), p]);
}

#[test]
fn index_chunk_updates_previous() {
    let a = px(10, 20, 30, 255);
    let data = stream(4, 1, &[0xFE, 10, 20, 30, 0xFE, 1, 1, 1, hash(&a) as u8, 0xC0]);
    assert_eq!(decode_all(&data), vec![a, px(1, 1, 1, 255), a, a]);
}

#[test]
fn initial_cache_is_all_zero() {
    let data = stream(2, 1, &[0x05, 0x3F]);
    assert_eq!(decode_all(&data), vec![px(0, 0, 0, 0), px(0, 0, 0, 0)]);
}

#[test]
fn run_expansion_longest() {
    let data = stream(63, 1, &[0xFE, 4, 5, 6, 0xFD]);
    let out = decode_all(&data);
    assert_eq!(out.len(), 63);
    assert!(out.iter().all(|p| *p == px(4, 5, 6, 255)));
}

#[test]
fn run_at_start_repeats_initial_previous() {
    let data = stream(3, 1, &[0xC1, 0x00]);
    // the run stores (0,0,0,255) at its hash slot, not at slot 0
    assert_eq!(decode_all(&data), vec![px(0, 0, 0, 255), px(0, 0, 0, 255), px(0, 0, 0, 0)]);
    assert_eq!(hash(&px(0, 0, 0, 255)), 53);
    let data = stream(2, 1, &[0xC0, 53]);
    assert_eq!(decode_all(&data), vec![px(0, 0, 0, 255); 2]);
}

#[test]
fn run_then_next_chunk() {
    let data = stream(4, 1, &[0xFE, 1, 2, 3, 0xC1, 0xFE, 4, 5, 6]);
    assert_eq!(
        decode_all(&data),
        vec![px(1, 2, 3, 255), px(1, 2, 3, 255), px(1, 2, 3, 255), px(4, 5, 6, 255)]
    );
}

#[test]
fn hash_formula() {
    assert_eq!(hash(&px(0, 0, 0, 0)), 0);
    assert_eq!(hash(&px(255, 255, 255, 255)), (255 * 26) % 64);
    assert_eq!(hash(&px(1, 1, 1, 1)), 26);
}

fn reference_pixels(data: &[u8]) -> Vec<Pixel> {
    let (_, dec) = arqoii::decode::QoiDecoder::new(data.iter().copied()).expect("valid header");
    dec.map(|p| Pixel::new(p.r, p.g, p.b, p.a)).collect()
}

#[test]
fn agrees_with_reference_decoder() {
    let red = px(200, 10, 10, 255);
    let chunks = [
        0xFE, 200, 10, 10, // rgb
        0xC2, // run of 3
        0x40 | (3 << 4) | (1 << 2) | 2, // diff +1 -1 0
        0xA5, 0x7C, // luma
        0xFF, 3, 4, 5, 6, // rgba
        hash(&red) as u8, // index back to red
        0x6A, // diff
        0xFE, 0, 0, 0, // rgb
        0x55, // diff wrap to 255
        0x80, 0xFF, // luma with extreme deltas
    ];
    let data = stream(12, 1, &chunks);
    let ours = decode_all(&data);
    assert_eq!(ours.len(), 12);
    assert_eq!(ours, reference_pixels(&data));
}

#[test]
fn agrees_with_reference_on_runs_and_diffs() {
    let mut chunks = vec![0xFE, 128, 128, 128];
    let mut n = 1;
    for k in 0..20u8 {
        chunks.push(0x40 | (k % 64));
        chunks.push(0xC0 | (k % 62));
        n += 1 + (k % 62) as u32 + 1;
    }
    let data = stream(n, 1, &chunks);
    let ours = decode_all(&data);
    assert_eq!(ours.len() as u32, n);
    assert_eq!(ours, reference_pixels(&data));
}
