use ella::codec::{compress, decompress};
use ella::coder::{decode_symbols, encode_symbols};
use ella::format::{parse_header, write_header, FormatError, Header, HEADER_LEN};
use ella::models::{get_model, Average, Left, Model, ModelKind, PixelGrid};

fn grid(width: u32, height: u32, data: Vec<u8>) -> PixelGrid {
    assert_eq!(data.len(), 3 * (width * height) as usize);
    PixelGrid { width, height, data }
}

fn patterned(width: u32, height: u32, seed: u32) -> PixelGrid {
    let mut data = Vec::new();
    let mut v: u32 = seed;
    for _ in 0..3 * width * height {
        v = v.wrapping_mul(1103515245).wrapping_add(12345);
        data.push((v >> 16) as u8);
    }
    grid(width, height, data)
}

fn scenario_grid() -> PixelGrid {
    grid(2, 2, vec![1, 2, 3, 4, 5, 6, 7, 8, 9, 10, 11, 12])
}

#[test]
fn left_scenario_residuals() {
    let img = scenario_grid();
    let res = Left {}.encode(&img);
    assert_eq!(res, vec![1, 2, 3, 3, 3, 3, 3, 3, 3, 3, 3, 3]);
    let back = Left {}.decode(2, 2, res);
    assert_eq!(back, img);
}

#[test]
fn left_scenario_full_round_trip() {
    let img = scenario_grid();
    let bytes = compress(&img, 0).unwrap();
    assert_eq!(decompress(&bytes).unwrap(), img);
}

#[test]
fn left_first_pixel_predicts_black() {
    let img = grid(1, 1, vec![200, 7, 0]);
    assert_eq!(Left {}.encode(&img), vec![200, 7, 0]);
    assert_eq!(Average {}.encode(&img), vec![200, 7, 0]);
}

#[test]
fn left_does_not_reset_per_row() {
    let img = grid(1, 2, vec![10, 20, 30, 15, 15, 15]);
    assert_eq!(Left {}.encode(&img), vec![10, 20, 30, 5, 251, 241]);
}

#[test]
fn average_predicts_truncated_mean() {
    // up-left 5, up 20, left 10, the pixel itself 50: prediction (10+20+5)/3 = 11.
    let img = grid(2, 2, vec![5, 5, 5, 20, 20, 20, 10, 10, 10, 50, 11, 0]);
    let res = Average {}.encode(&img);
    assert_eq!(&res[9..12], &[39, 0, 245]);
    assert_eq!(Average {}.decode(2, 2, res), img);
}

#[test]
fn average_borders() {
    // First row predicts from the left, first column from above.
    let img = grid(2, 2, vec![1, 2, 3, 4, 4, 4, 9, 9, 9, 0, 0, 0]);
    let res = Average {}.encode(&img);
    assert_eq!(&res[0..9], &[1, 2, 3, 3, 2, 1, 8, 7, 6]);
    // interior: (9 + 4 + 1) / 3 = 4, (9 + 4 + 2) / 3 = 5, (9 + 4 + 3) / 3 = 5
    assert_eq!(&res[9..12], &[252, 251, 251]);
}

#[test]
fn average_full_sum_does_not_overflow() {
    let img = grid(2, 2, vec![255; 12]);
    let res = Average {}.encode(&img);
    assert_eq!(res, vec![255, 255, 255, 0, 0, 0, 0, 0, 0, 0, 0, 0]);
    assert_eq!(Average {}.decode(2, 2, res), img);
}

#[test]
fn residual_round_trip_both_predictors() {
    for kind in [ModelKind::Left, ModelKind::Average] {
        for (w, h) in [(0, 0), (1, 1), (3, 0), (1, 7), (7, 1), (5, 4), (33, 17)] {
            let img = patterned(w, h, w * 31 + h);
            let res = kind.encode(&img);
            assert_eq!(res.len(), img.data.len());
            assert_eq!(kind.decode(w, h, res), img);
        }
    }
}

#[test]
fn full_round_trip_sizes() {
    for id in [0u16, 1u16] {
        for (w, h) in [(0, 0), (1, 1), (2, 3), (16, 9), (64, 48)] {
            let img = patterned(w, h, 7 + w + h);
            let bytes = compress(&img, id).unwrap();
            assert_eq!(decompress(&bytes).unwrap(), img);
        }
    }
}

#[test]
fn encoding_is_deterministic() {
    let img = patterned(20, 10, 3);
    for id in [0u16, 1u16] {
        assert_eq!(compress(&img, id).unwrap(), compress(&img, id).unwrap());
    }
}

#[test]
fn long_repetitive_stream_round_trips() {
    let img = grid(300, 200, [9u8, 9, 9].repeat(300 * 200));
    for id in [0u16, 1u16] {
        let bytes = compress(&img, id).unwrap();
        assert!(bytes.len() < 2000);
        assert_eq!(decompress(&bytes).unwrap(), img);
    }
    let data: Vec<u8> = (0..200_000u32).map(|i| (i % 3) as u8).collect();
    let coded = encode_symbols(&data).unwrap();
    assert_eq!(decode_symbols(&coded, data.len()).unwrap(), data);
}

#[test]
fn symbol_stream_round_trip() {
    let data: Vec<u8> = (0..=255u8).chain((0..=255u8).rev()).collect();
    let coded = encode_symbols(&data).unwrap();
    assert_eq!(decode_symbols(&coded, data.len()).unwrap(), data);
    let empty = encode_symbols(&Vec::new()).unwrap();
    assert!(!empty.is_empty());
    assert_eq!(decode_symbols(&empty, 0).unwrap(), Vec::<u8>::new());
}

#[test]
fn decoder_reads_past_the_padded_end() {
    // The decoder primes 48 bits, more than a one-symbol stream holds.
    let short = encode_symbols(&vec![0u8]).unwrap();
    assert!(short.len() < 6);
    assert_eq!(decode_symbols(&short, 1).unwrap(), vec![0u8]);
    for data in [vec![0u8], vec![255u8; 5], vec![1, 2, 3, 4, 5, 6, 7]] {
        let coded = encode_symbols(&data).unwrap();
        // Bits past the end read as the zero padding would.
        assert_eq!(decode_symbols(&coded, data.len()).unwrap(), data);
        let mut padded = coded.clone();
        padded.extend_from_slice(&[0, 0, 0, 0, 0, 0, 0, 0]);
        assert_eq!(decode_symbols(&padded, data.len()).unwrap(), data);
    }
}

#[test]
fn symbol_count_mismatch() {
    let data = vec![4u8, 4, 4, 4];
    let coded = encode_symbols(&data).unwrap();
    assert_eq!(decode_symbols(&coded, 5), Err(FormatError::LengthMismatch));
    assert_eq!(decode_symbols(&coded, 3), Err(FormatError::LengthMismatch));
}

#[test]
fn header_bytes_exact() {
    let h = Header { version: 1, height: 0x0102_0304, width: 7, channels: 3, predictor: ModelKind::Average };
    let b = write_header(&h);
    assert_eq!(
        b,
        vec![b'E', b'L', b'L', b'A', 0, 0, 0, 1, 1, 2, 3, 4, 0, 0, 0, 7, 3, 0, 1]
    );
    assert_eq!(b.len(), HEADER_LEN);
    assert_eq!(parse_header(&b), Ok(h));
}

#[test]
fn compressed_header_fields() {
    let img = patterned(3, 2, 1);
    let bytes = compress(&img, 1).unwrap();
    assert_eq!(&bytes[0..HEADER_LEN], &[b'E', b'L', b'L', b'A', 0, 0, 0, 1, 0, 0, 0, 2, 0, 0, 0, 3, 3, 0, 1]);
}

#[test]
fn header_errors() {
    let img = patterned(2, 2, 5);
    let good = compress(&img, 0).unwrap();
    assert_eq!(decompress(&good[0..10]), Err(FormatError::Truncated));
    let mut bad = good.clone();
    bad[0] = b'X';
    assert_eq!(decompress(&bad), Err(FormatError::BadMagic));
    let mut bad = good.clone();
    bad[7] = 2;
    assert_eq!(decompress(&bad), Err(FormatError::UnsupportedVersion));
    let mut bad = good.clone();
    bad[18] = 2;
    assert_eq!(decompress(&bad), Err(FormatError::UnknownPredictor));
    let mut bad = good.clone();
    bad[15] = 3;
    assert_eq!(decompress(&bad), Err(FormatError::LengthMismatch));
    let mut bad = good.clone();
    bad[11] = 0xFF;
    bad[8] = 0xFF;
    bad[12] = 0xFF;
    assert_eq!(decompress(&bad), Err(FormatError::TooLarge));
}

#[test]
fn older_version_is_read() {
    let img = patterned(2, 2, 5);
    let mut bytes = compress(&img, 1).unwrap();
    bytes[7] = 0;
    assert_eq!(decompress(&bytes).unwrap(), img);
}

#[test]
fn unknown_predictor_on_compress() {
    let img = patterned(2, 2, 5);
    assert_eq!(compress(&img, 2), Err(FormatError::UnknownPredictor));
    assert_eq!(get_model(0), Some(ModelKind::Left));
    assert_eq!(get_model(1), Some(ModelKind::Average));
    assert_eq!(get_model(9), None);
}

#[test]
fn empty_stream_is_a_stream_error() {
    let h = Header { version: 1, height: 1, width: 1, channels: 3, predictor: ModelKind::Left };
    let bytes = write_header(&h);
    assert_eq!(decompress(&bytes), Err(FormatError::Stream));
}

#[test]
fn coded_part_depends_only_on_residuals() {
    // On a single row the Left and Average predictions coincide.
    let img = grid(4, 1, vec![3, 1, 4, 1, 5, 9, 2, 6, 5, 3, 5, 8]);
    assert_eq!(Left {}.encode(&img), Average {}.encode(&img));
    let left = compress(&img, 0).unwrap();
    let average = compress(&img, 1).unwrap();
    assert_ne!(left[18], average[18]);
    assert_eq!(&left[HEADER_LEN..], &average[HEADER_LEN..]);
    assert_eq!(&left[HEADER_LEN..], &encode_symbols(&Left {}.encode(&img)).unwrap()[..]);
}
