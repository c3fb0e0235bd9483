use fractal_codec::codec::{decode, encode, FicHeader, FormatError};
use fractal_codec::encode::{pack_meta, EncodedBlock};

fn sample_blocks(n: u32) -> Vec<EncodedBlock> {
    (0..n)
        .map(|i| EncodedBlock {
            meta: pack_meta((i % 7) as usize, (i % 8) as u8),
            unused: 0,
            alpha_bits: (0.25f32 * i as f32).to_bits(),
            beta_bits: (-1.5f32 + i as f32).to_bits(),
        })
        .collect()
}

#[test]
fn codec_round_trip_is_bit_exact() {
    let header = FicHeader { width: 96, height: 64, block_size: 8, domain_stride: 4 };
    let blocks = sample_blocks(5);
    let bytes = encode(&header, &blocks);
    assert_eq!(bytes.len(), 10 + 16 * 5);
    let img = decode(&bytes).expect("round trip must decode");
    assert_eq!(img.header, header);
    assert_eq!(img.blocks.len(), blocks.len());
    for (got, want) in img.blocks.iter().zip(blocks.iter()) {
        assert_eq!(got.meta, want.meta);
        assert_eq!(got.unused, want.unused);
        assert_eq!(got.alpha_bits, want.alpha_bits);
        assert_eq!(got.beta_bits, want.beta_bits);
    }
}

#[test]
fn codec_layout_is_little_endian_and_fixed() {
    let header = FicHeader { width: 0x0102, height: 0x0304, block_size: 4, domain_stride: 2 };
    let block = EncodedBlock {
        meta: 0x00030005,
        unused: 0,
        alpha_bits: 0xAABBCCDD,
        beta_bits: 0x11223344,
    };
    let bytes = encode(&header, &vec![block]);
    assert_eq!(bytes.len(), 26);
    assert_eq!(&bytes[0..2], &[0x02, 0x01]); // width
    assert_eq!(&bytes[2..4], &[0x04, 0x03]); // height
    assert_eq!(bytes[4], 4); // block size
    assert_eq!(bytes[5], 2); // domain stride
    assert_eq!(&bytes[6..10], &[1, 0, 0, 0]); // block count
    assert_eq!(&bytes[10..14], &[0x05, 0x00, 0x03, 0x00]); // meta
    assert_eq!(&bytes[14..18], &[0, 0, 0, 0]); // reserved
    assert_eq!(&bytes[18..22], &[0xDD, 0xCC, 0xBB, 0xAA]); // alpha bits
    assert_eq!(&bytes[22..26], &[0x44, 0x33, 0x22, 0x11]); // beta bits
}

#[test]
fn codec_empty_mapping_set_round_trips() {
    let header = FicHeader { width: 8, height: 8, block_size: 4, domain_stride: 4 };
    let bytes = encode(&header, &Vec::new());
    assert_eq!(bytes.len(), 10);
    let img = decode(&bytes).expect("header-only stream decodes");
    assert_eq!(img.header, header);
    assert!(img.blocks.is_empty());
}

#[test]
fn codec_too_short_is_fatal() {
    assert_eq!(decode(&Vec::new()).err(), Some(FormatError::TooShort));
    assert_eq!(decode(&vec![0u8; 9]).err(), Some(FormatError::TooShort));
}

#[test]
fn codec_length_mismatch_is_fatal() {
    let header = FicHeader { width: 8, height: 8, block_size: 4, domain_stride: 4 };
    let mut bytes = encode(&header, &sample_blocks(2));
    // one byte too many
    bytes.push(0);
    assert_eq!(decode(&bytes).err(), Some(FormatError::SizeMismatch));
    // one whole record missing
    let short = encode(&header, &sample_blocks(2));
    assert_eq!(decode(&short[..short.len() - 16].to_vec()).err(), Some(FormatError::SizeMismatch));
}

#[test]
fn codec_declared_count_must_match() {
    let header = FicHeader { width: 8, height: 8, block_size: 4, domain_stride: 4 };
    let mut bytes = encode(&header, &sample_blocks(2));
    bytes[6] = 3; // claim three records while carrying two
    assert_eq!(decode(&bytes).err(), Some(FormatError::SizeMismatch));
}

#[test]
fn codec_out_of_range_transform_id_is_fatal() {
    let header = FicHeader { width: 8, height: 8, block_size: 4, domain_stride: 4 };
    let mut blocks = sample_blocks(2);
    blocks[1].meta = 8 << 16; // transform id 8: outside the eight symmetries
    let bytes = encode(&header, &blocks);
    assert_eq!(decode(&bytes).err(), Some(FormatError::InvalidTransformId));
}

#[test]
fn codec_meta_accessors_preserve_bit_ranges() {
    let meta = pack_meta(0xABC, 6);
    let block = EncodedBlock { meta, unused: 0, alpha_bits: 0, beta_bits: 0 };
    assert_eq!(block.domain_index(), 0xABC);
    assert_eq!(block.transform_id(), 6);
    assert_eq!(meta >> 24, 0);
    assert_eq!(meta, (6 << 16) | 0xABC);
}
