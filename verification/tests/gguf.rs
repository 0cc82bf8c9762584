use whisburn_engine::gguf::{
    align_up, blob_units, get_scale_min_k4, gguf_shorten, q4_0_block, q4_k_block, q6_k_block,
    q8_0_block, GgmlType, GgufError, GgufFile,
};

fn put_u32(out: &mut Vec<u8>, v: u32) {
    out.extend_from_slice(&v.to_le_bytes());
}

fn put_u64(out: &mut Vec<u8>, v: u64) {
    out.extend_from_slice(&v.to_le_bytes());
}

fn put_str(out: &mut Vec<u8>, s: &str) {
    put_u64(out, s.len() as u64);
    out.extend_from_slice(s.as_bytes());
}

/// A small GGUF file: two metadata entries (an array to skip and the alignment) and two
/// tensors, followed by `data_len` bytes of tensor data.
fn sample_file(alignment: u32, data_len: usize) -> Vec<u8> {
    let mut b = b"GGUF".to_vec();
    put_u32(&mut b, 3);
    put_u64(&mut b, 2); // tensors
    put_u64(&mut b, 2); // metadata entries
    put_str(&mut b, "general.tags");
    put_u32(&mut b, 9); // array
    put_u32(&mut b, 8); // of strings
    put_u64(&mut b, 2);
    put_str(&mut b, "asr");
    put_str(&mut b, "speech");
    put_str(&mut b, "general.alignment");
    put_u32(&mut b, 4);
    put_u32(&mut b, alignment);
    // tensor 0: f32 [3, 2] (stored innermost first: 2, 3) at 0
    put_str(&mut b, "lm.tok_emb.weight");
    put_u32(&mut b, 2);
    put_u64(&mut b, 2);
    put_u64(&mut b, 3);
    put_u32(&mut b, 0);
    put_u64(&mut b, 0);
    // tensor 1: q8_0 [64] at 24
    put_str(&mut b, "lm.layers.0.attn.q_proj.weight");
    put_u32(&mut b, 1);
    put_u64(&mut b, 64);
    put_u32(&mut b, 8);
    put_u64(&mut b, 24);
    let header = b.len();
    let base = (header + alignment as usize - 1) / alignment as usize * alignment as usize;
    b.resize(base, 0);
    b.extend(std::iter::repeat(7u8).take(data_len));
    b
}

#[test]
fn k4_scale_unpack_low_j() {
    let q = [10u8, 11, 12, 13, 20, 21, 22, 23, 0, 0, 0, 0];
    let (d, m) = get_scale_min_k4(0, &q);
    assert_eq!(d, 10);
    assert_eq!(m, 20);
}

#[test]
fn k4_scale_unpack_high_j() {
    let q = [0xC0u8, 0x40, 0, 0, 0x80, 0, 0, 0, 0x25, 0, 0, 0];
    // j = 4: low nibble of q[8] | top bits of q[0] << 4; high nibble of q[8] | top bits of q[4] << 4
    assert_eq!(get_scale_min_k4(4, &q), (0x05 | (3 << 4), 0x02 | (2 << 4)));
}

#[test]
fn gguf_shorten_matches_crispasr() {
    assert_eq!(
        gguf_shorten("model.language_model.layers.0.self_attn.q_proj.weight"),
        "lm.layers.0.attn.q_proj.weight"
    );
    assert_eq!(gguf_shorten("language_model.embed_tokens.weight"), "lm.tok_emb.weight");
    assert_eq!(gguf_shorten("model.acoustic_connector.fc1.weight"), "at_conn.fc1.weight");
    assert_eq!(
        gguf_shorten("acoustic_tokenizer.encoder.downsample_layers.0.0.conv.conv.weight"),
        "at_enc.ds.0.0.conv.weight"
    );
}

#[test]
fn parses_directory_and_finds_tensors() {
    let bytes = sample_file(64, 24 + 68);
    let len = bytes.len();
    let f = GgufFile::from_bytes(bytes).expect("valid GGUF");
    assert!(f.has_name("lm.tok_emb.weight"));
    assert!(f.has_name("lm.layers.0.attn.q_proj.weight"));
    assert!(!f.has_name("lm_head.weight"));
    let span = f.tensor_span("lm.tok_emb.weight").unwrap();
    assert_eq!(span.dtype, GgmlType::F32);
    assert_eq!(span.shape, vec![3, 2]);
    assert_eq!(span.n, 6);
    assert_eq!(span.end - span.start, 24);
    assert_eq!(span.start % 64, 0);
    let q = f.tensor_span("lm.layers.0.attn.q_proj.weight").unwrap();
    assert_eq!(q.dtype, GgmlType::Q8_0);
    assert_eq!(q.start, span.start + 24);
    assert_eq!(q.end, q.start + 68);
    assert_eq!(q.end, len);
    assert_eq!(f.tensor_span("missing").err(), Some(GgufError::TensorNotFound));
}

#[test]
fn tensor_past_the_end_is_out_of_range() {
    let f = GgufFile::from_bytes(sample_file(32, 24 + 10)).unwrap();
    assert_eq!(f.tensor_span("lm.layers.0.attn.q_proj.weight").err(), Some(GgufError::TensorOutOfRange));
}

#[test]
fn rejects_bad_headers() {
    assert_eq!(GgufFile::from_bytes(b"GGUF".to_vec()).err(), Some(GgufError::NotGguf));
    let mut b = sample_file(32, 0);
    b[0] = b'X';
    assert_eq!(GgufFile::from_bytes(b).err(), Some(GgufError::NotGguf));
    let mut b = sample_file(32, 0);
    b[4] = 1;
    assert_eq!(GgufFile::from_bytes(b).err(), Some(GgufError::UnsupportedVersion(1)));
    let b = sample_file(32, 0);
    // cut inside the length of the first key
    let cut = b[..28].to_vec();
    assert_eq!(GgufFile::from_bytes(cut).err(), Some(GgufError::Truncated));
    // cut inside the characters of the first key
    let cut = b[..40].to_vec();
    assert_eq!(GgufFile::from_bytes(cut).err(), Some(GgufError::TruncatedString));
}

#[test]
fn unknown_value_type_and_element_type_are_errors() {
    let mut b = b"GGUF".to_vec();
    put_u32(&mut b, 2);
    put_u64(&mut b, 0);
    put_u64(&mut b, 1);
    put_str(&mut b, "k");
    put_u32(&mut b, 13);
    assert_eq!(GgufFile::from_bytes(b).err(), Some(GgufError::UnknownValueType(13)));
    let mut b = b"GGUF".to_vec();
    put_u32(&mut b, 2);
    put_u64(&mut b, 1);
    put_u64(&mut b, 0);
    put_str(&mut b, "t");
    put_u32(&mut b, 1);
    put_u64(&mut b, 4);
    put_u32(&mut b, 3);
    put_u64(&mut b, 0);
    assert_eq!(GgufFile::from_bytes(b).err(), Some(GgufError::UnsupportedGgmlType(3)));
    assert_eq!(GgmlType::from_u32(12), Ok(GgmlType::Q4K));
    assert_eq!(GgmlType::from_u32(30), Ok(GgmlType::Bf16));
}

#[test]
fn truncated_string_is_reported() {
    let mut b = b"GGUF".to_vec();
    put_u32(&mut b, 3);
    put_u64(&mut b, 0);
    put_u64(&mut b, 1);
    put_u64(&mut b, 100);
    b.extend_from_slice(b"short");
    assert_eq!(GgufFile::from_bytes(b).err(), Some(GgufError::TruncatedString));
}

#[test]
fn alignment_rounds_up() {
    assert_eq!(align_up(0, 32), 0);
    assert_eq!(align_up(1, 32), 32);
    assert_eq!(align_up(64, 32), 64);
    assert_eq!(align_up(65, 0), 65);
    assert_eq!(align_up(100, 48), 144);
}

#[test]
fn blob_sizes() {
    assert_eq!(blob_units(GgmlType::F32, 24, 6), Ok(6));
    assert_eq!(blob_units(GgmlType::F32, 23, 6), Err(GgufError::BlobShort(GgmlType::F32)));
    assert_eq!(blob_units(GgmlType::F16, 12, 6), Ok(6));
    assert_eq!(blob_units(GgmlType::Q8_0, 68, 64), Ok(2));
    assert_eq!(blob_units(GgmlType::Q8_0, 67, 64), Err(GgufError::BlobShort(GgmlType::Q8_0)));
    assert_eq!(blob_units(GgmlType::Q4K, 144, 300), Ok(1));
    assert_eq!(blob_units(GgmlType::Q6K, 209, 256), Err(GgufError::BlobShort(GgmlType::Q6K)));
}

#[test]
fn decodes_quant_blocks() {
    let mut raw = vec![0u8; 34];
    raw[0] = 0x00;
    raw[1] = 0x3C; // f16 1.0
    raw[2] = 0xFF; // -1
    raw[3] = 5;
    let b = q8_0_block(&raw, 0);
    assert_eq!(b.d_bits, 0x3C00);
    assert_eq!(b.quants[0], -1);
    assert_eq!(b.quants[1], 5);

    let mut raw = vec![0u8; 18];
    raw[2] = 0xA3; // low 3, high 10
    let b = q4_0_block(&raw, 0);
    assert_eq!(b.quants[0], 3 - 8);
    assert_eq!(b.quants[16], 10 - 8);

    let mut raw = vec![0u8; 144];
    raw[4] = 7; // scale of sub-block 0
    raw[8] = 9; // min of sub-block 0
    raw[16] = 0x5A;
    let b = q4_k_block(&raw, 0);
    assert_eq!((b.scales[0], b.mins[0]), (7, 9));
    assert_eq!(b.q[0], 0xA);
    assert_eq!(b.q[32], 0x5);

    let mut raw = vec![0u8; 210];
    raw[0] = 0x21; // ql[0]
    raw[128] = 0b1110_0100; // qh[0]
    raw[192] = 0xFE; // scale -2
    let b = q6_k_block(&raw, 0);
    assert_eq!(b.scales[0], -2);
    assert_eq!(b.quants[0], (0x1 | (0 << 4)) - 32);
    assert_eq!(b.quants[64], (0x2 | (2 << 4)) - 32);
    assert_eq!(b.quants[96], (0x0 | (3 << 4)) - 32);
    assert_eq!(b.quants[32], (0x0 | (1 << 4)) - 32);
}

#[test]
fn invalid_utf8_in_names_is_replaced() {
    let mut b = b"GGUF".to_vec();
    put_u32(&mut b, 3);
    put_u64(&mut b, 1); // one tensor
    put_u64(&mut b, 0); // no metadata
    put_u64(&mut b, 2);
    b.extend_from_slice(&[b'a', 0xFF]);
    put_u32(&mut b, 1);
    put_u64(&mut b, 4);
    put_u32(&mut b, 0); // f32
    put_u64(&mut b, 0);
    while b.len() % 32 != 0 {
        b.push(0);
    }
    b.extend_from_slice(&[0u8; 16]);
    let f = GgufFile::from_bytes(b).unwrap();
    assert!(f.has_name("a\u{FFFD}"));
    assert!(!f.has_name("a"));
    let span = f.tensor_span("a\u{FFFD}").unwrap();
    assert_eq!(span.n, 4);
    assert_eq!(span.end - span.start, 16);
    assert_eq!(f.raw().len(), span.end);
}
