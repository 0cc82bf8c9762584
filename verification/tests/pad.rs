use whisburn_engine::pad::{conv_out_len, extra_padding_for_conv1d, padding_total};

#[test]
fn jfk_vae_tokens_match_ceil_compress() {
    // 11s @ 24 kHz after the same resample the CLI uses on samples/jfk.wav.
    let mut len = 264_064;
    len = conv_out_len(len, 7, 1); // stem
    for ratio in [2, 2, 4, 5, 5, 8] {
        len = conv_out_len(len, ratio * 2, ratio);
    }
    len = conv_out_len(len, 7, 1); // head
    let expected = (264_064 + 3200 - 1) / 3200;
    assert_eq!(len, expected, "encoder frames {len} vs ceil(samples/3200)={expected}");
}

#[test]
fn padding_total_of_causal_conv() {
    assert_eq!(padding_total(7, 1, 1), 6);
    assert_eq!(padding_total(4, 2, 1), 2);
    assert_eq!(padding_total(3, 1, 2), 4);
    assert_eq!(padding_total(16, 8, 1), 8);
}

#[test]
fn extra_padding_completes_last_window() {
    // n_frames = (10 - 4 + 2) / 2 + 1 = 5, ideal = 4 * 2 + (4 - 2) = 10, no extra.
    assert_eq!(extra_padding_for_conv1d(10, 4, 2, 2), 0);
    // 11 samples: n_frames = 5.5 -> 6, ideal = 5 * 2 + 2 = 12, one extra sample.
    assert_eq!(extra_padding_for_conv1d(11, 4, 2, 2), 1);
    // stride 5, kernel 10, padding 5, 7 samples: n_frames = 1.4 -> 2, ideal = 5 + 5 = 10.
    assert_eq!(extra_padding_for_conv1d(7, 10, 5, 5), 3);
    // short input: num negative but above -stride
    assert_eq!(extra_padding_for_conv1d(1, 10, 5, 5), 4);
}

#[test]
fn conv_out_len_rounds_up() {
    assert_eq!(conv_out_len(1, 7, 1), 1);
    assert_eq!(conv_out_len(10, 4, 2), 5);
    assert_eq!(conv_out_len(11, 4, 2), 6);
    assert_eq!(conv_out_len(3201, 16, 8), 401);
    assert_eq!(conv_out_len(1, 10, 5), 1);
}
