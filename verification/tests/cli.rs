use whisburn_engine::moonshine::{moonshine_head_dim, moonshine_head_pad};
use whisburn_engine::cli::{device_choice, scout_model, CommonArgs, DeviceChoice};
use whisburn_engine::moonshine::moonshine_content_tokens;

#[test]
fn device_arguments() {
    assert_eq!(device_choice(&None), DeviceChoice::Default);
    assert_eq!(device_choice(&Some("CPU".into())), DeviceChoice::Cpu);
    assert_eq!(device_choice(&Some("cpu".into())), DeviceChoice::Cpu);
    assert_eq!(device_choice(&Some("1".into())), DeviceChoice::DiscreteGpu(1));
    assert_eq!(device_choice(&Some("+2".into())), DeviceChoice::DiscreteGpu(2));
    assert_eq!(device_choice(&Some("4294967295".into())), DeviceChoice::DiscreteGpu(u32::MAX));
    assert_eq!(device_choice(&Some("4294967296".into())), DeviceChoice::Invalid);
    assert_eq!(device_choice(&Some("-1".into())), DeviceChoice::Invalid);
    assert_eq!(device_choice(&Some("gpu".into())), DeviceChoice::Invalid);
    assert_eq!(device_choice(&Some("".into())), DeviceChoice::Invalid);
}

#[test]
fn common_args_hold_their_values() {
    let a = CommonArgs {
        model: "tiny_en".into(),
        lang: "en".into(),
        verbose: false,
        debug: false,
        quiet: true,
        verify: false,
        hf_token: None,
        beam_size: 5,
        max_tokens: 448,
        padding: 200,
        device: Some("cpu".into()),
    };
    assert_eq!(device_choice(&a.device), DeviceChoice::Cpu);
    assert_eq!(a.beam_size, 5);
}

#[test]
fn moonshine_markers_are_dropped() {
    assert_eq!(moonshine_content_tokens(&[1, 5, 6, 2, 7, 1], 2, 1), vec![5, 6, 7]);
    assert_eq!(moonshine_content_tokens(&[], 2, 1), Vec::<usize>::new());
}

#[test]
fn moonshine_head_sizes() {
    assert_eq!(moonshine_head_dim(288, 8), 36);
    assert_eq!(moonshine_head_dim(288, 0), 288);
    assert_eq!(moonshine_head_pad(36, 8), 4);
    assert_eq!(moonshine_head_pad(40, 8), 0);
    assert_eq!(moonshine_head_pad(36, 0), 0);
}

#[test]
fn orchestrator_settings() {
    let a = CommonArgs::for_orchestrator("base_en".into(), "fr".into(), true, false, 5, 448, 200);
    assert!(a.quiet && !a.verify && a.hf_token.is_none() && a.device.is_none());
    assert_eq!((a.model.as_str(), a.lang.as_str(), a.beam_size), ("base_en", "fr", 5));
    assert_eq!(scout_model(&None), "tiny_en");
    assert_eq!(scout_model(&Some("small_en".into())), "small_en");
}
