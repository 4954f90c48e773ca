use ralume::recorder::audio::{
    detect_audio_devices_start, detect_audio_devices_step, parse_volume_percent, volume_check,
    DetectProgress, DetectStep, PactlQuery,
};
use ralume::recorder::encoders::{
    available_encoders, candidates, encoder_properties, preencoder_converter_factory,
    select_encoder, Backend, Codec, HwHint, PropertyValue,
};

#[test]
fn volume_is_read_before_the_first_percent_sign() {
    let out = "Volume: front-left: 13107 /  20% / -41,94 dB,   front-right: 13107 /  20% / -41,94 dB";
    assert_eq!(parse_volume_percent(out), Some(20));
    assert_eq!(parse_volume_percent("Volume: mono: 65536 / 100% / 0,00 dB"), Some(100));
    assert_eq!(parse_volume_percent("no sign here 55"), Some(55));
    assert_eq!(parse_volume_percent("abc%"), None);
    assert_eq!(parse_volume_percent(""), None);
    assert_eq!(parse_volume_percent("x 99999999999%"), None);
    assert_eq!(parse_volume_percent("7 and 8 %"), Some(8));
}

#[test]
fn quiet_sources_are_raised() {
    assert_eq!(volume_check("Volume: front-left: 13107 /  20% / -41,94 dB"), (20, true));
    assert_eq!(volume_check("Volume: front-left: 58982 /  90% / -2,75 dB"), (90, false));
    assert_eq!(volume_check("garbage"), (100, false));
}

#[test]
fn audio_devices_found_in_three_queries() {
    let (p, q) = detect_audio_devices_start();
    assert_eq!(q, PactlQuery::DefaultSink);
    let (p, q) = match detect_audio_devices_step(p, "alsa_output.pci.analog-stereo\n") {
        DetectStep::Ask(p, q) => (p, q),
        other => panic!("unexpected {:?}", other),
    };
    assert_eq!(q, PactlQuery::DefaultSource);
    let (p, q) = match detect_audio_devices_step(p, " alsa_input.pci.analog-stereo ") {
        DetectStep::Ask(p, q) => (p, q),
        other => panic!("unexpected {:?}", other),
    };
    assert_eq!(q, PactlQuery::ListSources);
    let list = "0\talsa_output.pci.analog-stereo.monitor\tPipeWire\n1\talsa_input.pci.analog-stereo\tPipeWire\n";
    match detect_audio_devices_step(p.clone(), list) {
        DetectStep::Found { devices, listed } => {
            assert_eq!(devices.monitor_source, "alsa_output.pci.analog-stereo.monitor");
            assert_eq!(devices.mic_source, "alsa_input.pci.analog-stereo");
            assert!(listed);
        }
        other => panic!("unexpected {:?}", other),
    }
    match detect_audio_devices_step(p, "1\talsa_input.pci.analog-stereo\n") {
        DetectStep::Found { listed, .. } => assert!(!listed),
        other => panic!("unexpected {:?}", other),
    }
}

#[test]
fn empty_pactl_answers_fail() {
    match detect_audio_devices_step(DetectProgress::Start, "  \n") {
        DetectStep::Failed(m) => assert_eq!(m, "pactl returned empty default-sink"),
        other => panic!("unexpected {:?}", other),
    }
    let p = DetectProgress::HaveMonitor { monitor_source: "s.monitor".to_string() };
    match detect_audio_devices_step(p, "") {
        DetectStep::Failed(m) => assert_eq!(m, "pactl returned empty default-source"),
        other => panic!("unexpected {:?}", other),
    }
}

#[test]
fn encoder_choice_follows_preference_and_hint() {
    let all = candidates();
    let names: Vec<&str> = all.iter().map(|e| e.factory_name).collect();
    assert_eq!(names, vec!["nvh264enc", "vah264enc", "vaapih264enc", "qsvh264enc", "x264enc"]);
    let avail = available_encoders(&vec![false, true, true, false, true]);
    let names: Vec<&str> = avail.iter().map(|e| e.factory_name).collect();
    assert_eq!(names, vec!["vah264enc", "vaapih264enc", "x264enc"]);
    assert_eq!(select_encoder(&avail, Codec::H264, HwHint::Auto).unwrap().factory_name, "vah264enc");
    assert_eq!(select_encoder(&avail, Codec::H264, HwHint::ForceHw).unwrap().factory_name, "vah264enc");
    let all_present = available_encoders(&vec![true, true, true, true, true]);
    assert_eq!(select_encoder(&all_present, Codec::H264, HwHint::Auto).unwrap().factory_name, "nvh264enc");
    let sw_only = available_encoders(&vec![false, false, false, false, true]);
    assert_eq!(select_encoder(&sw_only, Codec::H264, HwHint::Auto).unwrap().factory_name, "x264enc");
    assert!(select_encoder(&sw_only, Codec::H264, HwHint::ForceHw).is_none());
    assert_eq!(select_encoder(&avail, Codec::H264, HwHint::ForceSw).unwrap().factory_name, "x264enc");
    let hw_only = available_encoders(&vec![false, false, true, false, false]);
    assert!(select_encoder(&hw_only, Codec::H264, HwHint::ForceSw).is_none());
    assert!(select_encoder(&Vec::new(), Codec::H264, HwHint::Auto).is_none());
}

#[test]
fn backends_and_converters() {
    assert!(!Backend::Software.is_hw());
    assert!(Backend::Nvenc.is_hw() && Backend::Vaapi.is_hw() && Backend::Qsv.is_hw() && Backend::VaNew.is_hw());
    assert_eq!(Backend::VaNew.label(), "VAAPI (va-plugin)");
    assert_eq!(Backend::Qsv.label(), "Intel QSV");
    assert_eq!(preencoder_converter_factory(Backend::Vaapi), "vaapipostproc");
    assert_eq!(preencoder_converter_factory(Backend::VaNew), "vapostproc");
    assert_eq!(preencoder_converter_factory(Backend::Nvenc), "nvvidconv");
    assert_eq!(preencoder_converter_factory(Backend::Software), "videoconvert");
}

#[test]
fn encoder_properties_per_element() {
    let p = encoder_properties("x264enc", 8000);
    let names: Vec<&str> = p.iter().map(|e| e.name.as_str()).collect();
    assert_eq!(names, vec!["bitrate", "key-int-max", "bframes", "byte-stream", "tune", "speed-preset"]);
    assert!(matches!(p[0].value, PropertyValue::U32(8000)));
    assert!(matches!(p[1].value, PropertyValue::U32(100)));
    assert!(matches!(p[3].value, PropertyValue::Bool(false)));
    assert!(matches!(&p[4].value, PropertyValue::Parsed(s) if s == "zerolatency"));
    let p = encoder_properties("x264enc", 5);
    assert!(matches!(p[1].value, PropertyValue::U32(10)));
    let p = encoder_properties("nvh264enc", 6000);
    let names: Vec<&str> = p.iter().map(|e| e.name.as_str()).collect();
    assert_eq!(names, vec!["bitrate", "preset", "rc-mode"]);
    let p = encoder_properties("qsvh264enc", 6000);
    assert!(matches!(p[1].value, PropertyValue::U32(4)));
    assert!(encoder_properties("unknown", 1).is_empty());
}
