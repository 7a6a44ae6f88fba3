use oxisound::core_types::{DeviceEvent, DeviceInfo, HostApi, NegotiatedConfig, OxiSoundError, SampleFormat, StreamConfig};
use oxisound::devices::{
    describe_all_devices, describe_devices, device_changes, loopback_supported, select_device,
    select_monitor, AnyDeviceProbe, DeviceProbe,
};
use oxisound::error::{
    core_to_cpal_format, cpal_to_core_format, map_build_stream_err, map_default_config_err,
    map_devices_err, map_play_stream_err, map_supported_configs_err, BackendError,
    BackendErrorKind, DeviceSampleFormat,
};
use oxisound::host::{default_host_api, exclusive_mode_warning, host_backend_for, HostBackend, Platform};
use oxisound::negotiate::{
    choose_open_format, config_supported, negotiate_output_from, optimal_buffer_size, pick_preferred_format,
    ConfigRange, SupportedBufferSize,
};
use oxisound::osc_types::OscTimeTag;
use oxisound::stream_plan::{
    buffer_period_ns, classify_stream_error, format_name, retry_delay_ms, stream_sample_type,
    StreamErrorAction, StreamErrorKind, StreamKind, StreamSampleType,
};

fn backend(kind: BackendErrorKind, message: &str) -> BackendError {
    BackendError {
        kind,
        message: message.to_string(),
    }
}

fn unsupported_config(r: Result<HostBackend, OxiSoundError>) -> String {
    match r {
        Err(OxiSoundError::UnsupportedConfig(m)) => m,
        other => panic!("expected UnsupportedConfig, got {:?}", other),
    }
}

fn device_message(e: OxiSoundError) -> String {
    match e {
        OxiSoundError::Device(m) => m,
        other => panic!("expected Device, got {:?}", other),
    }
}

fn all_device_formats() -> [DeviceSampleFormat; 16] {
    [
    DeviceSampleFormat::I8,
    DeviceSampleFormat::I16,
    DeviceSampleFormat::I24,
    DeviceSampleFormat::I32,
    DeviceSampleFormat::I64,
    DeviceSampleFormat::U8,
    DeviceSampleFormat::U16,
    DeviceSampleFormat::U24,
    DeviceSampleFormat::U32,
    DeviceSampleFormat::U64,
    DeviceSampleFormat::F32,
    DeviceSampleFormat::F64,
    DeviceSampleFormat::DsdU8,
    DeviceSampleFormat::DsdU16,
    DeviceSampleFormat::DsdU32,
    DeviceSampleFormat::Unknown,
    ]
}

fn all_formats() -> [SampleFormat; 6] {
    [
    SampleFormat::F32,
    SampleFormat::F64,
    SampleFormat::I16,
    SampleFormat::I32,
    SampleFormat::U8,
    SampleFormat::I24,
    ]
}

// ─── host selection ──────────────────────────────────────────────────────────

#[test]
fn default_host_api_by_platform() {
    assert_eq!(default_host_api(Platform::MacOs), HostApi::CoreAudio);
    assert_eq!(default_host_api(Platform::Ios), HostApi::CoreAudio);
    assert_eq!(default_host_api(Platform::Windows), HostApi::Wasapi);
    assert_eq!(default_host_api(Platform::Linux), HostApi::Alsa);
    assert_eq!(default_host_api(Platform::FreeBsd), HostApi::Alsa);
    assert_eq!(default_host_api(Platform::Other), HostApi::CoreAudio);
}

#[test]
fn host_backend_native_hosts() {
    assert_eq!(host_backend_for(HostApi::CoreAudio, Platform::MacOs).unwrap(), HostBackend::CoreAudio);
    assert_eq!(host_backend_for(HostApi::Wasapi, Platform::Windows).unwrap(), HostBackend::Wasapi);
    assert_eq!(host_backend_for(HostApi::Alsa, Platform::Linux).unwrap(), HostBackend::Alsa);
    assert_eq!(host_backend_for(HostApi::Alsa, Platform::NetBsd).unwrap(), HostBackend::Alsa);
}

#[test]
fn host_backend_refusals() {
    assert_eq!(
        unsupported_config(host_backend_for(HostApi::CoreAudio, Platform::Linux)),
        "CoreAudio is macOS/iOS-only"
    );
    assert_eq!(
        unsupported_config(host_backend_for(HostApi::Wasapi, Platform::MacOs)),
        "WASAPI is Windows-only"
    );
    assert_eq!(
        unsupported_config(host_backend_for(HostApi::Alsa, Platform::Windows)),
        "ALSA is Linux/BSD-only"
    );
    assert_eq!(
        unsupported_config(host_backend_for(HostApi::Jack, Platform::Linux)),
        "JACK is not available via cpal in OxiSound; depend on the `oxisound-jack` quarantine crate (libjack2) directly"
    );
    assert_eq!(
        unsupported_config(host_backend_for(HostApi::Asio, Platform::Windows)),
        "ASIO is not available in this build; it requires a dedicated `oxisound-*-asio` quarantine crate (Steinberg ASIO SDK)"
    );
    assert_eq!(
        unsupported_config(host_backend_for(HostApi::PipeWire, Platform::Linux)),
        "PipeWire support is not available in this build"
    );
    assert_eq!(
        unsupported_config(host_backend_for(HostApi::PulseAudio, Platform::Linux)),
        "PulseAudio support is not available in this build"
    );
    assert_eq!(
        unsupported_config(host_backend_for(HostApi::Alsa, Platform::Wasm)),
        "with_host() is not supported on wasm32; the WebAudio backend is selected automatically"
    );
}

#[test]
fn default_host_always_opens_on_native_platforms() {
    for p in [
        Platform::MacOs,
        Platform::Ios,
        Platform::Windows,
        Platform::Linux,
        Platform::DragonFly,
        Platform::FreeBsd,
        Platform::NetBsd,
    ] {
        assert!(host_backend_for(default_host_api(p), p).is_ok());
    }
}

#[test]
fn exclusive_mode_warnings() {
    assert_eq!(exclusive_mode_warning(false, Platform::Windows), None);
    assert_eq!(exclusive_mode_warning(false, Platform::Linux), None);
    let w = exclusive_mode_warning(true, Platform::Windows).unwrap();
    assert!(w.starts_with("[oxisound-cpal] WASAPI exclusive mode requested"));
    assert!(w.ends_with("https://github.com/RustAudio/cpal"));
    assert_eq!(
        exclusive_mode_warning(true, Platform::MacOs).unwrap(),
        "[oxisound-cpal] Exclusive mode is a WASAPI-only feature (Windows); it is not applicable on this platform and will be ignored."
    );
}

// ─── error mapping ───────────────────────────────────────────────────────────

#[test]
fn build_stream_errors() {
    assert!(matches!(
        map_build_stream_err(backend(BackendErrorKind::DeviceNotAvailable, "gone")),
        OxiSoundError::Disconnected(m) if m == "build stream: device not available"
    ));
    assert!(matches!(
        map_build_stream_err(backend(BackendErrorKind::InvalidArgument, "bad")),
        OxiSoundError::UnsupportedConfig(m) if m == "build stream: invalid argument"
    ));
    assert!(matches!(
        map_build_stream_err(backend(BackendErrorKind::Other, "backend said no")),
        OxiSoundError::Stream(m) if m == "backend said no"
    ));
}

#[test]
fn play_stream_errors() {
    assert!(matches!(
        map_play_stream_err(backend(BackendErrorKind::DeviceNotAvailable, "gone")),
        OxiSoundError::Disconnected(m) if m == "play stream: device not available"
    ));
    assert!(matches!(
        map_play_stream_err(backend(BackendErrorKind::InvalidArgument, "x")),
        OxiSoundError::Stream(m) if m == "x"
    ));
}

#[test]
fn devices_and_config_errors() {
    assert_eq!(device_message(map_devices_err(backend(BackendErrorKind::Other, "no host"))), "no host");
    assert!(matches!(
        map_default_config_err(backend(BackendErrorKind::DeviceNotAvailable, "gone")),
        OxiSoundError::Disconnected(m) if m == "default config: device not available"
    ));
    assert!(matches!(
        map_default_config_err(backend(BackendErrorKind::Other, "odd")),
        OxiSoundError::UnsupportedConfig(m) if m == "odd"
    ));
    assert!(matches!(
        map_supported_configs_err(backend(BackendErrorKind::DeviceNotAvailable, "gone")),
        OxiSoundError::Disconnected(m) if m == "supported configs: device not available"
    ));
    assert_eq!(
        device_message(map_supported_configs_err(backend(BackendErrorKind::Other, "odd"))),
        "odd"
    );
}

// ─── sample formats ──────────────────────────────────────────────────────────

#[test]
fn device_formats_map_to_nearest() {
    assert_eq!(cpal_to_core_format(DeviceSampleFormat::F32), SampleFormat::F32);
    assert_eq!(cpal_to_core_format(DeviceSampleFormat::I8), SampleFormat::I16);
    assert_eq!(cpal_to_core_format(DeviceSampleFormat::U16), SampleFormat::I16);
    assert_eq!(cpal_to_core_format(DeviceSampleFormat::I24), SampleFormat::I24);
    assert_eq!(cpal_to_core_format(DeviceSampleFormat::U24), SampleFormat::I32);
    assert_eq!(cpal_to_core_format(DeviceSampleFormat::U32), SampleFormat::I32);
    assert_eq!(cpal_to_core_format(DeviceSampleFormat::I64), SampleFormat::F64);
    assert_eq!(cpal_to_core_format(DeviceSampleFormat::U64), SampleFormat::F64);
    assert_eq!(cpal_to_core_format(DeviceSampleFormat::DsdU8), SampleFormat::F32);
    assert_eq!(cpal_to_core_format(DeviceSampleFormat::Unknown), SampleFormat::F32);
    assert_eq!(core_to_cpal_format(SampleFormat::U8), DeviceSampleFormat::U8);
    assert_eq!(core_to_cpal_format(SampleFormat::I24), DeviceSampleFormat::I24);
}

#[test]
fn format_roundtrip_law() {
    for f in all_formats() {
        assert_eq!(cpal_to_core_format(core_to_cpal_format(f)), f);
    }
}

#[test]
fn format_fixpoint_law() {
    for d in all_device_formats() {
        let back = core_to_cpal_format(cpal_to_core_format(d));
        let is_image = all_formats().iter().any(|c| core_to_cpal_format(*c) == d);
        assert_eq!(back == d, is_image);
    }
}

#[test]
fn format_names() {
    assert_eq!(format_name(DeviceSampleFormat::U32), "U32");
    assert_eq!(format_name(DeviceSampleFormat::DsdU16), "DsdU16");
    for d in all_device_formats() {
        assert_eq!(format_name(d), format!("{:?}", d));
    }
}

// ─── stream planning ─────────────────────────────────────────────────────────

fn unsupported_message(r: Result<StreamSampleType, OxiSoundError>) -> String {
    match r {
        Err(OxiSoundError::UnsupportedConfig(m)) => m,
        other => panic!("expected UnsupportedConfig, got {:?}", other),
    }
}

#[test]
fn stream_sample_types() {
    assert_eq!(stream_sample_type(StreamKind::Output, DeviceSampleFormat::I24).unwrap(), StreamSampleType::I32);
    assert_eq!(stream_sample_type(StreamKind::Input, DeviceSampleFormat::U16).unwrap(), StreamSampleType::U16);
    assert_eq!(stream_sample_type(StreamKind::Output, DeviceSampleFormat::U8).unwrap(), StreamSampleType::U8);
    assert_eq!(stream_sample_type(StreamKind::DuplexOutput, DeviceSampleFormat::F64).unwrap(), StreamSampleType::F64);
    assert_eq!(stream_sample_type(StreamKind::AsyncInput, DeviceSampleFormat::I24).unwrap(), StreamSampleType::I32);
}

#[test]
fn stream_sample_type_errors() {
    assert_eq!(
        unsupported_message(stream_sample_type(StreamKind::Output, DeviceSampleFormat::U32)),
        "unsupported output sample format: U32"
    );
    assert_eq!(
        unsupported_message(stream_sample_type(StreamKind::Input, DeviceSampleFormat::DsdU8)),
        "unsupported input sample format: DsdU8"
    );
    assert_eq!(
        unsupported_message(stream_sample_type(StreamKind::DuplexOutput, DeviceSampleFormat::U8)),
        "duplex output: unsupported sample format U8"
    );
    assert_eq!(
        unsupported_message(stream_sample_type(StreamKind::DuplexInput, DeviceSampleFormat::U16)),
        "duplex input: unsupported sample format U16"
    );
    assert_eq!(
        unsupported_message(stream_sample_type(StreamKind::AsyncInput, DeviceSampleFormat::F64)),
        "async input: unsupported sample format F64"
    );
}

#[test]
fn buffer_periods() {
    assert_eq!(buffer_period_ns(Some(480), 48_000), 10_000_000);
    assert_eq!(buffer_period_ns(None, 44_100), 11_609_977);
    assert_eq!(buffer_period_ns(Some(u32::MAX), 1), 4_294_967_295_000_000_000);
    assert_eq!(buffer_period_ns(Some(256), 0), 0);
}

#[test]
fn retry_schedule_grows_then_stops() {
    assert_eq!(retry_delay_ms(0), Some(10));
    assert_eq!(retry_delay_ms(1), Some(50));
    assert_eq!(retry_delay_ms(2), Some(200));
    assert_eq!(retry_delay_ms(3), Some(1_000));
    assert_eq!(retry_delay_ms(4), None);
    assert_eq!(retry_delay_ms(usize::MAX), None);
    for a in 1..4 {
        assert!(retry_delay_ms(a - 1).unwrap() < retry_delay_ms(a).unwrap());
    }
}

#[test]
fn stream_error_actions() {
    assert_eq!(classify_stream_error(StreamErrorKind::DeviceNotAvailable), StreamErrorAction::MarkDisconnected);
    assert_eq!(classify_stream_error(StreamErrorKind::StreamInvalidated), StreamErrorAction::MarkDisconnected);
    assert_eq!(classify_stream_error(StreamErrorKind::BackendError), StreamErrorAction::MarkDisconnected);
    assert_eq!(classify_stream_error(StreamErrorKind::Xrun), StreamErrorAction::WarnUnderrun);
    assert_eq!(classify_stream_error(StreamErrorKind::Other), StreamErrorAction::LogError);
}

// ─── negotiation ─────────────────────────────────────────────────────────────

fn range(channels: u16, min: u32, max: u32, buf: SupportedBufferSize, fmt: DeviceSampleFormat) -> ConfigRange {
    ConfigRange {
        channels,
        min_sample_rate: min,
        max_sample_rate: max,
        buffer_size: buf,
        sample_format: fmt,
    }
}

fn request(rate: u32, channels: u16, buffer: Option<u32>, hint: Option<SampleFormat>, preferred: Vec<SampleFormat>) -> StreamConfig {
    StreamConfig {
        sample_rate: rate,
        channels,
        buffer_size: buffer,
        sample_format: hint,
        preferred_formats: preferred,
        exclusive: false,
    }
}

#[test]
fn optimal_buffer_sizes() {
    assert_eq!(optimal_buffer_size(Ok(SupportedBufferSize::Range { min: 256, max: 4096 })).unwrap(), 256);
    assert_eq!(optimal_buffer_size(Ok(SupportedBufferSize::Unknown)).unwrap(), 512);
    assert_eq!(
        device_message(optimal_buffer_size(Err(backend(BackendErrorKind::Other, "no default"))).unwrap_err()),
        "no default"
    );
}

#[test]
fn preferred_format_pick() {
    let supported = vec![SampleFormat::I16, SampleFormat::F32];
    assert_eq!(pick_preferred_format(&vec![SampleFormat::F64, SampleFormat::F32], &supported), Some(SampleFormat::F32));
    assert_eq!(pick_preferred_format(&vec![SampleFormat::F64], &supported), Some(SampleFormat::I16));
    assert_eq!(pick_preferred_format(&vec![], &supported), Some(SampleFormat::I16));
    assert_eq!(pick_preferred_format(&vec![SampleFormat::F32], &vec![]), None);
}

#[test]
fn negotiation_prefers_ranked_formats() {
    let ranges = vec![
        range(2, 44_100, 48_000, SupportedBufferSize::Range { min: 128, max: 2048 }, DeviceSampleFormat::I16),
        range(2, 8_000, 96_000, SupportedBufferSize::Unknown, DeviceSampleFormat::F32),
        range(1, 8_000, 96_000, SupportedBufferSize::Range { min: 64, max: 64 }, DeviceSampleFormat::F64),
    ];
    let cfg = request(48_000, 2, None, None, vec![SampleFormat::F64, SampleFormat::F32]);
    let n = negotiate_output_from(&cfg, Ok(ranges.clone())).unwrap();
    assert_eq!(
        n,
        NegotiatedConfig { sample_rate: 48_000, channels: 2, buffer_size: 128, sample_format: SampleFormat::F32 }
    );
    // With no preference the first matching format wins; the request's buffer size is kept.
    let cfg = request(48_000, 2, Some(1024), None, vec![]);
    let n = negotiate_output_from(&cfg, Ok(ranges.clone())).unwrap();
    assert_eq!(n.sample_format, SampleFormat::I16);
    assert_eq!(n.buffer_size, 1024);
    // The single format hint ranks after the preferred formats.
    let cfg = request(96_000, 2, None, Some(SampleFormat::F32), vec![SampleFormat::I24]);
    let n = negotiate_output_from(&cfg, Ok(ranges)).unwrap();
    assert_eq!(n.sample_format, SampleFormat::F32);
    assert_eq!(n.buffer_size, 512);
}

#[test]
fn negotiation_without_matching_range() {
    let ranges = vec![range(2, 44_100, 48_000, SupportedBufferSize::Unknown, DeviceSampleFormat::F32)];
    let cfg = request(192_000, 6, None, None, vec![]);
    match negotiate_output_from(&cfg, Ok(ranges)) {
        Err(OxiSoundError::FormatMismatch(m)) => assert_eq!(m, "no supported output config for 192000Hz 6ch"),
        other => panic!("expected FormatMismatch, got {:?}", other),
    }
    let cfg = request(44_100, 2, None, None, vec![]);
    match negotiate_output_from(&cfg, Ok(vec![])) {
        Err(OxiSoundError::FormatMismatch(m)) => assert_eq!(m, "no supported output config for 44100Hz 2ch"),
        other => panic!("expected FormatMismatch, got {:?}", other),
    }
}

#[test]
fn negotiation_backend_error() {
    let cfg = request(44_100, 2, None, None, vec![]);
    assert_eq!(
        device_message(negotiate_output_from(&cfg, Err(backend(BackendErrorKind::Other, "configs failed"))).unwrap_err()),
        "configs failed"
    );
}

#[test]
fn negotiated_format_comes_from_a_matching_range() {
    let ranges = vec![
        range(2, 44_100, 44_100, SupportedBufferSize::Unknown, DeviceSampleFormat::U24),
        range(2, 48_000, 48_000, SupportedBufferSize::Unknown, DeviceSampleFormat::F64),
    ];
    let cfg = request(44_100, 2, None, None, vec![SampleFormat::F64]);
    let n = negotiate_output_from(&cfg, Ok(ranges)).unwrap();
    assert_eq!(n.sample_rate, 44_100);
    assert_eq!(n.channels, 2);
    assert_eq!(n.sample_format, SampleFormat::I32);
}

#[test]
fn open_format_choice() {
    let ranges = vec![range(2, 44_100, 48_000, SupportedBufferSize::Unknown, DeviceSampleFormat::I16)];
    let no_pref = request(48_000, 2, None, None, vec![]);
    assert_eq!(choose_open_format(&no_pref, DeviceSampleFormat::F32, Ok(ranges.clone())), DeviceSampleFormat::F32);
    let pref = request(48_000, 2, None, None, vec![SampleFormat::F32]);
    assert_eq!(choose_open_format(&pref, DeviceSampleFormat::F32, Ok(ranges.clone())), DeviceSampleFormat::I16);
    let unmatched = request(8_000, 2, None, None, vec![SampleFormat::F32]);
    assert_eq!(choose_open_format(&unmatched, DeviceSampleFormat::U8, Ok(ranges)), DeviceSampleFormat::U8);
    assert_eq!(
        choose_open_format(&pref, DeviceSampleFormat::F64, Err(backend(BackendErrorKind::Other, "x"))),
        DeviceSampleFormat::F64
    );
}

// ─── device selection ────────────────────────────────────────────────────────

#[test]
fn select_device_ignores_case() {
    let names = vec![
        Ok("Built-in Microphone".to_string()),
        Ok("USB Speakers".to_string()),
        Ok("HDMI speakers".to_string()),
    ];
    assert_eq!(select_device(&names, "SPEAK").unwrap(), 1);
    assert_eq!(select_device(&names, "hdmi").unwrap(), 2);
    assert_eq!(select_device(&names, "").unwrap(), 0);
    assert!(matches!(select_device(&names, "bluetooth"), Err(OxiSoundError::NoDevice)));
}

#[test]
fn select_device_lowercases_beyond_ascii() {
    let names = vec![Ok("ÉCOUTEURS".to_string())];
    assert_eq!(select_device(&names, "écout").unwrap(), 0);
}

#[test]
fn select_device_stops_at_name_error() {
    let names = vec![
        Ok("Line In".to_string()),
        Err(backend(BackendErrorKind::Other, "name unavailable")),
        Ok("Speakers".to_string()),
    ];
    assert_eq!(device_message(select_device(&names, "speak").unwrap_err()), "name unavailable");
    assert_eq!(select_device(&names, "line").unwrap(), 0);
}

#[test]
fn describe_output_devices() {
    let probes = vec![
        DeviceProbe { name: Ok("A".to_string()), sample_rates: vec![44_100, 48_000], channel_counts: vec![2] },
        DeviceProbe { name: Ok("B".to_string()), sample_rates: vec![], channel_counts: vec![1, 2] },
    ];
    let infos = describe_devices(Ok(probes), Some("B".to_string()), false).unwrap();
    assert_eq!(infos.len(), 2);
    assert_eq!(infos[0].name, "A");
    assert!(!infos[0].is_default);
    assert_eq!(infos[0].sample_rates, vec![44_100, 48_000]);
    assert!(infos[0].is_output && !infos[0].is_input);
    assert_eq!(infos[1].name, "B");
    assert!(infos[1].is_default);
    assert_eq!(infos[1].channel_counts, vec![1, 2]);
}

#[test]
fn describe_input_devices_errors() {
    let probes = vec![
        DeviceProbe { name: Ok("Mic".to_string()), sample_rates: vec![], channel_counts: vec![] },
        DeviceProbe { name: Err(backend(BackendErrorKind::Other, "busy")), sample_rates: vec![], channel_counts: vec![] },
    ];
    assert_eq!(
        device_message(describe_devices(Ok(probes), None, true).unwrap_err()),
        "description error: busy"
    );
    let probes = vec![DeviceProbe { name: Err(backend(BackendErrorKind::Other, "busy")), sample_rates: vec![], channel_counts: vec![] }];
    assert_eq!(device_message(describe_devices(Ok(probes), None, false).unwrap_err()), "busy");
    assert_eq!(
        device_message(describe_devices(Err(backend(BackendErrorKind::Other, "no host")), None, true).unwrap_err()),
        "no host"
    );
}

#[test]
fn describe_input_devices_marks_direction() {
    let probes = vec![DeviceProbe { name: Ok("Mic".to_string()), sample_rates: vec![16_000], channel_counts: vec![1] }];
    let infos = describe_devices(Ok(probes), Some("Mic".to_string()), true).unwrap();
    assert!(infos[0].is_input && !infos[0].is_output && infos[0].is_default);
}

#[test]
fn describe_all_devices_together() {
    let probes = vec![
        AnyDeviceProbe {
            name: Some("Speakers".to_string()),
            has_output_configs: true,
            has_input_configs: false,
            output_sample_rates: vec![48_000],
            output_channel_counts: vec![2],
            input_sample_rates: vec![],
            input_channel_counts: vec![],
        },
        AnyDeviceProbe {
            name: None,
            has_output_configs: false,
            has_input_configs: true,
            output_sample_rates: vec![],
            output_channel_counts: vec![],
            input_sample_rates: vec![16_000],
            input_channel_counts: vec![1],
        },
        AnyDeviceProbe {
            name: Some("Speakers".to_string()),
            has_output_configs: false,
            has_input_configs: true,
            output_sample_rates: vec![],
            output_channel_counts: vec![],
            input_sample_rates: vec![8_000],
            input_channel_counts: vec![1],
        },
    ];
    let infos = describe_all_devices(Ok(probes), Some("Speakers".to_string())).unwrap();
    assert_eq!(infos.len(), 3);
    assert!(infos[0].is_default && infos[0].is_output && !infos[0].is_input);
    assert_eq!(infos[0].sample_rates, vec![48_000]);
    assert_eq!(infos[1].name, "<unknown>");
    assert!(!infos[1].is_default && infos[1].is_input);
    assert_eq!(infos[1].sample_rates, vec![16_000]);
    // Only output devices are marked default.
    assert!(!infos[2].is_default);
    assert_eq!(
        device_message(describe_all_devices(Err(backend(BackendErrorKind::Other, "down")), None).unwrap_err()),
        "down"
    );
}

#[test]
fn loopback_support() {
    assert!(loopback_supported(Platform::Linux).is_ok());
    match loopback_supported(Platform::MacOs) {
        Err(OxiSoundError::Unsupported(m)) => assert!(m.starts_with("Loopback capture is not natively available")),
        other => panic!("expected Unsupported, got {:?}", other),
    }
}

#[test]
fn monitor_source_selection() {
    let names = vec![Some("Built-in Mic".to_string()), None, Some("Monitor of Speakers".to_string())];
    assert_eq!(select_monitor(Ok(names)).unwrap(), 2);
    match select_monitor(Ok(vec![Some("Mic".to_string()), None])) {
        Err(OxiSoundError::Unsupported(m)) => assert_eq!(
            m,
            "No loopback/monitor input device found. Ensure PulseAudio or PipeWire is running and a monitor source is present."
        ),
        other => panic!("expected Unsupported, got {:?}", other),
    }
    assert_eq!(device_message(select_monitor(Err(backend(BackendErrorKind::Other, "x"))).unwrap_err()), "x");
}

// ─── device changes ──────────────────────────────────────────────────────────

#[test]
fn device_change_events() {
    let previous = vec!["A".to_string(), "B".to_string(), "C".to_string()];
    let current = vec!["B".to_string(), "D".to_string(), "A".to_string(), "E".to_string()];
    let events = device_changes(&previous, &current);
    assert_eq!(events.len(), 3);
    assert!(matches!(&events[0], DeviceEvent::DeviceAdded(i) if i.name == "D" && !i.is_default));
    assert!(matches!(&events[1], DeviceEvent::DeviceAdded(i) if i.name == "E" && i.sample_rates.is_empty()));
    assert!(matches!(&events[2], DeviceEvent::DeviceRemoved(n) if n == "C"));
    assert!(device_changes(&current, &current).is_empty());
}

#[test]
fn device_changes_rebuild_current_names() {
    let previous = vec!["x".to_string(), "y".to_string()];
    let current = vec!["y".to_string(), "z".to_string()];
    let events = device_changes(&previous, &current);
    let mut names: Vec<String> = previous.clone();
    for e in &events {
        match e {
            DeviceEvent::DeviceAdded(i) => names.push(i.name.clone()),
            DeviceEvent::DeviceRemoved(n) => names.retain(|m| m != n),
        }
    }
    names.sort();
    let mut expected = current.clone();
    expected.sort();
    assert_eq!(names, expected);
}

#[test]
fn named_device_info() {
    let i = DeviceInfo::named("Dev".to_string());
    assert_eq!(i.name, "Dev");
    assert!(!i.is_default && !i.is_input && !i.is_output);
    assert!(i.sample_rates.is_empty() && i.channel_counts.is_empty());
}

#[test]
fn immediate_time_tag() {
    assert_eq!(OscTimeTag::immediate(), OscTimeTag { seconds: 0, fractional: 1 });
}

#[test]
fn supported_config_check() {
    let ranges = vec![
        range(2, 44_100, 48_000, SupportedBufferSize::Unknown, DeviceSampleFormat::F32),
        range(1, 8_000, 16_000, SupportedBufferSize::Unknown, DeviceSampleFormat::I16),
    ];
    assert!(config_supported(&ranges, 48_000, 2));
    assert!(config_supported(&ranges, 8_000, 1));
    assert!(!config_supported(&ranges, 16_000, 2));
    assert!(!config_supported(&ranges, 96_000, 2));
    assert!(!config_supported(&vec![], 48_000, 2));
}
