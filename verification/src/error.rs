//! Mapping the audio backend's errors and sample formats onto the
//! device layer's own.
use vstd::prelude::*;
use crate::core_types::{ErrorView, OxiSoundError, SampleFormat};

verus! {

/// A sample format as the audio backend reports it. `Unknown` stands for a
/// format this layer does not know by name.
#[derive(Clone, Copy, Debug, PartialEq, Eq, Structural)]
pub enum DeviceSampleFormat {
    I8,
    I16,
    I24,
    I32,
    I64,
    U8,
    U16,
    U24,
    U32,
    U64,
    F32,
    F64,
    DsdU8,
    DsdU16,
    DsdU32,
    Unknown,
}

/// Which kind of failure the audio backend reported.
#[derive(Clone, Copy, Debug, PartialEq, Eq, Structural)]
pub enum BackendErrorKind {
    /// The device is no longer available (for example, unplugged).
    DeviceNotAvailable,
    /// The backend was given an argument it does not accept.
    InvalidArgument,
    /// Any other failure.
    Other,
}

/// A failure reported by the audio backend: its kind and its display text.
#[derive(Debug)]
pub struct BackendError {
    pub kind: BackendErrorKind,
    pub message: String,
}

/// Maps a failure to build a stream.
pub fn map_build_stream_err(e: BackendError) -> (r: OxiSoundError)
    ensures
        r@ == match e.kind {
            BackendErrorKind::DeviceNotAvailable => ErrorView::Disconnected(
                "build stream: device not available"@,
            ),
            BackendErrorKind::InvalidArgument => ErrorView::UnsupportedConfig(
                "build stream: invalid argument"@,
            ),
            BackendErrorKind::Other => ErrorView::Stream(e.message@),
        },
{
    match e.kind {
        BackendErrorKind::DeviceNotAvailable => OxiSoundError::Disconnected(
            "build stream: device not available".to_owned(),
        ),
        BackendErrorKind::InvalidArgument => OxiSoundError::UnsupportedConfig(
            "build stream: invalid argument".to_owned(),
        ),
        BackendErrorKind::Other => OxiSoundError::Stream(e.message),
    }
}

/// Maps a failure to start a stream.
pub fn map_play_stream_err(e: BackendError) -> (r: OxiSoundError)
    ensures
        r@ == match e.kind {
            BackendErrorKind::DeviceNotAvailable => ErrorView::Disconnected(
                "play stream: device not available"@,
            ),
            _ => ErrorView::Stream(e.message@),
        },
{
    match e.kind {
        BackendErrorKind::DeviceNotAvailable => OxiSoundError::Disconnected(
            "play stream: device not available".to_owned(),
        ),
        _ => OxiSoundError::Stream(e.message),
    }
}

/// Maps a failure to list devices.
pub fn map_devices_err(e: BackendError) -> (r: OxiSoundError)
    ensures
        r@ == ErrorView::Device(e.message@),
{
    OxiSoundError::Device(e.message)
}

/// Maps a failure to read a device's default stream configuration.
pub fn map_default_config_err(e: BackendError) -> (r: OxiSoundError)
    ensures
        r@ == match e.kind {
            BackendErrorKind::DeviceNotAvailable => ErrorView::Disconnected(
                "default config: device not available"@,
            ),
            _ => ErrorView::UnsupportedConfig(e.message@),
        },
{
    match e.kind {
        BackendErrorKind::DeviceNotAvailable => OxiSoundError::Disconnected(
            "default config: device not available".to_owned(),
        ),
        _ => OxiSoundError::UnsupportedConfig(e.message),
    }
}

/// Maps a failure to list a device's supported stream configurations.
pub fn map_supported_configs_err(e: BackendError) -> (r: OxiSoundError)
    ensures
        r@ == match e.kind {
            BackendErrorKind::DeviceNotAvailable => ErrorView::Disconnected(
                "supported configs: device not available"@,
            ),
            _ => ErrorView::Device(e.message@),
        },
{
    match e.kind {
        BackendErrorKind::DeviceNotAvailable => OxiSoundError::Disconnected(
            "supported configs: device not available".to_owned(),
        ),
        _ => OxiSoundError::Device(e.message),
    }
}

/// The device-layer format closest to a backend format. Formats without a
/// direct counterpart map to the nearest one; DSD and unknown formats map to `F32`.
pub open spec fn core_format_of(fmt: DeviceSampleFormat) -> SampleFormat {
    match fmt {
        DeviceSampleFormat::F32 => SampleFormat::F32,
        DeviceSampleFormat::F64 => SampleFormat::F64,
        DeviceSampleFormat::I16 => SampleFormat::I16,
        DeviceSampleFormat::I32 => SampleFormat::I32,
        DeviceSampleFormat::U8 => SampleFormat::U8,
        DeviceSampleFormat::I8 => SampleFormat::I16,
        DeviceSampleFormat::U16 => SampleFormat::I16,
        DeviceSampleFormat::I24 => SampleFormat::I24,
        DeviceSampleFormat::U24 => SampleFormat::I32,
        DeviceSampleFormat::U32 => SampleFormat::I32,
        DeviceSampleFormat::I64 => SampleFormat::F64,
        DeviceSampleFormat::U64 => SampleFormat::F64,
        _ => SampleFormat::F32,
    }
}

/// The backend format that a device-layer format opens a stream with.
pub open spec fn device_format_of(fmt: SampleFormat) -> DeviceSampleFormat {
    match fmt {
        SampleFormat::F32 => DeviceSampleFormat::F32,
        SampleFormat::F64 => DeviceSampleFormat::F64,
        SampleFormat::I16 => DeviceSampleFormat::I16,
        SampleFormat::I32 => DeviceSampleFormat::I32,
        SampleFormat::U8 => DeviceSampleFormat::U8,
        SampleFormat::I24 => DeviceSampleFormat::I24,
    }
}

/// Maps a backend sample format to the closest device-layer `SampleFormat`.
pub fn cpal_to_core_format(fmt: DeviceSampleFormat) -> (r: SampleFormat)
    ensures
        r == core_format_of(fmt),
{
    match fmt {
        DeviceSampleFormat::F32 => SampleFormat::F32,
        DeviceSampleFormat::F64 => SampleFormat::F64,
        DeviceSampleFormat::I16 => SampleFormat::I16,
        DeviceSampleFormat::I32 => SampleFormat::I32,
        DeviceSampleFormat::U8 => SampleFormat::U8,
        // Closest available type for formats without a direct mapping:
        DeviceSampleFormat::I8 => SampleFormat::I16,
        DeviceSampleFormat::U16 => SampleFormat::I16,
        DeviceSampleFormat::I24 => SampleFormat::I24,
        DeviceSampleFormat::U24 => SampleFormat::I32,
        DeviceSampleFormat::U32 => SampleFormat::I32,
        DeviceSampleFormat::I64 => SampleFormat::F64,
        DeviceSampleFormat::U64 => SampleFormat::F64,
        // DSD and any other formats fall back to F32
        _ => SampleFormat::F32,
    }
}

/// Maps a device-layer `SampleFormat` back to the backend format.
pub fn core_to_cpal_format(fmt: SampleFormat) -> (r: DeviceSampleFormat)
    ensures
        r == device_format_of(fmt),
{
    match fmt {
        SampleFormat::F32 => DeviceSampleFormat::F32,
        SampleFormat::F64 => DeviceSampleFormat::F64,
        SampleFormat::I16 => DeviceSampleFormat::I16,
        SampleFormat::I32 => DeviceSampleFormat::I32,
        SampleFormat::U8 => DeviceSampleFormat::U8,
        SampleFormat::I24 => DeviceSampleFormat::I24,
    }
}

/// Converting a device-layer format to the backend's and back gives it back.
pub proof fn law_format_roundtrip(fmt: SampleFormat)
    ensures
        core_format_of(device_format_of(fmt)) == fmt,
{
}

/// The backend formats that map to themselves and back are exactly the
/// images of device-layer formats.
pub proof fn law_format_fixpoints(fmt: DeviceSampleFormat)
    ensures
        device_format_of(core_format_of(fmt)) == fmt <==> (exists|c: SampleFormat|
            device_format_of(c) == fmt),
{
    if device_format_of(core_format_of(fmt)) == fmt {
        assert(device_format_of(core_format_of(fmt)) == fmt);
    } else {
        assert forall|c: SampleFormat| device_format_of(c) != fmt by {
            if device_format_of(c) == fmt {
                assert(core_format_of(device_format_of(c)) == c);
            }
        }
    }
}

} // verus!
