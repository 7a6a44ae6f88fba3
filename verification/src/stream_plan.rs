//! Decisions taken when opening a stream: which sample type the stream's
//! buffers use, the period of one buffer, the retry schedule, and how a
//! stream error is handled.
use vstd::prelude::*;
use crate::core_types::{ErrorView, OxiSoundError};
use crate::error::DeviceSampleFormat;
use crate::text::concat;

verus! {

/// The sample type a stream's buffers are typed with.
#[derive(Clone, Copy, Debug, PartialEq, Eq, Structural)]
pub enum StreamSampleType {
    F32,
    F64,
    I8,
    I16,
    I32,
    U8,
    U16,
}

/// The name of a backend sample format, as its `Debug` form prints it.
pub open spec fn format_name_spec(f: DeviceSampleFormat) -> Seq<char> {
    match f {
        DeviceSampleFormat::I8 => "I8"@,
        DeviceSampleFormat::I16 => "I16"@,
        DeviceSampleFormat::I24 => "I24"@,
        DeviceSampleFormat::I32 => "I32"@,
        DeviceSampleFormat::I64 => "I64"@,
        DeviceSampleFormat::U8 => "U8"@,
        DeviceSampleFormat::U16 => "U16"@,
        DeviceSampleFormat::U24 => "U24"@,
        DeviceSampleFormat::U32 => "U32"@,
        DeviceSampleFormat::U64 => "U64"@,
        DeviceSampleFormat::F32 => "F32"@,
        DeviceSampleFormat::F64 => "F64"@,
        DeviceSampleFormat::DsdU8 => "DsdU8"@,
        DeviceSampleFormat::DsdU16 => "DsdU16"@,
        DeviceSampleFormat::DsdU32 => "DsdU32"@,
        DeviceSampleFormat::Unknown => "Unknown"@,
    }
}

/// The name of a backend sample format.
pub fn format_name(f: DeviceSampleFormat) -> (s: &'static str)
    ensures
        s@ == format_name_spec(f),
{
    match f {
        DeviceSampleFormat::I8 => "I8",
        DeviceSampleFormat::I16 => "I16",
        DeviceSampleFormat::I24 => "I24",
        DeviceSampleFormat::I32 => "I32",
        DeviceSampleFormat::I64 => "I64",
        DeviceSampleFormat::U8 => "U8",
        DeviceSampleFormat::U16 => "U16",
        DeviceSampleFormat::U24 => "U24",
        DeviceSampleFormat::U32 => "U32",
        DeviceSampleFormat::U64 => "U64",
        DeviceSampleFormat::F32 => "F32",
        DeviceSampleFormat::F64 => "F64",
        DeviceSampleFormat::DsdU8 => "DsdU8",
        DeviceSampleFormat::DsdU16 => "DsdU16",
        DeviceSampleFormat::DsdU32 => "DsdU32",
        DeviceSampleFormat::Unknown => "Unknown",
    }
}

/// The sample type of a ring-buffered output or input stream opened with
/// `fmt` (24-bit samples travel as `i32`); `None` for the formats such
/// streams do not support.
pub open spec fn buffered_sample_type(fmt: DeviceSampleFormat) -> Option<StreamSampleType> {
    match fmt {
        DeviceSampleFormat::F32 => Some(StreamSampleType::F32),
        DeviceSampleFormat::I16 => Some(StreamSampleType::I16),
        DeviceSampleFormat::U16 => Some(StreamSampleType::U16),
        DeviceSampleFormat::I8 => Some(StreamSampleType::I8),
        DeviceSampleFormat::I32 => Some(StreamSampleType::I32),
        DeviceSampleFormat::I24 => Some(StreamSampleType::I32),
        DeviceSampleFormat::F64 => Some(StreamSampleType::F64),
        DeviceSampleFormat::U8 => Some(StreamSampleType::U8),
        _ => None,
    }
}

/// The sample type of either half of a duplex stream opened with `fmt`.
pub open spec fn duplex_sample_type(fmt: DeviceSampleFormat) -> Option<StreamSampleType> {
    match fmt {
        DeviceSampleFormat::F32 => Some(StreamSampleType::F32),
        DeviceSampleFormat::I16 => Some(StreamSampleType::I16),
        DeviceSampleFormat::I32 => Some(StreamSampleType::I32),
        DeviceSampleFormat::I24 => Some(StreamSampleType::I32),
        DeviceSampleFormat::F64 => Some(StreamSampleType::F64),
        _ => None,
    }
}

/// The sample type of an asynchronous input stream opened with `fmt`.
pub open spec fn async_input_sample_type(fmt: DeviceSampleFormat) -> Option<StreamSampleType> {
    match fmt {
        DeviceSampleFormat::F32 => Some(StreamSampleType::F32),
        DeviceSampleFormat::I16 => Some(StreamSampleType::I16),
        DeviceSampleFormat::I24 => Some(StreamSampleType::I32),
        DeviceSampleFormat::I32 => Some(StreamSampleType::I32),
        _ => None,
    }
}

/// Which kind of stream is being opened.
#[derive(Clone, Copy, Debug, PartialEq, Eq, Structural)]
pub enum StreamKind {
    Output,
    Input,
    DuplexOutput,
    DuplexInput,
    AsyncInput,
}

/// The sample type a stream of kind `kind` uses for `fmt`.
pub open spec fn stream_sample_type_spec(kind: StreamKind, fmt: DeviceSampleFormat) -> Option<
    StreamSampleType,
> {
    match kind {
        StreamKind::Output | StreamKind::Input => buffered_sample_type(fmt),
        StreamKind::DuplexOutput | StreamKind::DuplexInput => duplex_sample_type(fmt),
        StreamKind::AsyncInput => async_input_sample_type(fmt),
    }
}

/// The start of the error message for an unsupported format.
pub open spec fn unsupported_prefix(kind: StreamKind) -> Seq<char> {
    match kind {
        StreamKind::Output => "unsupported output sample format: "@,
        StreamKind::Input => "unsupported input sample format: "@,
        StreamKind::DuplexOutput => "duplex output: unsupported sample format "@,
        StreamKind::DuplexInput => "duplex input: unsupported sample format "@,
        StreamKind::AsyncInput => "async input: unsupported sample format "@,
    }
}

/// The sample type a stream of kind `kind` opened with `fmt` uses, or the
/// unsupported-configuration error naming the format.
pub fn stream_sample_type(kind: StreamKind, fmt: DeviceSampleFormat) -> (r: Result<
    StreamSampleType,
    OxiSoundError,
>)
    ensures
        match stream_sample_type_spec(kind, fmt) {
            Some(t) => r == Ok::<StreamSampleType, OxiSoundError>(t),
            None => r matches Err(e) && e@ == ErrorView::UnsupportedConfig(
                unsupported_prefix(kind) + format_name_spec(fmt),
            ),
        },
{
    let t = match kind {
        StreamKind::Output | StreamKind::Input => match fmt {
            DeviceSampleFormat::F32 => Some(StreamSampleType::F32),
            DeviceSampleFormat::I16 => Some(StreamSampleType::I16),
            DeviceSampleFormat::U16 => Some(StreamSampleType::U16),
            DeviceSampleFormat::I8 => Some(StreamSampleType::I8),
            DeviceSampleFormat::I32 => Some(StreamSampleType::I32),
            DeviceSampleFormat::I24 => Some(StreamSampleType::I32),
            DeviceSampleFormat::F64 => Some(StreamSampleType::F64),
            DeviceSampleFormat::U8 => Some(StreamSampleType::U8),
            _ => None,
        },
        StreamKind::DuplexOutput | StreamKind::DuplexInput => match fmt {
            DeviceSampleFormat::F32 => Some(StreamSampleType::F32),
            DeviceSampleFormat::I16 => Some(StreamSampleType::I16),
            DeviceSampleFormat::I32 => Some(StreamSampleType::I32),
            DeviceSampleFormat::I24 => Some(StreamSampleType::I32),
            DeviceSampleFormat::F64 => Some(StreamSampleType::F64),
            _ => None,
        },
        StreamKind::AsyncInput => match fmt {
            DeviceSampleFormat::F32 => Some(StreamSampleType::F32),
            DeviceSampleFormat::I16 => Some(StreamSampleType::I16),
            DeviceSampleFormat::I24 | DeviceSampleFormat::I32 => Some(StreamSampleType::I32),
            _ => None,
        },
    };
    match t {
        Some(t) => Ok(t),
        None => {
            let prefix = match kind {
                StreamKind::Output => "unsupported output sample format: ",
                StreamKind::Input => "unsupported input sample format: ",
                StreamKind::DuplexOutput => "duplex output: unsupported sample format ",
                StreamKind::DuplexInput => "duplex input: unsupported sample format ",
                StreamKind::AsyncInput => "async input: unsupported sample format ",
            };
            Err(OxiSoundError::UnsupportedConfig(concat(prefix, format_name(fmt))))
        },
    }
}

/// The duration of one buffer in nanoseconds: `buffer_size` frames (512 when
/// unset) at `sample_rate`, rounded down; 0 when the rate is 0.
pub open spec fn buffer_period_ns_spec(buffer_size: Option<u32>, sample_rate: u32) -> u64 {
    let frames: int = match buffer_size {
        Some(b) => b as int,
        None => 512,
    };
    if sample_rate == 0 {
        0
    } else {
        ((frames * 1_000_000_000) / (sample_rate as int)) as u64
    }
}

/// The duration of one buffer in nanoseconds.
pub fn buffer_period_ns(buffer_size: Option<u32>, sample_rate: u32) -> (ns: u64)
    ensures
        ns == buffer_period_ns_spec(buffer_size, sample_rate),
{
    let buffer_frames: u64 = match buffer_size {
        Some(b) => b as u64,
        None => 512,
    };
    assert(buffer_frames * 1_000_000_000 <= u64::MAX) by (nonlinear_arith)
        requires
            buffer_frames <= u32::MAX,
    ;
    let total = buffer_frames * 1_000_000_000u64;
    match total.checked_div(sample_rate as u64) {
        Some(ns) => ns,
        None => 0,
    }
}

/// The pause before retry number `attempt` (counting from 0) when opening a
/// stream fails: 10, 50, 200 and 1000 ms, then no further pause (the last
/// attempt's result stands).
pub open spec fn retry_delay_spec(attempt: int) -> Option<u64> {
    if attempt == 0 {
        Some(10)
    } else if attempt == 1 {
        Some(50)
    } else if attempt == 2 {
        Some(200)
    } else if attempt == 3 {
        Some(1000)
    } else {
        None
    }
}

/// The pause before retry number `attempt` (see [`retry_delay_spec`]).
pub fn retry_delay_ms(attempt: usize) -> (d: Option<u64>)
    ensures
        d == retry_delay_spec(attempt as int),
{
    let delays: [u64; 4] = [10, 50, 200, 1000];
    if attempt < 4 {
        Some(delays[attempt])
    } else {
        None
    }
}

/// The retry pauses grow: each is longer than the one before.
pub proof fn law_retry_backoff_grows(attempt: int)
    requires
        0 < attempt,
        retry_delay_spec(attempt) is Some,
    ensures
        retry_delay_spec(attempt - 1) matches Some(prev) && prev < retry_delay_spec(attempt)->0,
{
}

/// What went wrong in a running stream, as the backend reports it.
#[derive(Clone, Copy, Debug, PartialEq, Eq, Structural)]
pub enum StreamErrorKind {
    DeviceNotAvailable,
    StreamInvalidated,
    BackendError,
    Xrun,
    Other,
}

/// How a running stream reacts to an error.
#[derive(Clone, Copy, Debug, PartialEq, Eq, Structural)]
pub enum StreamErrorAction {
    /// Mark the stream disconnected and log the error.
    MarkDisconnected,
    /// Log a buffer underrun warning.
    WarnUnderrun,
    /// Log the error.
    LogError,
}

/// How a running stream reacts to an error of kind `kind`.
pub fn classify_stream_error(kind: StreamErrorKind) -> (a: StreamErrorAction)
    ensures
        a == match kind {
            StreamErrorKind::DeviceNotAvailable | StreamErrorKind::StreamInvalidated
            | StreamErrorKind::BackendError => StreamErrorAction::MarkDisconnected,
            StreamErrorKind::Xrun => StreamErrorAction::WarnUnderrun,
            StreamErrorKind::Other => StreamErrorAction::LogError,
        },
{
    match kind {
        StreamErrorKind::DeviceNotAvailable | StreamErrorKind::StreamInvalidated
        | StreamErrorKind::BackendError => StreamErrorAction::MarkDisconnected,
        StreamErrorKind::Xrun => StreamErrorAction::WarnUnderrun,
        StreamErrorKind::Other => StreamErrorAction::LogError,
    }
}

} // verus!
