//! The device-layer vocabulary: host APIs, sample formats, stream
//! configurations, device descriptions, device events and errors.
use vstd::prelude::*;

verus! {

/// An audio host API.
#[derive(Clone, Copy, Debug, PartialEq, Eq, Structural)]
pub enum HostApi {
    CoreAudio,
    Wasapi,
    Alsa,
    Jack,
    Asio,
    PipeWire,
    PulseAudio,
}

/// A sample format a stream can be negotiated to.
#[derive(Clone, Copy, Debug, PartialEq, Eq, Structural)]
pub enum SampleFormat {
    F32,
    F64,
    I16,
    I32,
    U8,
    I24,
}

/// A device-layer error.
#[derive(Debug)]
pub enum OxiSoundError {
    Device(String),
    NoDevice,
    UnsupportedConfig(String),
    Disconnected(String),
    Stream(String),
    Unsupported(String),
    FormatMismatch(String),
}

/// The mathematical value of an [`OxiSoundError`]: its kind and message text.
pub enum ErrorView {
    Device(Seq<char>),
    NoDevice,
    UnsupportedConfig(Seq<char>),
    Disconnected(Seq<char>),
    Stream(Seq<char>),
    Unsupported(Seq<char>),
    FormatMismatch(Seq<char>),
}

impl View for OxiSoundError {
    type V = ErrorView;

    open spec fn view(&self) -> ErrorView {
        match self {
            OxiSoundError::Device(m) => ErrorView::Device(m@),
            OxiSoundError::NoDevice => ErrorView::NoDevice,
            OxiSoundError::UnsupportedConfig(m) => ErrorView::UnsupportedConfig(m@),
            OxiSoundError::Disconnected(m) => ErrorView::Disconnected(m@),
            OxiSoundError::Stream(m) => ErrorView::Stream(m@),
            OxiSoundError::Unsupported(m) => ErrorView::Unsupported(m@),
            OxiSoundError::FormatMismatch(m) => ErrorView::FormatMismatch(m@),
        }
    }
}

/// The parts of a stream request that device negotiation reads.
#[derive(Debug)]
pub struct StreamConfig {
    pub sample_rate: u32,
    pub channels: u16,
    pub buffer_size: Option<u32>,
    pub sample_format: Option<SampleFormat>,
    pub preferred_formats: Vec<SampleFormat>,
    pub exclusive: bool,
}

/// The configuration a stream was negotiated to.
#[derive(Clone, Copy, Debug, PartialEq, Eq, Structural)]
pub struct NegotiatedConfig {
    pub sample_rate: u32,
    pub channels: u16,
    pub buffer_size: u32,
    pub sample_format: SampleFormat,
}

/// A description of an audio device.
#[derive(Debug)]
pub struct DeviceInfo {
    pub name: String,
    pub is_default: bool,
    pub sample_rates: Vec<u32>,
    pub channel_counts: Vec<u16>,
    pub is_input: bool,
    pub is_output: bool,
}

/// The mathematical value of a [`DeviceInfo`].
pub struct DeviceInfoView {
    pub name: Seq<char>,
    pub is_default: bool,
    pub sample_rates: Seq<u32>,
    pub channel_counts: Seq<u16>,
    pub is_input: bool,
    pub is_output: bool,
}

impl View for DeviceInfo {
    type V = DeviceInfoView;

    open spec fn view(&self) -> DeviceInfoView {
        DeviceInfoView {
            name: self.name@,
            is_default: self.is_default,
            sample_rates: self.sample_rates@,
            channel_counts: self.channel_counts@,
            is_input: self.is_input,
            is_output: self.is_output,
        }
    }
}

impl DeviceInfo {
    /// A description holding only a name: not default, no rates or channel
    /// counts, neither input nor output.
    pub fn named(name: String) -> (info: DeviceInfo)
        ensures
            info@ == named_view(name@),
    {
        DeviceInfo {
            name,
            is_default: false,
            sample_rates: Vec::new(),
            channel_counts: Vec::new(),
            is_input: false,
            is_output: false,
        }
    }
}

/// A change in the set of available devices.
#[derive(Debug)]
pub enum DeviceEvent {
    DeviceAdded(DeviceInfo),
    DeviceRemoved(String),
}

/// The mathematical value of a [`DeviceEvent`].
pub enum DeviceEventView {
    DeviceAdded(DeviceInfoView),
    DeviceRemoved(Seq<char>),
}

impl View for DeviceEvent {
    type V = DeviceEventView;

    open spec fn view(&self) -> DeviceEventView {
        match self {
            DeviceEvent::DeviceAdded(info) => DeviceEventView::DeviceAdded(info@),
            DeviceEvent::DeviceRemoved(name) => DeviceEventView::DeviceRemoved(name@),
        }
    }
}

/// The description of a device known only by name.
pub open spec fn named_view(name: Seq<char>) -> DeviceInfoView {
    DeviceInfoView {
        name,
        is_default: false,
        sample_rates: Seq::empty(),
        channel_counts: Seq::empty(),
        is_input: false,
        is_output: false,
    }
}

} // verus!
