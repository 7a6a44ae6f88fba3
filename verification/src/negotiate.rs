//! Output-format negotiation: which sample format, rate, channel count and
//! buffer size a stream request settles on, given what the device supports.
use vstd::prelude::*;
use crate::core_types::{ErrorView, NegotiatedConfig, OxiSoundError, SampleFormat, StreamConfig};
use crate::error::{
    core_format_of, cpal_to_core_format, core_to_cpal_format, device_format_of, BackendError,
    DeviceSampleFormat,
};
use crate::text::{concat, decimal, decimal_text};

verus! {

/// The buffer sizes a device supports, as the audio backend reports them.
#[derive(Clone, Copy, Debug, PartialEq, Eq, Structural)]
pub enum SupportedBufferSize {
    Range { min: u32, max: u32 },
    Unknown,
}

/// One range of stream configurations a device supports.
#[derive(Clone, Copy, Debug, PartialEq, Eq, Structural)]
pub struct ConfigRange {
    pub channels: u16,
    pub min_sample_rate: u32,
    pub max_sample_rate: u32,
    pub buffer_size: SupportedBufferSize,
    pub sample_format: DeviceSampleFormat,
}

/// The buffer size to use with a supported-size report: its minimum, or 512 frames when unknown.
pub open spec fn buffer_frames_of(b: SupportedBufferSize) -> u32 {
    match b {
        SupportedBufferSize::Range { min, .. } => min,
        SupportedBufferSize::Unknown => 512,
    }
}

/// The device's recommended output buffer size from its default output
/// configuration: the minimum of the supported range, or 512 when unknown.
pub fn optimal_buffer_size(default_config: Result<SupportedBufferSize, BackendError>) -> (r: Result<
    u32,
    OxiSoundError,
>)
    ensures
        match default_config {
            Ok(b) => r == Ok::<u32, OxiSoundError>(buffer_frames_of(b)),
            Err(e) => r matches Err(err) && err@ == ErrorView::Device(e.message@),
        },
{
    match default_config {
        Ok(SupportedBufferSize::Range { min, .. }) => Ok(min),
        Ok(SupportedBufferSize::Unknown) => Ok(512),
        Err(e) => Err(OxiSoundError::Device(e.message)),
    }
}

// ─── format preference ───────────────────────────────────────────────────────

/// The format to use: the first preferred format that is supported, else the
/// first supported format, else none.
pub open spec fn pick_spec(preferred: Seq<SampleFormat>, supported: Seq<SampleFormat>) -> Option<
    SampleFormat,
>
    decreases preferred.len(),
{
    if preferred.len() == 0 {
        if supported.len() == 0 {
            None
        } else {
            Some(supported[0])
        }
    } else if supported.contains(preferred[0]) {
        Some(preferred[0])
    } else {
        pick_spec(preferred.subrange(1, preferred.len() as int), supported)
    }
}

/// True when `v` holds `f`.
fn holds_format(v: &Vec<SampleFormat>, f: SampleFormat) -> (b: bool)
    ensures
        b == v@.contains(f),
{
    let mut i: usize = 0;
    while i < v.len()
        invariant
            i <= v@.len(),
            forall|k: int| 0 <= k < i ==> v@[k] != f,
        decreases v@.len() - i,
    {
        if v[i] == f {
            return true;
        }
        i = i + 1;
    }
    false
}

/// Picks a sample format by preference: the first entry of `preferred` that
/// `supported` holds, falling back to the first supported format.
pub fn pick_preferred_format(preferred: &Vec<SampleFormat>, supported: &Vec<SampleFormat>) -> (r:
    Option<SampleFormat>)
    ensures
        r == pick_spec(preferred@, supported@),
{
    let mut i: usize = 0;
    assert(preferred@.subrange(0, preferred@.len() as int) =~= preferred@);
    while i < preferred.len()
        invariant
            i <= preferred@.len(),
            pick_spec(preferred@, supported@) == pick_spec(
                preferred@.subrange(i as int, preferred@.len() as int),
                supported@,
            ),
        decreases preferred@.len() - i,
    {
        let p = preferred[i];
        let ghost rest = preferred@.subrange(i as int, preferred@.len() as int);
        assert(rest.subrange(1, rest.len() as int) =~= preferred@.subrange(
            i + 1,
            preferred@.len() as int,
        ));
        if holds_format(supported, p) {
            return Some(p);
        }
        i = i + 1;
    }
    if supported.len() == 0 {
        None
    } else {
        Some(supported[0])
    }
}

// ─── negotiation ─────────────────────────────────────────────────────────────

/// True when a supported range offers the requested rate and channel count.
pub open spec fn range_matches(r: ConfigRange, sample_rate: u32, channels: u16) -> bool {
    r.min_sample_rate <= sample_rate <= r.max_sample_rate && r.channels == channels
}

/// True when some supported range offers the requested rate and channel count.
pub fn config_supported(ranges: &Vec<ConfigRange>, sample_rate: u32, channels: u16) -> (b: bool)
    ensures
        b == exists|i: int| 0 <= i < ranges@.len() && range_matches(#[trigger] ranges@[i], sample_rate, channels),
{
    let mut i: usize = 0;
    while i < ranges.len()
        invariant
            i <= ranges@.len(),
            forall|k: int| 0 <= k < i ==> !range_matches(#[trigger] ranges@[k], sample_rate, channels),
        decreases ranges@.len() - i,
    {
        let r = ranges[i];
        if sample_rate >= r.min_sample_rate && sample_rate <= r.max_sample_rate && r.channels
            == channels {
            assert(range_matches(ranges@[i as int], sample_rate, channels));
            return true;
        }
        i = i + 1;
    }
    false
}

/// The distinct device-layer formats of the matching ranges, in order of first appearance.
pub open spec fn matching_formats(ranges: Seq<ConfigRange>, sample_rate: u32, channels: u16) -> Seq<
    SampleFormat,
>
    decreases ranges.len(),
{
    if ranges.len() == 0 {
        Seq::empty()
    } else {
        let prev = matching_formats(ranges.drop_last(), sample_rate, channels);
        let r = ranges.last();
        let f = core_format_of(r.sample_format);
        if range_matches(r, sample_rate, channels) && !prev.contains(f) {
            prev.push(f)
        } else {
            prev
        }
    }
}

/// The buffer size of the first matching range.
pub open spec fn first_buffer_frames(ranges: Seq<ConfigRange>, sample_rate: u32, channels: u16) -> Option<
    u32,
>
    decreases ranges.len(),
{
    if ranges.len() == 0 {
        None
    } else {
        let prev = first_buffer_frames(ranges.drop_last(), sample_rate, channels);
        if prev is Some {
            prev
        } else if range_matches(ranges.last(), sample_rate, channels) {
            Some(buffer_frames_of(ranges.last().buffer_size))
        } else {
            None
        }
    }
}

/// The formats a request ranks: its preferred formats, then its single format hint.
pub open spec fn ranked_formats(preferred: Seq<SampleFormat>, hint: Option<SampleFormat>) -> Seq<
    SampleFormat,
> {
    match hint {
        Some(f) => preferred.push(f),
        None => preferred,
    }
}

/// The message for a request that no supported range matches.
pub open spec fn no_config_message(sample_rate: u32, channels: u16) -> Seq<char> {
    "no supported output config for "@ + decimal(sample_rate as nat) + "Hz "@ + decimal(
        channels as nat,
    ) + "ch"@
}

/// What negotiating a request against the supported ranges gives.
pub open spec fn negotiate_spec(
    sample_rate: u32,
    channels: u16,
    buffer_size: Option<u32>,
    ranked: Seq<SampleFormat>,
    ranges: Seq<ConfigRange>,
) -> Result<NegotiatedConfig, ErrorView> {
    let formats = matching_formats(ranges, sample_rate, channels);
    if formats.len() == 0 {
        Err(ErrorView::FormatMismatch(no_config_message(sample_rate, channels)))
    } else {
        match pick_spec(ranked, formats) {
            None => Err(ErrorView::FormatMismatch("no negotiable output format"@)),
            Some(f) => Ok(
                NegotiatedConfig {
                    sample_rate,
                    channels,
                    buffer_size: match buffer_size {
                        Some(b) => b,
                        None => match first_buffer_frames(ranges, sample_rate, channels) {
                            Some(b) => b,
                            None => 512,
                        },
                    },
                    sample_format: f,
                },
            ),
        }
    }
}

/// Negotiates an output configuration: collects the distinct formats of the
/// supported ranges that offer the requested rate and channel count, ranks
/// them by the request's preferences, and takes the buffer size from the
/// request or else from the first matching range.
pub fn negotiate_output_from(
    config: &StreamConfig,
    supported: Result<Vec<ConfigRange>, BackendError>,
) -> (r: Result<NegotiatedConfig, OxiSoundError>)
    ensures
        match supported {
            Err(e) => r matches Err(err) && err@ == ErrorView::Device(e.message@),
            Ok(ranges) => match r {
                Ok(n) => negotiate_spec(
                    config.sample_rate,
                    config.channels,
                    config.buffer_size,
                    ranked_formats(config.preferred_formats@, config.sample_format),
                    ranges@,
                ) == Ok::<NegotiatedConfig, ErrorView>(n),
                Err(err) => negotiate_spec(
                    config.sample_rate,
                    config.channels,
                    config.buffer_size,
                    ranked_formats(config.preferred_formats@, config.sample_format),
                    ranges@,
                ) == Err::<NegotiatedConfig, ErrorView>(err@),
            },
        },
{
    let ranges = match supported {
        Ok(v) => v,
        Err(e) => return Err(OxiSoundError::Device(e.message)),
    };
    let mut formats: Vec<SampleFormat> = Vec::new();
    let mut buf_size: Option<u32> = None;
    let mut i: usize = 0;
    while i < ranges.len()
        invariant
            i <= ranges@.len(),
            formats@ == matching_formats(
                ranges@.subrange(0, i as int),
                config.sample_rate,
                config.channels,
            ),
            buf_size == first_buffer_frames(
                ranges@.subrange(0, i as int),
                config.sample_rate,
                config.channels,
            ),
        decreases ranges@.len() - i,
    {
        let sc = ranges[i];
        assert(ranges@.subrange(0, i + 1).drop_last() =~= ranges@.subrange(0, i as int));
        if config.sample_rate >= sc.min_sample_rate && config.sample_rate <= sc.max_sample_rate
            && sc.channels == config.channels {
            let fmt = cpal_to_core_format(sc.sample_format);
            if !holds_format(&formats, fmt) {
                formats.push(fmt);
            }
            if buf_size.is_none() {
                buf_size = match sc.buffer_size {
                    SupportedBufferSize::Range { min, .. } => Some(min),
                    SupportedBufferSize::Unknown => Some(512),
                };
            }
        }
        i = i + 1;
    }
    assert(ranges@.subrange(0, ranges@.len() as int) =~= ranges@);
    if formats.len() > 0 {
        // Preference order: ranked `preferred_formats` first, then the single
        // `sample_format` hint (if any).
        let mut preferred: Vec<SampleFormat> = Vec::new();
        let mut k: usize = 0;
        while k < config.preferred_formats.len()
            invariant
                k <= config.preferred_formats@.len(),
                preferred@ == config.preferred_formats@.subrange(0, k as int),
            decreases config.preferred_formats@.len() - k,
        {
            preferred.push(config.preferred_formats[k]);
            k = k + 1;
        }
        assert(config.preferred_formats@.subrange(0, config.preferred_formats@.len() as int)
            =~= config.preferred_formats@);
        if let Some(hint) = config.sample_format {
            preferred.push(hint);
        }
        let chosen = match pick_preferred_format(&preferred, &formats) {
            Some(f) => f,
            None => {
                return Err(OxiSoundError::FormatMismatch("no negotiable output format".to_owned()));
            },
        };
        let buffer_size = match config.buffer_size {
            Some(b) => b,
            None => match buf_size {
                Some(b) => b,
                None => 512,
            },
        };
        return Ok(
            NegotiatedConfig {
                sample_rate: config.sample_rate,
                channels: config.channels,
                buffer_size,
                sample_format: chosen,
            },
        );
    }
    let rate_text = decimal_text(config.sample_rate as u64);
    let channel_text = decimal_text(config.channels as u64);
    let m1 = concat("no supported output config for ", rate_text.as_str());
    let m2 = concat(m1.as_str(), "Hz ");
    let m3 = concat(m2.as_str(), channel_text.as_str());
    let m4 = concat(m3.as_str(), "ch");
    Err(OxiSoundError::FormatMismatch(m4))
}

/// The backend format to open an output stream with: the default
/// configuration's format when the request ranks no formats, else the
/// negotiated format (falling back to the default format when negotiation fails).
pub open spec fn open_format_spec(
    preferred: Seq<SampleFormat>,
    default_format: DeviceSampleFormat,
    negotiated: Result<NegotiatedConfig, ErrorView>,
) -> DeviceSampleFormat {
    if preferred.len() == 0 {
        default_format
    } else {
        match negotiated {
            Ok(n) => device_format_of(n.sample_format),
            Err(_) => default_format,
        }
    }
}

/// The backend format to open an output stream with (see [`open_format_spec`]).
pub fn choose_open_format(
    config: &StreamConfig,
    default_format: DeviceSampleFormat,
    supported: Result<Vec<ConfigRange>, BackendError>,
) -> (f: DeviceSampleFormat)
    ensures
        config.preferred_formats@.len() == 0 ==> f == default_format,
        config.preferred_formats@.len() > 0 ==> match supported {
            Err(_) => f == default_format,
            Ok(ranges) => f == open_format_spec(
                config.preferred_formats@,
                default_format,
                negotiate_spec(
                    config.sample_rate,
                    config.channels,
                    config.buffer_size,
                    ranked_formats(config.preferred_formats@, config.sample_format),
                    ranges@,
                ),
            ),
        },
{
    if config.preferred_formats.len() == 0 {
        default_format
    } else {
        match negotiate_output_from(config, supported) {
            Ok(neg) => core_to_cpal_format(neg.sample_format),
            Err(_) => default_format,
        }
    }
}


// ─── laws ────────────────────────────────────────────────────────────────────

/// A format is among the matching formats exactly when some matching range has it.
proof fn lemma_matching_formats(ranges: Seq<ConfigRange>, sample_rate: u32, channels: u16)
    ensures
        forall|f: SampleFormat|
            #![trigger matching_formats(ranges, sample_rate, channels).contains(f)]
            matching_formats(ranges, sample_rate, channels).contains(f) <==> exists|i: int|
                0 <= i < ranges.len() && range_matches(ranges[i], sample_rate, channels)
                    && core_format_of(ranges[i].sample_format) == f,
    decreases ranges.len(),
{
    if ranges.len() > 0 {
        let prefix = ranges.drop_last();
        lemma_matching_formats(prefix, sample_rate, channels);
        let last = ranges.len() - 1;
        assert forall|f: SampleFormat|
            #![trigger matching_formats(ranges, sample_rate, channels).contains(f)]
            matching_formats(ranges, sample_rate, channels).contains(f) <==> exists|i: int|
                0 <= i < ranges.len() && range_matches(ranges[i], sample_rate, channels)
                    && core_format_of(ranges[i].sample_format) == f by {
            let prev = matching_formats(prefix, sample_rate, channels);
            if prev.contains(f) {
                let i = choose|i: int|
                    0 <= i < prefix.len() && range_matches(prefix[i], sample_rate, channels)
                        && core_format_of(prefix[i].sample_format) == f;
                assert(ranges[i] == prefix[i]);
            }
            if exists|i: int|
                0 <= i < ranges.len() && range_matches(ranges[i], sample_rate, channels)
                    && core_format_of(ranges[i].sample_format) == f {
                let i = choose|i: int|
                    0 <= i < ranges.len() && range_matches(ranges[i], sample_rate, channels)
                        && core_format_of(ranges[i].sample_format) == f;
                if i < last {
                    assert(prefix[i] == ranges[i]);
                }
            }
            let cur = matching_formats(ranges, sample_rate, channels);
            if cur != prev {
                assert(cur == prev.push(core_format_of(ranges[last].sample_format)));
                assert(cur.contains(f) <==> (prev.contains(f) || f == core_format_of(
                    ranges[last].sample_format,
                ))) by {
                    if cur.contains(f) && !prev.contains(f) {
                        let k = choose|k: int| 0 <= k < cur.len() && cur[k] == f;
                        if k < prev.len() {
                            assert(prev[k] == f);
                        }
                    }
                    if prev.contains(f) {
                        let k = choose|k: int| 0 <= k < prev.len() && prev[k] == f;
                        assert(cur[k] == f);
                    }
                    if f == core_format_of(ranges[last].sample_format) {
                        assert(cur[prev.len() as int] == f);
                    }
                }
            }
        }
    }
}

/// The pick is a supported format, and there is one whenever any format is supported.
proof fn lemma_pick(preferred: Seq<SampleFormat>, supported: Seq<SampleFormat>)
    ensures
        pick_spec(preferred, supported) matches Some(f) ==> supported.contains(f),
        supported.len() > 0 ==> pick_spec(preferred, supported) is Some,
    decreases preferred.len(),
{
    if preferred.len() == 0 {
        if supported.len() > 0 {
            assert(supported[0] == supported[0]);
            assert(supported.contains(supported[0]));
        }
    } else if !supported.contains(preferred[0]) {
        lemma_pick(preferred.subrange(1, preferred.len() as int), supported);
    }
}

/// Negotiation succeeds exactly when some supported range offers the
/// requested rate and channel count; the result keeps the requested rate and
/// channel count, and its format is that of such a range.
pub proof fn law_negotiation_outcome(
    sample_rate: u32,
    channels: u16,
    buffer_size: Option<u32>,
    ranked: Seq<SampleFormat>,
    ranges: Seq<ConfigRange>,
)
    ensures
        negotiate_spec(sample_rate, channels, buffer_size, ranked, ranges) is Ok <==> exists|i: int|
            0 <= i < ranges.len() && range_matches(ranges[i], sample_rate, channels),
        negotiate_spec(sample_rate, channels, buffer_size, ranked, ranges) matches Ok(n) ==> {
            &&& n.sample_rate == sample_rate
            &&& n.channels == channels
            &&& exists|i: int|
                0 <= i < ranges.len() && range_matches(ranges[i], sample_rate, channels)
                    && core_format_of(ranges[i].sample_format) == n.sample_format
        },
{
    let formats = matching_formats(ranges, sample_rate, channels);
    lemma_matching_formats(ranges, sample_rate, channels);
    lemma_pick(ranked, formats);
    if exists|i: int| 0 <= i < ranges.len() && range_matches(ranges[i], sample_rate, channels) {
        let i = choose|i: int| 0 <= i < ranges.len() && range_matches(ranges[i], sample_rate, channels);
        assert(formats.contains(core_format_of(ranges[i].sample_format)));
    }
    if formats.len() > 0 {
        assert(formats.contains(formats[0]));
    }
    if let Some(f) = pick_spec(ranked, formats) {
        assert(formats.contains(f));
    }
}

/// A ranked format that some matching range supports wins over every format
/// ranked after it.
pub proof fn law_first_ranked_supported_wins(
    sample_rate: u32,
    channels: u16,
    buffer_size: Option<u32>,
    ranked: Seq<SampleFormat>,
    ranges: Seq<ConfigRange>,
    k: int,
)
    requires
        0 <= k < ranked.len(),
        exists|i: int|
            0 <= i < ranges.len() && range_matches(ranges[i], sample_rate, channels)
                && core_format_of(ranges[i].sample_format) == ranked[k],
        forall|j: int| 0 <= j < k ==> !(exists|i: int|
            0 <= i < ranges.len() && range_matches(ranges[i], sample_rate, channels)
                && core_format_of(ranges[i].sample_format) == #[trigger] ranked[j]),
    ensures
        negotiate_spec(sample_rate, channels, buffer_size, ranked, ranges) matches Ok(n)
            && n.sample_format == ranked[k],
{
    let formats = matching_formats(ranges, sample_rate, channels);
    lemma_matching_formats(ranges, sample_rate, channels);
    assert(formats.contains(ranked[k]));
    assert(formats.len() > 0);
    lemma_pick_first_supported(ranked, formats, k);
}

/// The pick is the first preferred format that is supported.
proof fn lemma_pick_first_supported(preferred: Seq<SampleFormat>, supported: Seq<SampleFormat>, k: int)
    requires
        0 <= k < preferred.len(),
        supported.contains(preferred[k]),
        forall|j: int| 0 <= j < k ==> !supported.contains(#[trigger] preferred[j]),
    ensures
        pick_spec(preferred, supported) == Some(preferred[k]),
    decreases k,
{
    if k > 0 {
        assert(!supported.contains(preferred[0]));
        let rest = preferred.subrange(1, preferred.len() as int);
        assert forall|j: int| 0 <= j < k - 1 implies !supported.contains(#[trigger] rest[j]) by {
            assert(rest[j] == preferred[j + 1]);
        }
        assert(rest[k - 1] == preferred[k]);
        lemma_pick_first_supported(rest, supported, k - 1);
    }
}


/// True when some supported range offers the requested rate and channel
/// count in a format that maps to `f`.
pub open spec fn offered(ranges: Seq<ConfigRange>, sample_rate: u32, channels: u16, f: SampleFormat) -> bool {
    exists|i: int|
        0 <= i < ranges.len() && ranges[i].min_sample_rate <= sample_rate
            <= ranges[i].max_sample_rate && ranges[i].channels == channels && core_format_of(
            ranges[i].sample_format,
        ) == f
}

/// The request's preferred formats rank before its single format hint: when
/// some preferred format is offered, negotiation settles on the first offered
/// entry of the preferred list, whatever the hint is, and keeps the
/// requested rate and channel count.
pub proof fn law_preferred_formats_before_hint(
    sample_rate: u32,
    channels: u16,
    buffer_size: Option<u32>,
    preferred: Seq<SampleFormat>,
    hint: Option<SampleFormat>,
    ranges: Seq<ConfigRange>,
    k: int,
)
    requires
        0 <= k < preferred.len(),
        offered(ranges, sample_rate, channels, preferred[k]),
        forall|j: int| 0 <= j < k ==> !offered(ranges, sample_rate, channels, #[trigger] preferred[j]),
    ensures
        negotiate_spec(sample_rate, channels, buffer_size, ranked_formats(preferred, hint), ranges) matches Ok(n)
            && n.sample_format == preferred[k] && n.sample_rate == sample_rate && n.channels == channels,
{
    let ranked = ranked_formats(preferred, hint);
    assert(ranked.len() >= preferred.len());
    assert forall|j: int| 0 <= j <= k implies #[trigger] ranked[j] == preferred[j] by {}
    assert forall|j: int| 0 <= j < k implies !(exists|i: int|
        0 <= i < ranges.len() && range_matches(ranges[i], sample_rate, channels)
            && core_format_of(ranges[i].sample_format) == #[trigger] ranked[j]) by {
        assert(ranked[j] == preferred[j]);
        assert(!offered(ranges, sample_rate, channels, preferred[j]));
    }
    assert(ranked[k] == preferred[k]);
    law_first_ranked_supported_wins(sample_rate, channels, buffer_size, ranked, ranges, k);
    law_negotiation_outcome(sample_rate, channels, buffer_size, ranked, ranges);
}

/// The format hint counts when no preferred format is offered: if the hint
/// is offered, negotiation settles on it.
pub proof fn law_hint_after_preferred_formats(
    sample_rate: u32,
    channels: u16,
    buffer_size: Option<u32>,
    preferred: Seq<SampleFormat>,
    hint: SampleFormat,
    ranges: Seq<ConfigRange>,
)
    requires
        offered(ranges, sample_rate, channels, hint),
        forall|j: int| 0 <= j < preferred.len() ==> !offered(ranges, sample_rate, channels, #[trigger] preferred[j]),
    ensures
        negotiate_spec(sample_rate, channels, buffer_size, ranked_formats(preferred, Some(hint)), ranges) matches Ok(n)
            && n.sample_format == hint,
{
    let ranked = ranked_formats(preferred, Some(hint));
    let k = preferred.len() as int;
    assert(ranked[k] == hint);
    assert forall|j: int| 0 <= j < k implies !(exists|i: int|
        0 <= i < ranges.len() && range_matches(ranges[i], sample_rate, channels)
            && core_format_of(ranges[i].sample_format) == #[trigger] ranked[j]) by {
        assert(ranked[j] == preferred[j]);
        assert(!offered(ranges, sample_rate, channels, preferred[j]));
    }
    law_first_ranked_supported_wins(sample_rate, channels, buffer_size, ranked, ranges, k);
}

/// No matching range leaves no buffer size to take.
proof fn lemma_no_match_no_buffer(ranges: Seq<ConfigRange>, sample_rate: u32, channels: u16)
    requires
        forall|j: int| 0 <= j < ranges.len() ==> !range_matches(#[trigger] ranges[j], sample_rate, channels),
    ensures
        first_buffer_frames(ranges, sample_rate, channels) is None,
    decreases ranges.len(),
{
    if ranges.len() > 0 {
        let p = ranges.drop_last();
        assert forall|j: int| 0 <= j < p.len() implies !range_matches(#[trigger] p[j], sample_rate, channels) by {
            assert(p[j] == ranges[j]);
        }
        lemma_no_match_no_buffer(p, sample_rate, channels);
        assert(!range_matches(ranges[ranges.len() - 1], sample_rate, channels));
    }
}

/// The buffer size taken from the ranges is that of the first matching range.
proof fn lemma_first_match_buffer(ranges: Seq<ConfigRange>, sample_rate: u32, channels: u16, i0: int)
    requires
        0 <= i0 < ranges.len(),
        range_matches(ranges[i0], sample_rate, channels),
        forall|j: int| 0 <= j < i0 ==> !range_matches(#[trigger] ranges[j], sample_rate, channels),
    ensures
        first_buffer_frames(ranges, sample_rate, channels) == Some(buffer_frames_of(ranges[i0].buffer_size)),
    decreases ranges.len(),
{
    let p = ranges.drop_last();
    if i0 == ranges.len() - 1 {
        assert forall|j: int| 0 <= j < p.len() implies !range_matches(#[trigger] p[j], sample_rate, channels) by {
            assert(p[j] == ranges[j]);
        }
        lemma_no_match_no_buffer(p, sample_rate, channels);
    } else {
        assert(p[i0] == ranges[i0]);
        assert forall|j: int| 0 <= j < i0 implies !range_matches(#[trigger] p[j], sample_rate, channels) by {
            assert(p[j] == ranges[j]);
        }
        lemma_first_match_buffer(p, sample_rate, channels, i0);
    }
}

/// The negotiated buffer size is the requested one when the request names
/// one; otherwise it is the minimum of the first matching range's supported
/// sizes, or 512 frames when that range does not know its sizes.
pub proof fn law_buffer_size_from_request_or_first_match(
    sample_rate: u32,
    channels: u16,
    buffer_size: Option<u32>,
    ranked: Seq<SampleFormat>,
    ranges: Seq<ConfigRange>,
    i0: int,
)
    requires
        0 <= i0 < ranges.len(),
        ranges[i0].min_sample_rate <= sample_rate <= ranges[i0].max_sample_rate,
        ranges[i0].channels == channels,
        forall|j: int| 0 <= j < i0 ==> !(ranges[j].min_sample_rate <= sample_rate <= ranges[j].max_sample_rate
            && #[trigger] ranges[j].channels == channels),
    ensures
        negotiate_spec(sample_rate, channels, buffer_size, ranked, ranges) matches Ok(n) && n.buffer_size == match buffer_size {
            Some(b) => b,
            None => match ranges[i0].buffer_size {
                SupportedBufferSize::Range { min, .. } => min,
                SupportedBufferSize::Unknown => 512u32,
            },
        },
{
    assert forall|j: int| 0 <= j < i0 implies !range_matches(#[trigger] ranges[j], sample_rate, channels) by {
        assert(!(ranges[j].min_sample_rate <= sample_rate <= ranges[j].max_sample_rate && ranges[j].channels == channels));
    }
    lemma_first_match_buffer(ranges, sample_rate, channels, i0);
    law_negotiation_outcome(sample_rate, channels, buffer_size, ranked, ranges);
}

} // verus!
