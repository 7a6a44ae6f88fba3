//! Device selection and description: finding a device by name, describing
//! the enumerated devices, finding a loopback source, and telling what
//! changed between two enumerations.
use vstd::prelude::*;
use crate::core_types::{DeviceEvent, DeviceInfo, DeviceInfoView, ErrorView, OxiSoundError};
use crate::error::BackendError;
use crate::host::Platform;
use crate::text::{
    ascii_lower, chars_of, concat, contains_chars, contains_seq, law_contained_run_splits,
    law_contains_infix, lowercase, to_ascii_lowercase, to_lowercase,
};

verus! {

// ─── selection by name ───────────────────────────────────────────────────────

/// The views of device-name lookups: the name, or the lookup error's text.
pub open spec fn name_results_view(v: Seq<Result<String, BackendError>>) -> Seq<
    Result<Seq<char>, Seq<char>>,
> {
    Seq::new(
        v.len(),
        |i: int|
            match v[i] {
                Ok(n) => Ok(n@),
                Err(e) => Err(e.message@),
            },
    )
}

/// The first device, from `i` on, whose lowercased name contains the
/// lowercased fragment; a failed name lookup met first is reported as a
/// device error, and no match as `NoDevice`.
pub open spec fn select_spec(names: Seq<Result<Seq<char>, Seq<char>>>, fragment: Seq<char>, i: int) -> Result<
    int,
    ErrorView,
>
    decreases names.len() - i,
{
    if i < 0 || i >= names.len() {
        Err(ErrorView::NoDevice)
    } else {
        match names[i] {
            Err(m) => Err(ErrorView::Device(m)),
            Ok(n) => if contains_seq(lowercase(n), lowercase(fragment)) {
                Ok(i)
            } else {
                select_spec(names, fragment, i + 1)
            },
        }
    }
}

/// The index of the first device whose name contains `name_fragment`,
/// ignoring case (the choice of `select_output` / `select_input`).
pub fn select_device(names: &Vec<Result<String, BackendError>>, name_fragment: &str) -> (r: Result<
    usize,
    OxiSoundError,
>)
    ensures
        match r {
            Ok(i) => select_spec(name_results_view(names@), name_fragment@, 0) == Ok::<
                int,
                ErrorView,
            >(i as int),
            Err(e) => select_spec(name_results_view(names@), name_fragment@, 0) == Err::<
                int,
                ErrorView,
            >(e@),
        },
{
    let fragment = chars_of(to_lowercase(name_fragment).as_str());
    let ghost view = name_results_view(names@);
    let mut i: usize = 0;
    while i < names.len()
        invariant
            i <= names@.len(),
            view == name_results_view(names@),
            fragment@ == lowercase(name_fragment@),
            select_spec(view, name_fragment@, 0) == select_spec(view, name_fragment@, i as int),
        decreases names@.len() - i,
    {
        match &names[i] {
            Err(e) => {
                return Err(OxiSoundError::Device(e.message.clone()));
            },
            Ok(name) => {
                let lowered = chars_of(to_lowercase(name.as_str()).as_str());
                if contains_chars(&lowered, &fragment) {
                    return Ok(i);
                }
            },
        }
        i = i + 1;
    }
    Err(OxiSoundError::NoDevice)
}

/// True when a device-name lookup succeeded with a name that does not match
/// the fragment (ignoring case): selection passes over such a device.
pub open spec fn passed_over(entry: Result<Seq<char>, Seq<char>>, fragment: Seq<char>) -> bool {
    entry matches Ok(n) && !contains_seq(lowercase(n), lowercase(fragment))
}

/// Selection from `s` on, in terms of the devices it passes over.
proof fn lemma_select_from(names: Seq<Result<Seq<char>, Seq<char>>>, fragment: Seq<char>, s: int)
    requires
        0 <= s <= names.len(),
    ensures
        select_spec(names, fragment, s) matches Ok(i) ==> {
            &&& s <= i < names.len()
            &&& names[i] matches Ok(n) && contains_seq(lowercase(n), lowercase(fragment))
            &&& forall|j: int| s <= j < i ==> passed_over(#[trigger] names[j], fragment)
        },
        select_spec(names, fragment, s) matches Err(ErrorView::Device(msg)) ==> exists|k: int|
            s <= k < names.len() && names[k] == Err::<Seq<char>, Seq<char>>(msg) && forall|j: int|
                s <= j < k ==> passed_over(#[trigger] names[j], fragment),
        select_spec(names, fragment, s) matches Err(e) ==> (e is Device || e is NoDevice),
        (select_spec(names, fragment, s) == Err::<int, ErrorView>(ErrorView::NoDevice)) <==> (
        forall|j: int| s <= j < names.len() ==> passed_over(#[trigger] names[j], fragment)),
    decreases names.len() - s,
{
    if s < names.len() {
        lemma_select_from(names, fragment, s + 1);
        match names[s] {
            Err(m) => {
                assert(!passed_over(names[s], fragment));
            },
            Ok(n) => {
                if !contains_seq(lowercase(n), lowercase(fragment)) {
                    assert(passed_over(names[s], fragment));
                    assert forall|j: int| s <= j < names.len() && (forall|j2: int|
                        s + 1 <= j2 < names.len() ==> passed_over(#[trigger] names[j2], fragment))
                        implies passed_over(#[trigger] names[j], fragment) by {
                        if j > s {
                            assert(passed_over(names[j], fragment));
                        }
                    }
                    if let Err(ErrorView::Device(msg)) = select_spec(names, fragment, s) {
                        let k = choose|k: int|
                            s + 1 <= k < names.len() && names[k] == Err::<Seq<char>, Seq<char>>(msg)
                                && forall|j: int| s + 1 <= j < k ==> passed_over(#[trigger] names[j], fragment);
                        assert forall|j: int| s <= j < k implies passed_over(#[trigger] names[j], fragment) by {
                            if j > s {
                                assert(passed_over(names[j], fragment));
                            }
                        }
                    }
                } else {
                    assert(!passed_over(names[s], fragment));
                }
            },
        }
    }
}

/// Selection picks the first device whose name contains the fragment,
/// ignoring case: every device before it has a readable name that does not
/// match. It fails with `NoDevice` exactly when every name is readable and
/// none matches, and otherwise with the text of the first unreadable name,
/// met before any match.
pub proof fn law_select_first_match(names: Seq<Result<Seq<char>, Seq<char>>>, fragment: Seq<char>)
    ensures
        select_spec(names, fragment, 0) matches Ok(i) ==> {
            &&& 0 <= i < names.len()
            &&& names[i] matches Ok(n) && contains_seq(lowercase(n), lowercase(fragment))
            &&& forall|j: int| 0 <= j < i ==> passed_over(#[trigger] names[j], fragment)
        },
        (select_spec(names, fragment, 0) == Err::<int, ErrorView>(ErrorView::NoDevice)) <==> (
        forall|j: int| 0 <= j < names.len() ==> passed_over(#[trigger] names[j], fragment)),
        select_spec(names, fragment, 0) matches Err(e) ==> (e is NoDevice || e is Device),
        select_spec(names, fragment, 0) matches Err(ErrorView::Device(msg)) ==> exists|k: int|
            0 <= k < names.len() && names[k] == Err::<Seq<char>, Seq<char>>(msg) && forall|j: int|
                0 <= j < k ==> passed_over(#[trigger] names[j], fragment),
{
    lemma_select_from(names, fragment, 0);
}

/// A device whose lowercased name holds the lowercased fragment anywhere
/// (at the start, in the middle or at the end) is found: selection does not
/// answer `NoDevice`, and what it picks comes no later than that device.
pub proof fn law_select_finds_matching_name(
    names: Seq<Result<Seq<char>, Seq<char>>>,
    fragment: Seq<char>,
    j: int,
    before: Seq<char>,
    after: Seq<char>,
)
    requires
        0 <= j < names.len(),
        names[j] matches Ok(n) && lowercase(n) == before + lowercase(fragment) + after,
    ensures
        select_spec(names, fragment, 0) != Err::<int, ErrorView>(ErrorView::NoDevice),
        select_spec(names, fragment, 0) matches Ok(i) ==> i <= j,
{
    law_contains_infix(before, lowercase(fragment), after);
    law_select_first_match(names, fragment);
    assert(!passed_over(names[j], fragment));
}

// ─── describing enumerated devices ───────────────────────────────────────────

/// What enumeration learned about one device.
#[derive(Debug)]
pub struct DeviceProbe {
    /// The device's name, or why it could not be read.
    pub name: Result<String, BackendError>,
    pub sample_rates: Vec<u32>,
    pub channel_counts: Vec<u16>,
}

/// True when `default_name` names `name`.
pub open spec fn is_default_name(default_name: Option<String>, name: Seq<char>) -> bool {
    match default_name {
        Some(d) => d@ == name,
        None => false,
    }
}

/// True when `default_name` names `name`.
fn names_default(default_name: &Option<String>, name: &String) -> (b: bool)
    ensures
        b == is_default_name(*default_name, name@),
{
    match default_name {
        Some(d) => *d == *name,
        None => false,
    }
}

/// The index of the first probe whose name lookup failed, if any.
pub open spec fn first_name_error(probes: Seq<DeviceProbe>) -> Option<int> {
    if exists|i: int| 0 <= i < probes.len() && probes[i].name is Err {
        Some(
            choose|i: int|
                0 <= i < probes.len() && probes[i].name is Err && forall|j: int|
                    0 <= j < i ==> probes[j].name is Ok,
        )
    } else {
        None
    }
}

/// True when `infos` describe `probes` one for one: names, rates and channel
/// counts carried over, default marked by name, direction as given.
pub open spec fn describes(
    infos: Seq<DeviceInfo>,
    probes: Seq<DeviceProbe>,
    default_name: Option<String>,
    is_input: bool,
) -> bool {
    &&& infos.len() == probes.len()
    &&& forall|i: int|
        0 <= i < probes.len() ==> (#[trigger] probes[i].name matches Ok(n) && infos[i]@ == (
        DeviceInfoView {
            name: n@,
            is_default: is_default_name(default_name, n@),
            sample_rates: probes[i].sample_rates@,
            channel_counts: probes[i].channel_counts@,
            is_input,
            is_output: !is_input,
        }))
}

/// Describes enumerated devices of one direction (the output devices of
/// `enumerate` when `is_input` is false, the input devices of
/// `enumerate_input` when true). The first failed name lookup fails the whole
/// enumeration, its text prefixed with `"description error: "` for input devices.
pub fn describe_devices(
    devices: Result<Vec<DeviceProbe>, BackendError>,
    default_name: Option<String>,
    is_input: bool,
) -> (r: Result<Vec<DeviceInfo>, OxiSoundError>)
    ensures
        match devices {
            Err(e) => r matches Err(err) && err@ == ErrorView::Device(e.message@),
            Ok(probes) => match first_name_error(probes@) {
                Some(k) => r matches Err(err) && probes@[k].name matches Err(e) && err@
                    == ErrorView::Device(
                    if is_input {
                        "description error: "@ + e.message@
                    } else {
                        e.message@
                    },
                ),
                None => r matches Ok(infos) && describes(infos@, probes@, default_name, is_input),
            },
        },
{
    let probes = match devices {
        Ok(v) => v,
        Err(e) => return Err(OxiSoundError::Device(e.message)),
    };
    let ghost pv = probes@;
    let mut infos: Vec<DeviceInfo> = Vec::new();
    let mut i: usize = 0;
    while i < probes.len()
        invariant
            i <= probes@.len(),
            probes@ == pv,
            devices matches Ok(ps) && ps@ == pv,
            infos@.len() == i,
            forall|j: int| 0 <= j < i ==> #[trigger] pv[j].name is Ok,
            forall|j: int|
                0 <= j < i ==> (#[trigger] pv[j].name matches Ok(n) && infos@[j]@ == (
                DeviceInfoView {
                    name: n@,
                    is_default: is_default_name(default_name, n@),
                    sample_rates: pv[j].sample_rates@,
                    channel_counts: pv[j].channel_counts@,
                    is_input,
                    is_output: !is_input,
                })),
        decreases probes@.len() - i,
    {
        let p = &probes[i];
        match &p.name {
            Err(e) => {
                proof {
                    assert(first_name_error(pv) == Some(i as int)) by {
                        assert(pv[i as int].name is Err && forall|j: int|
                            0 <= j < i ==> pv[j].name is Ok);
                        let k = choose|k: int|
                            0 <= k < pv.len() && pv[k].name is Err && forall|j: int|
                                0 <= j < k ==> pv[j].name is Ok;
                        if k < i {
                            assert(pv[k].name is Ok);
                        }
                        if k > i {
                            assert(pv[i as int].name is Ok);
                        }
                    }
                }
                let message = if is_input {
                    concat("description error: ", e.message.as_str())
                } else {
                    e.message.clone()
                };
                assert(first_name_error(pv) == Some(i as int));
                assert(pv[i as int].name matches Err(e2) && message@ == (if is_input {
                    "description error: "@ + e2.message@
                } else {
                    e2.message@
                }));
                return Err(OxiSoundError::Device(message));
            },
            Ok(name) => {
                let is_default = names_default(&default_name, name);
                let info = DeviceInfo {
                    name: name.clone(),
                    is_default,
                    sample_rates: p.sample_rates.clone(),
                    channel_counts: p.channel_counts.clone(),
                    is_input,
                    is_output: !is_input,
                };
                infos.push(info);
            },
        }
        i = i + 1;
    }
    proof {
        assert(!(exists|j: int| 0 <= j < pv.len() && pv[j].name is Err));
    }
    Ok(infos)
}

/// What enumerating all devices learned about one device.
#[derive(Debug)]
pub struct AnyDeviceProbe {
    /// The device's name, if it could be read.
    pub name: Option<String>,
    /// True when the device lists at least one output configuration.
    pub has_output_configs: bool,
    /// True when the device lists at least one input configuration.
    pub has_input_configs: bool,
    pub output_sample_rates: Vec<u32>,
    pub output_channel_counts: Vec<u16>,
    pub input_sample_rates: Vec<u32>,
    pub input_channel_counts: Vec<u16>,
}

/// The name a device is listed under: its own, or `"<unknown>"`.
pub open spec fn listed_name(name: Option<String>) -> Seq<char> {
    match name {
        Some(n) => n@,
        None => "<unknown>"@,
    }
}

/// The description of one device of an all-device enumeration.
pub open spec fn any_device_view(p: AnyDeviceProbe, default_output_name: Option<String>) -> DeviceInfoView {
    DeviceInfoView {
        name: listed_name(p.name),
        is_default: p.has_output_configs && is_default_name(default_output_name, listed_name(p.name)),
        sample_rates: if p.has_output_configs {
            p.output_sample_rates@
        } else {
            p.input_sample_rates@
        },
        channel_counts: if p.has_output_configs {
            p.output_channel_counts@
        } else {
            p.input_channel_counts@
        },
        is_input: p.has_input_configs,
        is_output: p.has_output_configs,
    }
}

/// Describes all devices, inputs and outputs together (`enumerate_all`): an
/// unreadable name becomes `"<unknown>"`, output devices are described by
/// their output configurations and the others by their input ones, and an
/// output device named like the default output device is marked default.
pub fn describe_all_devices(
    devices: Result<Vec<AnyDeviceProbe>, BackendError>,
    default_output_name: Option<String>,
) -> (r: Result<Vec<DeviceInfo>, OxiSoundError>)
    ensures
        match devices {
            Err(e) => r matches Err(err) && err@ == ErrorView::Device(e.message@),
            Ok(probes) => r matches Ok(infos) && infos@.len() == probes@.len() && forall|i: int|
                0 <= i < probes@.len() ==> {
                    &&& (#[trigger] infos@[i])@ == any_device_view(probes@[i], default_output_name)
                    &&& infos@[i].is_input == probes@[i].has_input_configs
                    &&& infos@[i].is_output == probes@[i].has_output_configs
                    &&& infos@[i].is_default ==> probes@[i].has_output_configs
                    &&& (probes@[i].name matches Some(n) ==> infos@[i].name@ == n@)
                },
        },
{
    let probes = match devices {
        Ok(v) => v,
        Err(e) => return Err(OxiSoundError::Device(e.message)),
    };
    let mut infos: Vec<DeviceInfo> = Vec::new();
    let mut i: usize = 0;
    while i < probes.len()
        invariant
            i <= probes@.len(),
            infos@.len() == i,
            forall|j: int|
                0 <= j < i ==> {
                    &&& (#[trigger] infos@[j])@ == any_device_view(probes@[j], default_output_name)
                    &&& infos@[j].is_input == probes@[j].has_input_configs
                    &&& infos@[j].is_output == probes@[j].has_output_configs
                    &&& infos@[j].is_default ==> probes@[j].has_output_configs
                    &&& (probes@[j].name matches Some(n) ==> infos@[j].name@ == n@)
                },
        decreases probes@.len() - i,
    {
        let p = &probes[i];
        let name = match &p.name {
            Some(n) => n.clone(),
            None => "<unknown>".to_owned(),
        };
        let is_output = p.has_output_configs;
        let (sample_rates, channel_counts) = if is_output {
            (p.output_sample_rates.clone(), p.output_channel_counts.clone())
        } else {
            (p.input_sample_rates.clone(), p.input_channel_counts.clone())
        };
        let is_default = is_output && names_default(&default_output_name, &name);
        infos.push(
            DeviceInfo {
                name,
                is_default,
                sample_rates,
                channel_counts,
                is_input: p.has_input_configs,
                is_output,
            },
        );
        i = i + 1;
    }
    Ok(infos)
}

// ─── loopback ────────────────────────────────────────────────────────────────

/// Loopback capture needs monitor sources, which only Linux audio servers provide.
pub fn loopback_supported(platform: Platform) -> (r: Result<(), OxiSoundError>)
    ensures
        platform == Platform::Linux ==> r is Ok,
        platform != Platform::Linux ==> (r matches Err(e) && e@ == ErrorView::Unsupported(
            "Loopback capture is not natively available on this platform. On macOS, install BlackHole or SoundFlower and open the virtual device via open_input(). On Windows, WASAPI loopback is not yet exposed via cpal 0.17.3."@,
        )),
{
    if platform == Platform::Linux {
        Ok(())
    } else {
        Err(
            OxiSoundError::Unsupported(
                "Loopback capture is not natively available on this platform. On macOS, install BlackHole or SoundFlower and open the virtual device via open_input(). On Windows, WASAPI loopback is not yet exposed via cpal 0.17.3.".to_owned(),
            ),
        )
    }
}

/// True when an input device named `name` is a monitor (loopback) source.
pub open spec fn is_monitor_name(name: Option<String>) -> bool {
    match name {
        Some(n) => contains_seq(n@.map_values(|c: char| ascii_lower(c)), "monitor"@),
        None => false,
    }
}

/// The index of the first input device that is a monitor source: one whose
/// name, ASCII-lowercased, contains `"monitor"` (unreadable names never match).
pub fn select_monitor(devices: Result<Vec<Option<String>>, BackendError>) -> (r: Result<
    usize,
    OxiSoundError,
>)
    ensures
        match devices {
            Err(e) => r matches Err(err) && err@ == ErrorView::Device(e.message@),
            Ok(names) => match r {
                Ok(i) => i < names@.len() && is_monitor_name(names@[i as int]) && forall|j: int|
                    0 <= j < i ==> !is_monitor_name(#[trigger] names@[j]),
                Err(e) => (forall|j: int| 0 <= j < names@.len() ==> !is_monitor_name(#[trigger] names@[j]))
                    && e@ == ErrorView::Unsupported(
                    "No loopback/monitor input device found. Ensure PulseAudio or PipeWire is running and a monitor source is present."@,
                ),
            },
        },
{
    let names = match devices {
        Ok(v) => v,
        Err(e) => return Err(OxiSoundError::Device(e.message)),
    };
    let monitor = chars_of("monitor");
    let mut i: usize = 0;
    while i < names.len()
        invariant
            i <= names@.len(),
            devices matches Ok(ns) && ns@ == names@,
            monitor@ == "monitor"@,
            forall|j: int| 0 <= j < i ==> !is_monitor_name(#[trigger] names@[j]),
        decreases names@.len() - i,
    {
        if let Some(n) = &names[i] {
            let lowered = to_ascii_lowercase(&chars_of(n.as_str()));
            assert(lowered@ =~= n@.map_values(|c: char| ascii_lower(c)));
            if contains_chars(&lowered, &monitor) {
                assert(is_monitor_name(names@[i as int]));
                return Ok(i);
            }
        }
        i = i + 1;
    }
    Err(
        OxiSoundError::Unsupported(
            "No loopback/monitor input device found. Ensure PulseAudio or PipeWire is running and a monitor source is present.".to_owned(),
        ),
    )
}

/// A name is a monitor source exactly when its ASCII lowercase holds
/// `"monitor"` somewhere: at the start, in the middle or at the end.
pub proof fn law_monitor_anywhere_in_name(n: String, before: Seq<char>, after: Seq<char>)
    ensures
        n@.map_values(|c: char| ascii_lower(c)) == before + "monitor"@ + after ==> is_monitor_name(
            Some(n),
        ),
        is_monitor_name(Some(n)) ==> exists|b: Seq<char>, a: Seq<char>|
            n@.map_values(|c: char| ascii_lower(c)) == b + "monitor"@ + a,
{
    law_contains_infix(before, "monitor"@, after);
    if is_monitor_name(Some(n)) {
        let parts = law_contained_run_splits(n@.map_values(|c: char| ascii_lower(c)), "monitor"@);
        assert(n@.map_values(|c: char| ascii_lower(c)) == parts.0 + "monitor"@ + parts.1);
    }
}

// ─── device changes ──────────────────────────────────────────────────────────

/// The names of a list of strings.
pub open spec fn names_view(v: Seq<String>) -> Seq<Seq<char>> {
    Seq::new(v.len(), |i: int| v[i]@)
}

/// The names in `from` that `other` lacks, in the order of `from`.
pub open spec fn missing_from(from: Seq<Seq<char>>, other: Seq<Seq<char>>) -> Seq<Seq<char>>
    decreases from.len(),
{
    if from.len() == 0 {
        Seq::empty()
    } else {
        let prev = missing_from(from.drop_last(), other);
        if other.contains(from.last()) {
            prev
        } else {
            prev.push(from.last())
        }
    }
}

/// True when `events` reports `added` (as `DeviceAdded` of name-only
/// descriptions) and then `removed` (as `DeviceRemoved`).
pub open spec fn reports(events: Seq<DeviceEvent>, added: Seq<Seq<char>>, removed: Seq<Seq<char>>) -> bool {
    &&& events.len() == added.len() + removed.len()
    &&& forall|i: int|
        0 <= i < added.len() ==> (#[trigger] events[i])@
            == crate::core_types::DeviceEventView::DeviceAdded(crate::core_types::named_view(added[i]))
    &&& forall|i: int|
        0 <= i < removed.len() ==> (#[trigger] events[added.len() + i])@
            == crate::core_types::DeviceEventView::DeviceRemoved(removed[i])
}

/// True when `v` holds a string equal to `s`.
fn holds_name(v: &Vec<String>, s: &String) -> (b: bool)
    ensures
        b == names_view(v@).contains(s@),
{
    let ghost nv = names_view(v@);
    let mut i: usize = 0;
    while i < v.len()
        invariant
            i <= v@.len(),
            nv == names_view(v@),
            forall|k: int| 0 <= k < i ==> nv[k] != s@,
        decreases v@.len() - i,
    {
        if v[i] == *s {
            assert(nv[i as int] == s@);
            return true;
        }
        i = i + 1;
    }
    false
}

/// The device events between two enumerations of device names: a
/// `DeviceAdded` for each current name that was not there before, then a
/// `DeviceRemoved` for each earlier name that is gone.
pub fn device_changes(previous: &Vec<String>, current: &Vec<String>) -> (events: Vec<DeviceEvent>)
    ensures
        reports(
            events@,
            missing_from(names_view(current@), names_view(previous@)),
            missing_from(names_view(previous@), names_view(current@)),
        ),
{
    let ghost pv = names_view(previous@);
    let ghost cv = names_view(current@);
    let mut events: Vec<DeviceEvent> = Vec::new();
    let mut i: usize = 0;
    while i < current.len()
        invariant
            i <= current@.len(),
            pv == names_view(previous@),
            cv == names_view(current@),
            reports(events@, missing_from(cv.subrange(0, i as int), pv), Seq::empty()),
        decreases current@.len() - i,
    {
        let name = &current[i];
        let ghost before = missing_from(cv.subrange(0, i as int), pv);
        assert(cv.subrange(0, i + 1).drop_last() =~= cv.subrange(0, i as int));
        assert(cv.subrange(0, i + 1).last() == name@);
        if !holds_name(previous, name) {
            let info = DeviceInfo::named(name.clone());
            events.push(DeviceEvent::DeviceAdded(info));
            assert(reports(events@, before.push(name@), Seq::empty())) by {
                assert(events@[before.len() as int]@ == crate::core_types::DeviceEventView::DeviceAdded(
                    crate::core_types::named_view(before.push(name@)[before.len() as int]),
                ));
            }
        }
        i = i + 1;
    }
    assert(cv.subrange(0, current@.len() as int) =~= cv);
    let ghost added = missing_from(cv, pv);
    let mut j: usize = 0;
    while j < previous.len()
        invariant
            j <= previous@.len(),
            pv == names_view(previous@),
            cv == names_view(current@),
            added == missing_from(cv, pv),
            reports(events@, added, missing_from(pv.subrange(0, j as int), cv)),
        decreases previous@.len() - j,
    {
        let name = &previous[j];
        let ghost before = missing_from(pv.subrange(0, j as int), cv);
        assert(pv.subrange(0, j + 1).drop_last() =~= pv.subrange(0, j as int));
        assert(pv.subrange(0, j + 1).last() == name@);
        if !holds_name(current, name) {
            events.push(DeviceEvent::DeviceRemoved(name.clone()));
            assert(reports(events@, added, before.push(name@))) by {
                assert(events@[added.len() + before.len() as int]@
                    == crate::core_types::DeviceEventView::DeviceRemoved(
                    before.push(name@)[before.len() as int],
                ));
            }
        }
        j = j + 1;
    }
    assert(pv.subrange(0, previous@.len() as int) =~= pv);
    events
}

/// A name is missing exactly when it is in `from` and not in `other`.
proof fn lemma_missing_from(from: Seq<Seq<char>>, other: Seq<Seq<char>>)
    ensures
        forall|n: Seq<char>|
            #![trigger missing_from(from, other).contains(n)]
            missing_from(from, other).contains(n) <==> from.contains(n) && !other.contains(n),
    decreases from.len(),
{
    if from.len() > 0 {
        let p = from.drop_last();
        lemma_missing_from(p, other);
        assert forall|n: Seq<char>|
            #![trigger missing_from(from, other).contains(n)]
            missing_from(from, other).contains(n) <==> from.contains(n) && !other.contains(n) by {
            let prev = missing_from(p, other);
            let cur = missing_from(from, other);
            assert(from =~= p.push(from.last()));
            if from.contains(n) {
                let k = choose|k: int| 0 <= k < from.len() && from[k] == n;
                if k < p.len() {
                    assert(p[k] == n);
                }
            }
            if p.contains(n) {
                let k = choose|k: int| 0 <= k < p.len() && p[k] == n;
                assert(from[k] == n);
            }
            if cur != prev {
                if cur.contains(n) {
                    let k = choose|k: int| 0 <= k < cur.len() && cur[k] == n;
                    if k < prev.len() {
                        assert(prev[k] == n);
                    }
                }
                if prev.contains(n) {
                    let k = choose|k: int| 0 <= k < prev.len() && prev[k] == n;
                    assert(cur[k] == n);
                }
                if n == from.last() {
                    assert(cur[prev.len() as int] == n);
                }
            }
        }
    }
}

/// Applying the reported changes to the earlier names gives the current
/// ones: a name is current exactly when it was there before and is not
/// reported removed, or is reported added.
pub proof fn law_device_changes_complete(previous: Seq<Seq<char>>, current: Seq<Seq<char>>)
    ensures
        forall|n: Seq<char>|
            current.contains(n) <==> (previous.contains(n) && !#[trigger] missing_from(
                previous,
                current,
            ).contains(n)) || missing_from(current, previous).contains(n),
{
    lemma_missing_from(previous, current);
    lemma_missing_from(current, previous);
}

} // verus!
