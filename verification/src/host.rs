//! Platform-dependent choices: the default host API, which host a requested
//! API maps to, and the warning for an exclusive-mode request.
use vstd::prelude::*;
use crate::core_types::{ErrorView, HostApi, OxiSoundError};

verus! {

/// The platform the library runs on, as far as host selection depends on it.
#[derive(Clone, Copy, Debug, PartialEq, Eq, Structural)]
pub enum Platform {
    MacOs,
    Ios,
    Windows,
    Linux,
    DragonFly,
    FreeBsd,
    NetBsd,
    /// A `wasm32` target (no OS threads; the WebAudio backend).
    Wasm,
    Other,
}

/// True on the platforms whose native host is ALSA.
pub open spec fn is_alsa_platform(p: Platform) -> bool {
    p == Platform::Linux || p == Platform::DragonFly || p == Platform::FreeBsd || p == Platform::NetBsd
}

/// The host API of the platform's default host.
pub open spec fn default_host_api_spec(p: Platform) -> HostApi {
    if p == Platform::MacOs || p == Platform::Ios {
        HostApi::CoreAudio
    } else if p == Platform::Windows {
        HostApi::Wasapi
    } else if is_alsa_platform(p) {
        HostApi::Alsa
    } else {
        HostApi::CoreAudio
    }
}

/// The host API of the platform's default host.
pub fn default_host_api(platform: Platform) -> (api: HostApi)
    ensures
        api == default_host_api_spec(platform),
{
    match platform {
        Platform::MacOs | Platform::Ios => HostApi::CoreAudio,
        Platform::Windows => HostApi::Wasapi,
        Platform::Linux | Platform::DragonFly | Platform::FreeBsd | Platform::NetBsd => HostApi::Alsa,
        _ => HostApi::CoreAudio,
    }
}

/// A native audio host this layer can open.
#[derive(Clone, Copy, Debug, PartialEq, Eq, Structural)]
pub enum HostBackend {
    CoreAudio,
    Wasapi,
    Alsa,
}

/// Which host a request for `api` opens on `platform`, or why it cannot.
pub open spec fn host_backend_spec(api: HostApi, platform: Platform) -> Result<HostBackend, ErrorView> {
    if platform == Platform::Wasm {
        Err(
            ErrorView::UnsupportedConfig(
                "with_host() is not supported on wasm32; the WebAudio backend is selected automatically"@,
            ),
        )
    } else {
        match api {
            HostApi::CoreAudio => if platform == Platform::MacOs || platform == Platform::Ios {
                Ok(HostBackend::CoreAudio)
            } else {
                Err(ErrorView::UnsupportedConfig("CoreAudio is macOS/iOS-only"@))
            },
            HostApi::Wasapi => if platform == Platform::Windows {
                Ok(HostBackend::Wasapi)
            } else {
                Err(ErrorView::UnsupportedConfig("WASAPI is Windows-only"@))
            },
            HostApi::Alsa => if is_alsa_platform(platform) {
                Ok(HostBackend::Alsa)
            } else {
                Err(ErrorView::UnsupportedConfig("ALSA is Linux/BSD-only"@))
            },
            HostApi::Jack => Err(
                ErrorView::UnsupportedConfig(
                    "JACK is not available via cpal in OxiSound; depend on the `oxisound-jack` quarantine crate (libjack2) directly"@,
                ),
            ),
            HostApi::Asio => Err(
                ErrorView::UnsupportedConfig(
                    "ASIO is not available in this build; it requires a dedicated `oxisound-*-asio` quarantine crate (Steinberg ASIO SDK)"@,
                ),
            ),
            HostApi::PipeWire => Err(
                ErrorView::UnsupportedConfig("PipeWire support is not available in this build"@),
            ),
            HostApi::PulseAudio => Err(
                ErrorView::UnsupportedConfig("PulseAudio support is not available in this build"@),
            ),
        }
    }
}

/// Which host a request for `api` opens on `platform`, or why it cannot
/// (the decision of `CpalDevice::with_host`).
pub fn host_backend_for(api: HostApi, platform: Platform) -> (r: Result<HostBackend, OxiSoundError>)
    ensures
        match r {
            Ok(h) => host_backend_spec(api, platform) == Ok::<HostBackend, ErrorView>(h),
            Err(e) => host_backend_spec(api, platform) == Err::<HostBackend, ErrorView>(e@),
        },
{
    if platform == Platform::Wasm {
        return Err(
            OxiSoundError::UnsupportedConfig(
                "with_host() is not supported on wasm32; the WebAudio backend is selected automatically".to_owned(),
            ),
        );
    }
    match api {
        HostApi::CoreAudio => {
            if platform == Platform::MacOs || platform == Platform::Ios {
                Ok(HostBackend::CoreAudio)
            } else {
                Err(OxiSoundError::UnsupportedConfig("CoreAudio is macOS/iOS-only".to_owned()))
            }
        },
        HostApi::Wasapi => {
            if platform == Platform::Windows {
                Ok(HostBackend::Wasapi)
            } else {
                Err(OxiSoundError::UnsupportedConfig("WASAPI is Windows-only".to_owned()))
            }
        },
        HostApi::Alsa => {
            if platform == Platform::Linux || platform == Platform::DragonFly || platform
                == Platform::FreeBsd || platform == Platform::NetBsd {
                Ok(HostBackend::Alsa)
            } else {
                Err(OxiSoundError::UnsupportedConfig("ALSA is Linux/BSD-only".to_owned()))
            }
        },
        HostApi::Jack => Err(
            OxiSoundError::UnsupportedConfig(
                "JACK is not available via cpal in OxiSound; depend on the `oxisound-jack` quarantine crate (libjack2) directly".to_owned(),
            ),
        ),
        HostApi::Asio => Err(
            OxiSoundError::UnsupportedConfig(
                "ASIO is not available in this build; it requires a dedicated `oxisound-*-asio` quarantine crate (Steinberg ASIO SDK)".to_owned(),
            ),
        ),
        HostApi::PipeWire => Err(
            OxiSoundError::UnsupportedConfig(
                "PipeWire support is not available in this build".to_owned(),
            ),
        ),
        HostApi::PulseAudio => Err(
            OxiSoundError::UnsupportedConfig(
                "PulseAudio support is not available in this build".to_owned(),
            ),
        ),
    }
}

/// The platform's default host API is one that `host_backend_for` accepts
/// on every platform that has a native host.
pub proof fn law_default_host_opens(platform: Platform)
    requires
        platform != Platform::Wasm,
        platform != Platform::Other,
    ensures
        host_backend_spec(default_host_api_spec(platform), platform) is Ok,
{
}

/// The warning to log when a stream request asks for exclusive mode, which
/// the backend cannot provide (streams always open in shared mode); `None`
/// when exclusive mode was not requested.
pub fn exclusive_mode_warning(exclusive: bool, platform: Platform) -> (w: Option<String>)
    ensures
        !exclusive ==> w is None,
        exclusive && platform == Platform::Windows ==> (w matches Some(m) && m@
            == "[oxisound-cpal] WASAPI exclusive mode requested but cpal 0.17.3 does not expose an exclusive-mode stream builder (IAudioClient::Initialize is hardcoded to AUDCLNT_SHAREMODE_SHARED). Falling back to shared mode. Track upstream progress at https://github.com/RustAudio/cpal"@),
        exclusive && platform != Platform::Windows ==> (w matches Some(m) && m@
            == "[oxisound-cpal] Exclusive mode is a WASAPI-only feature (Windows); it is not applicable on this platform and will be ignored."@),
{
    if !exclusive {
        return None;
    }
    if platform == Platform::Windows {
        Some(
            "[oxisound-cpal] WASAPI exclusive mode requested but cpal 0.17.3 does not expose an exclusive-mode stream builder (IAudioClient::Initialize is hardcoded to AUDCLNT_SHAREMODE_SHARED). Falling back to shared mode. Track upstream progress at https://github.com/RustAudio/cpal".to_owned(),
        )
    } else {
        Some(
            "[oxisound-cpal] Exclusive mode is a WASAPI-only feature (Windows); it is not applicable on this platform and will be ignored.".to_owned(),
        )
    }
}

} // verus!
