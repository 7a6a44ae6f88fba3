# oxisound

The verified core of an audio device layer, written in Verus.

- `src/` is the library, every function verified against its contract:
  - `osc_types`, `osc_wire`, `osc_decode`, `osc_encode`, `osc_lemmas`,
    `osc_laws`: Open Sound Control packets, the wire format as spec
    functions, a decoder and an encoder proved exact against it, and the law
    that decoding what a well-formed packet encodes to gives the packet back.
  - `core_types`, `error`, `host`, `negotiate`, `stream_plan`, `devices`,
    `text`: the device layer's decisions: mapping backend errors and sample
    formats, host selection per platform, output-format negotiation, stream
    sample types, buffer periods, the retry schedule, device selection and
    description, loopback source lookup, and device-change events.
- `tests/` runs the library on concrete values.
- `app/` is the thin layer over cpal: it gathers what the audio backend
  reports, calls the library, and performs the I/O (streams, sleeps, the
  polling thread).
