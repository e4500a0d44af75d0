# audio_io

A backend-agnostic audio host, split in two:

- `src/` is the verified library (Verus). `config` holds the stream
  configuration, its validation and the device list; `select` picks an API or
  a device by a part of its name; `plan` turns a configuration and the
  selected devices into the streams a start opens; `ring` sizes, opens,
  fills and drains the latency ring (an `rtrb` ring buffer of sample bit
  patterns) that carries input to the output callback.
- `app/` drives the audio drivers through cpal and JUCE (cxx-juce), owns their
  handles, and hands the caller's process closure its blocks of `f32`
  samples (audio-blocks).
