# audio_eq

A real-time audio loopback and three-band equaliser. The library in `src/`
holds the logic, verified with Verus; `app/` is the program around it
(device and stream handling with cpal, file playback with rodio, the f32
biquad filters, the console).

- `text`: Unicode whitespace trimming, unsigned decimal parsing as
  `str::parse` does it, substring search.
- `devices`: choosing capture and playback devices by their names, reading a
  typed device number.
- `pulse_module`: the id of the PulseAudio loopback module from
  `pactl load-module`'s output and the argument that unloads it; the
  (empty) Windows setup.
- `sample_queue`: the first-in first-out queue between the capture and the
  playback callbacks, with its drop-oldest bound of one second of audio.
- `sample_ring`: the `ringbuf` ring buffer between the two callbacks and the
  playback side's silence padding.
- `equalizer`: the per-channel filter chain plan and the menu commands.
