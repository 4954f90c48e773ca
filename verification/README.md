# ralume

The decision logic of a Linux screen recorder with speech-to-text, written
in Verus and proved against its contracts.

- `src/` is the verified library:
  - `library::scanner`: the display of recordings (duration, size, resolution,
    date), which files count as recordings, reading `ffprobe` output, and the
    stable newest-first order of the library.
  - `recorder::audio`: finding the audio sources from `pactl` answers (a step
    function driven by the caller) and the volume check.
  - `recorder::encoders`: the H.264 encoder candidates, the choice under a
    hardware hint, and the element properties.
  - `transcription`: error messages, the transcript path, the upload form and
    the decoding and reading of API answers (plain text, `verbose_json`,
    diarized dialogue), the retry policy, and the `ffmpeg` commands for
    preparing and splitting audio with the size check of the parts.
  - `ui`: the timer text and pause button of the floating toolbar, and the
    processing queue of the AI page.
  - `text` and `path`: character-level helpers and file-name handling.
- `app/` performs the input and output: processes (`pactl`, `ffmpeg`,
  `ffprobe`), files, HTTP, GStreamer and GTK.
- `tests/` runs the library on concrete values, and compares several helpers
  with the standard library, `chrono` and float formatting.
