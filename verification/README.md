# zava

A terminal audio visualizer: it reads audio (PipeWire, PulseAudio, ALSA,
a FIFO, a sound device or a synthetic test signal), turns it into bars or
a waveform, and draws them in the terminal or writes them as raw frames.

The crate is in two parts.

- `src/` is the library, written in Verus. Every function in it carries a
  `requires`/`ensures` contract that Verus proves: bar counting and layout
  along an axis, glyph and cell choice, colour tables, the INI reader and
  the comment-preserving INI writer (with the laws that saving twice is
  stable and that saved values read back, for every value a save can write
  back in place: empty and quoted values included, but not a trailing
  comment kept after a value that cannot carry it), the settings menu as a state
  machine, key and signal handling, command-line parsing, the raw frame
  encodings and the spectrum analysis' parameter checks.
- `app/` is the program around it: the terminal, audio devices and files,
  the FFT and the floating-point smoothing and colour blending. It hands
  the library plain values and acts on what comes back.

Layout:

| module               | what it holds                                        |
|----------------------|------------------------------------------------------|
| `src/render/`        | bar fitting, layout, glyphs, colour maps, raw frames |
| `src/config.rs`      | setting values, their INI spellings, the INI reader  |
| `src/settings.rs`    | the general, output and smoothing settings read      |
| `src/ini_write.rs`   | rewriting an INI text with new values                |
| `src/ini_stable.rs`  | the save laws: stability and read-back               |
| `src/menu.rs`        | menu rows and the menu's step function               |
| `src/control.rs`     | bar counts and the bar keys of the main loop         |
| `src/events.rs`      | what a key or a signal asks for                      |
| `src/cli.rs`         | command-line arguments                               |
| `src/audio.rs`       | PCM decoding and FIFO read sizes                     |
| `src/dsp.rs`         | FFT buffer sizes and parameter checks                |

The tests under `tests/` run the library on concrete values.
