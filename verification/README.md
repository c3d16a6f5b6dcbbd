# oscilloscope-me

FM receiver with a terminal X/Y vectorscope for oscilloscope music: left is X,
right is Y. Samples come from an RTL-SDR dongle, an Airspy R2/Mini or an Airspy
HF+, or from an MP3 file.

`src/` is the library. It is written in Verus, and its functions are proved against
their contracts, apart from three small wrappers around `num-complex`:

| Module | What it holds |
|--------|---------------|
| `demod` | tuner settings, the integer FM demodulator, the decimators, the choice of the stereo carrier |
| `sdr`, `airspyhf` | which tuner is used, how commands and answers of a device change the capture |
| `ring`, `resample`, `output` | the buffers between demodulator, resampler and audio device |
| `audio` | the choice of the audio device, its rate and its format |
| `file` | the course of decoding and of playback |
| `app`, `keys`, `controls` | the state of the program, what keys do, the filter of key repeats |
| `display` | the status line and the points of the trace |
| `text` | numbers and searching in texts |

Properties that span several functions are public proof functions, named
`lemma_*`, beside the functions they speak of.

The library holds no floating-point numbers: samples and levels are values of a
type parameter that are carried through. `app/` is the program around it: devices,
terminal, threads, and all floating-point signal processing. What the library
takes from `num-complex` and from the standard library without proof is stated in
`src/demod/complex.rs` and at the top of `src/text.rs`.

## Keys

| Key | Action |
|-----|--------|
| `q`, `Esc` | quit |
| `+`, `=` | tune +0.1 MHz; volume up without a receiver |
| `-` | tune -0.1 MHz; volume down without a receiver |
| `_` | volume down |
| arrows, `.` `,` `<` `>` | tune by 0.1 or 1 MHz; seek in a file |
| `g` | cycle the gain: auto, 0, 20, 40 dB |
| `f`, `p` | enter a frequency, a correction |
| `m`, `d`, space | mono, de-emphasis, mute |
| space, `l`, `r` | pause, loop, restart of a file |
