# hammond_b3

A virtual Hammond B3 tonewheel organ. The control logic is a Verus-verified
library (`src/`); the floating-point signal path, the audio and MIDI devices and
the egui window live in the program under `app/`.

## Library (`src/`)

| Module     | What it holds |
|------------|---------------|
| `engine`   | Tonewheel foldback, the wheel each drawbar and the percussion gate, the key-click noise generator |
| `voices`   | The bank of held keys: one voice per note, held-press count, single-triggered percussion |
| `params`   | Note events and the bounded FIFO queue between the input threads and the audio thread |
| `midi`     | Decoding raw MIDI messages into note events |
| `keyboard` | The playing keyboard: octave shift, mouse note, computer-key chords, manual layout and key labels |
| `preset`   | Leslie speed, vibrato/chorus selector, percussion settings, drawbar levels and colours |
| `picture`  | Decoding the cabinet's wood photo into RGBA pixels for a texture |

Laws that relate several calls are public proof functions (`lemma_*`) next to
the code they are about; the rest are in the `ensures` of the functions
themselves.

## Program (`app/`)

`app/main.rs` starts audio (`cpal`), MIDI input (`midir`) and the GUI
(`eframe`/`egui`); `app/engine.rs` and `app/leslie.rs` are the DSP; presets are
(de)serialized as TOML with `serde`/`toml` in `app/preset.rs`.

```bash
cargo test        # library tests
```
