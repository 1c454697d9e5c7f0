# Bangs

The rules behind a dynamic notch for macOS and Windows, written in Verus: what
the notch shows of the song that plays, where it sits, and what it does with the
mouse. Every function of the library states in its contract what it returns, and
Verus proves it.

- `src/lyrics/`: reading lyrics (`parse`), telling songs apart (`song`), searching
  the catalogues (`search`, `lookup`), laying translations over lines (`align`),
  choosing a result (`select`), keeping it (`cache`) and showing it (`hub`)
- `src/media/`: reading a player's session (`session`) and its cover (`artwork`)
- `src/geometry.rs`: placing the window, the hit rect, the cursor tracker
- `src/platform.rs`: what the system's windows and screens say
- `src/settings.rs`: the settings and the order of the tabs
- `src/json.rs`, `src/number.rs`, `src/text.rs`: documents, numbers and text

Times are counted in ticks of 100 ns, lengths in thousandths of a logical px, and
what is divided by a scale is kept as a fraction, so that the library needs no
floating point. Functions named `law_` state what holds across several functions.

`app/` is the application around the library: files, the network, threads, and
the desktop. `tests/` runs the library on concrete values.
