# dictation

A voice dictation tool for GNOME: press a shortcut, speak, press it again, and
the words are typed at the cursor. Speech is transcribed by a whisper.cpp
server; a GNOME Shell extension provides the tray icon, the global shortcut and
the typing.

## Layout

- `src/` is the verified library (Verus). Each module states its behaviour in
  `requires`/`ensures` contracts over spec functions, and the laws that tie
  several functions together are public proof functions:
  - `text`: whitespace, words, joining, trimming, decimal numbers.
  - `transcriber`, `transcriber_whisper`, `transcriber_openai`,
    `transcriber_factory`: endpoints, prompts, response sanitizing, and the
    parser of the whisper.cpp reply stream.
  - `daemon`: the dictation cycle's decisions (gathered text, typed text,
    tray updates, menu actions, reconnect back-off, context reading).
  - `history`, `mpris`, `doctor`, `shortcut_recorder`, `accessibility`,
    `opus_encoder`, `config`, `commands`, `audio`, `traits`.
- `app/` is the program around it: the command line, D-Bus, audio capture and
  playback, HTTP, the settings window, and the floating-point audio
  processing.
- `tests/` exercises the library on concrete values.
