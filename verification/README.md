# compleo

The core of a desktop reply assistant: on a hotkey it captures the frontmost chat
window, reads it by OCR, and streams a reply drafted by an OpenAI-compatible model
in the user's own style.

- `src/` is the verified library (Verus). It holds the decisions and the text
  handling: chat-app detection, settings fallbacks, the server-sent-event line
  buffer and the `<think>` filter of the streamed reply, the request bodies, the
  distillation rules, the keyboard-monitor state, the reading of `sips` and OCR
  output, and the context given to the model. Contracts are stated over the
  character sequences of strings; the laws of the library are public proof
  functions beside the code they speak of.
- `app/` is the unverified shell around it: the Tauri tray and windows, the global
  hotkey, the macOS screenshot, OCR, clipboard and event-tap calls, the SQLite store,
  the settings file and the HTTP streaming.
- `tests/` runs the library on concrete inputs.
