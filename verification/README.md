# loquazx

The verified core of loquazX, a desktop application that dubs videos and
narrated PDF presentations: it transcribes the audio, has the segments
translated (by an outside LLM through a JSON request and response, or by a
local NLLB model), synthesizes the translation with Piper or edge-tts, and
renders the result.

- `src/` is the library, verified with Verus: the project folder's rules
  (`project`), merging translations (`translation`), the media server's URLs
  and answers (`media`), WAV headers and envelopes (`wav`), the catalogs of
  models and voices (`models`, `voices`, `translate_engine`, `tts`,
  `tts_edge`), downloads (`download`), the presentation's page handling
  (`presentacion`), and the text, path and time helpers they share
  (`text`, `paths`, `time`, `ids`).
- `app/` is the input/output side: files, processes (ffmpeg, poppler),
  sockets, HTTP, and the neural models (whisper, NLLB on ONNX Runtime,
  Piper), with serde copies of the library's types. Arithmetic on times in
  seconds, which is floating point, lives there too.
- `tests/` exercises the library on concrete values.
