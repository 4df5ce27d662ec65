# biliup_app

The logic of a desktop uploader for bilibili, verified with Verus.

`src/` is the verified library:

- `config`, `named_map`, `order`, `config_laws`: the configuration (users,
  templates, template order and update stamps, user order), its
  normalization, and the laws that tie the operations together.
- `compat`: taking over the previous release's configuration.
- `ai`, `titles`: the AI title flow — settings checks, the chat address and
  request bodies, reading complete and streamed replies, extracting a title.
- `bili`, `season`, `json`: JSON values (replies are read with
  `serde_json`), the platform's replies (video editing view, mention
  search, seasons), season requests and the outcome of a submission.
- `media`: avatar file names and addresses, the structured description,
  Base64 and cover previews.
- `upload`, `chunk`, `queue`, `service`: line choice, the steps of a
  running upload, upload data handed out in 1 MiB pieces (kept in
  `bytes::Bytes`), scheduling, the task queue kept in an `IndexMap`, and the
  service's task states (start, pause, cancel, retry, scheduler tick).
- `version`, `ffmpeg`, `text`, `error`: release versions, ffmpeg's reports,
  text helpers and errors.

`app/` holds what Verus does not see: serialized forms of the library's
types, file and process I/O, the HTTP client, JSON conversion, and the
loops that drive the library's step functions. `tests/` exercises the library.
