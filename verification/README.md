# media_vault

The core of a desktop media vault: a folder of media files renamed to UUIDs,
a SQLite database, and a `tags.json` file, searched by text embeddings.

`src/` is the verified library (Verus). It holds the tag maps and every change
made to them, the in-memory log ring buffer, which files the vault takes and
how they are named, content checksums, which preview to show and how ffmpeg is
asked for one, the `media://` protocol's byte ranges, the SQL that lists media
for the description pages, schema upgrades, and the background worker's
decisions as a state machine. Laws that relate several operations are stated
as public proof functions beside them.

`app/` is the Tauri application around it: file and database I/O, running
ffmpeg and the embedding model, the worker thread, and the window's commands.
`tests/` runs the library on concrete values.
