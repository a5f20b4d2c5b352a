# quiet_water

A transcription and executive-summary pipeline: a recording is cut into
overlapping chunks, each chunk is transcribed by a local speech recogniser,
the chunk transcripts are gathered into a running transcript, and after every
chunk a local language model rewrites the summary, which is refreshed in one
timestamped file per output directory.

## Layout

- `src/` — the verified library (Verus):
  - `audio.rs`: duration texts, chunking of sample streams with overlap,
    transcription segments and their placement on the audio timeline, the
    choice of WAV sample decoding;
  - `text.rs`: decimal rendering, Unicode white space, trimming, substring
    search;
  - `cli.rs`: the command-line settings, the required option and defaults;
  - `model.rs`: the download address of the recogniser's model file;
  - `summary.rs`: the instructions for the language model, the summary file
    paths and the per-directory choice of summary file;
  - `lib.rs`: chunk settings and the running transcript.
- `app/` — the program around it: command-line parsing with clap, WAV
  decoding with hound, the whisper recogniser, model download with reqwest,
  summarising with rig/Ollama, and the file writes.
- `tests/` — tests of the library.
