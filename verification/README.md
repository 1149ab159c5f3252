# spotify_rust

A desktop Spotify client (Slint interface, librespot audio, Spotify Web API, LRCLIB lyrics)
whose logic is a library verified with Verus.

## Layout

- `src/` — the verified library:
  - `models.rs`: tracks, playlists, lyric lines; `m:ss` durations; the LRC lyrics reader
    (sorted, stable, nothing lost) and the timestamp reader.
  - `playback.rs`: the playback queue (next, previous, play-pause, picking from "up next",
    position reports and the active lyric line), "up next" and history de-duplication.
  - `player.rs`: the audio command loop as a state machine (state and input to new state,
    engine call and messages).
  - `client.rs`, `json.rs`: reading Spotify Web API responses; request addresses.
  - `auth.rs`: the OAuth callback request, client id choice, credential cleaning.
  - `cache.rs`: cover file names (MD5 of the address), cover decoding to RGBA pixels and the
    image cache decision.
  - `config.rs`, `lyrics.rs`, `text.rs`: view preferences, lyric source choice, text helpers.
- `tests/` — tests of the library on concrete values.
- `app/` — the program: window, network, audio engine, database and files, driving the library.
