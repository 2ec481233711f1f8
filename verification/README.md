# nadeloader

The logic of a desktop launcher that fetches Neverlose builds from GitHub, starts CS:GO through
Steam and loads the chosen DLL into the game, written in Verus and proved against its contracts.

## Layout

- `src/` — the verified library.
  - `text.rs`: character-level string helpers (trimming, prefixes, line pieces, ordering).
  - `codec.rs`: base64 and MessagePack, through `base64` and `rmpv`, with the laws that
    base64 decoding gives back what was encoded and that a base64 text decodes to at most one
    byte string.
  - `error.rs`: the launcher's error type.
  - `theme.rs`: picking the selected style (a built-in one first, else a saved one) from the
    cloud state, decoding its colours,
    building the launcher's CSS variables, and sanitising file names.
  - `profile.rs`: the settings shown from the cloud state, the avatar's data URL, and saving
    the profile name into `state.json` (every other field kept).
  - `releases.rs`: sorting GitHub releases into stable and nightly builds, local builds, and
    the waiting loop for the game.
  - `steam.rs`: Steam paths, launch URLs, `steam.inf` version pinning, `libraryfolders.vdf`,
    and the state machine that closes a running game.
  - `inject.rs`: the state machine that loads a DLL into the game and releases every handle
    and remote allocation it takes, with one exception: when the DLL path holds a NUL byte,
    the injection stops with the game's process handle still open.
- `tests/` — tests run against the compiled library.
- `app/` — the Tauri application around the library: commands, file and network I/O, the
  Windows calls that drive the two state machines, and the floating-point colour work.
  A fresh cloud folder is filled from a `defaults` folder beside the executable, and the
  built-in styles are read from `builtin-styles/{id}_{name}.style` beside it.
