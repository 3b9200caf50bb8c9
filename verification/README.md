# autocreamapi

The verified core of AutoCreamAPI, a tool that sets up CreamAPI for Steam
games, written in Verus.

- `src/` — the library, verified by Verus:
  - `text.rs`: trimming, splitting and comparing character sequences;
  - `number.rs`: decimal text of integers and `u32` parsing;
  - `steam.rs`: `libraryfolders.vdf` and `.acf` manifests, the search
    below a game's directory for its Steam API DLLs, and the list of
    installed games (one per app id, ordered by lower-cased name);
  - `creamapi.rs`: the text of `cream_api.ini`, and the install and the
    removal as sequences of steps (`ApplyRun` / `apply`, `RemoveRun` /
    `remove`);
  - `game_files.rs`: the install and removal run end to end against a
    model of the game's files, with the laws that relate them (a removal
    undoes an install; a second removal changes nothing; the backup is the
    original DLL);
  - `dlc.rs`: what the Steam Store API and SteamCMD answers give, and how the
    two DLC lists are merged.
- `app/` — the file system, registry and network side, which performs the
  reads and writes and hands the decisions to the library.
- `tests/` — tests of the library on concrete inputs.
