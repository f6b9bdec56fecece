# devdeck

The logic behind DevDeck's bots, businesses and AI workspace, written in
Verus: each public function states in `requires` / `ensures` what it does,
and Verus proves it.

- `src/` is the library. It holds the tool registry and the permission
  matrix, the scripted provider, the
  wire formats of the model providers and the reassembly of streamed
  replies, the bot catalog, bot files, a bot's mind (interview, beliefs,
  suggestions), plans and routines, businesses and their repositories, and
  the reading of web pages. Properties that span several calls (a file
  written and read back, a plan applied twice, permissions restored, a
  wire name resolved, a stream put back together) are stated as public
  `law_*` proof functions beside the code they are about.
- The few calls into other crates (`chrono` for timestamps, `url` through
  `reqwest` for joining and reading addresses, `serde_json` for quoting a
  string) and into `std` where `vstd` says nothing (lowercasing, character
  classes) go through small trusted functions whose doc comments say what
  their contracts claim.
- `tests/` runs the library on concrete values.
- `app/` is the unverified rest: the process entry point, the disk, the
  network and the clock, and the `serde` copies of library types. It makes
  no decision of its own.
