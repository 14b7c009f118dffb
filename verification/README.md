# cheaptrip

A travel planning agent: it talks with a language model, lets it call tools (weather, places, trains,
hotels, notes of travellers, maps), and keeps the conversations.

- `src/` is the library. It holds the rules of the agent, verified with Verus:
  - the conversation: `session`, `llm`, `stream`, `turn`, `agent`, `prompt`, `provider`, `mode`,
    `phase`, `notes`, `knowledge`, `config`, `toggles`, `manage`;
  - the tools: `amap`, `trains`, `hotel`, `search_web`, `xhs`, `cluster`, `linkage`, `overview`,
    `scene`, `legend`, `city`, `transit`, `simplify`, `pace`;
  - the terminal: `ui`, `screen`, `markup`;
  - what these rest on: `text`, `json`, `calendar`, `clock`, `order`.
- Verus proves every function of the library against its contract, but for the wrappers around what
  the library calls outside itself. Their contracts are trusted, and a comment above each says what is
  believed of the call: `serde_json` in `json`, `unicode-width` in `markup`, `imageproc` and
  `ab_glyph` in `legend`, and the standard library in `session` (which characters are letters or
  digits), `stream` (decoding UTF-8), `text` (`String::push`, quoting) and `clock` (the time).
- `app/` is the program around it: network, files, terminal, and what is computed in floating point.
- `tests/` runs the library on concrete values.

The proof functions whose names begin with `law_` state what holds of the library as a whole.
Distances are held as the bit patterns of non-negative floating-point numbers, which are ordered as
the numbers are; coordinates are held as bit patterns too, and only compared for equality.

The program reads `config.toml`, the prompt texts under `skills/` and its keys from the environment
(`EXA_API_KEY`, `AMAP_API_KEY` and the variable that the configuration names for the model).
