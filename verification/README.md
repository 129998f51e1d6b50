# ddnet_rs

Verified parts of a DDNet server's surroundings: the reverse proxy that
forwards client identities, the proxy that serves clients of the old 0.6
protocol, and the rules of a few tools around the game.

- `src/` is the library. Everything in it is verified with Verus.
  - `text`, `tables`, `transfer`, `hash`: text, tables, transfers, fingerprints
  - `certificate`, `proxy`, `config`, `relay`, `s2s`, `server_list`: the
    reverse proxy
  - `legacy`: snapshots, input, events, votes and messages of old clients
  - `s2n`, `pool`, `wgpu`, `wasm`, `fng`, `ui`, `updater`, `assets`: framing
    and channels, pooled values, graphics memory, game modules, the freeze mod,
    what the client shows, updates, and the assets server
- `tests/` runs the library with the crates that it calls.
- `app/` holds the programs around it: `main.rs` is the reverse proxy,
  `legacy_server_proxy.rs` the proxy for old clients and
  `assets_download_server.rs` the assets server. The latter two build inside
  the game's workspace, as do the parts that plug into the client, the editor
  and the server: `connect_frame.rs`, `bottom_panel.rs`, `s2n_network.rs`,
  `game_modules.rs` and `wgpu_backend.rs`.

Functions of other crates stand behind small wrappers; the comment above each
says what is believed of it.
