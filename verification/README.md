# arkime_setup

A terminal wizard that configures an Arkime installation, natively (the
`config.ini`, `wise.ini` and `cont3xt.ini` files and the system services) or
with Docker (`docker-compose.yml` and `arkime.env`).

The library under `src/` holds all of the wizard's logic and is verified with
Verus:

- `app` — the wizard state and what each key does to it (`App::on_key`), the
  file editor's round trip, loading and applying;
- `steps` — which screens a flow has, and moving through them;
- `docset` — the in-memory documents: merging the answers into ini, env and
  compose files while keeping everything else, and reading them back;
- `config` — the ini samples, sentinel substitution and `key=value` editing;
- `actions` — the native system actions and the docker files, as requests to
  a host;
- `domain`, `wizard`, `ui`, `interfaces`, `guards`, `text`, `yaml` — the
  choices, the per-screen decisions, what the screens show, interface
  detection, the start-up checks, and the text and YAML models.

The laws of the library are public proof functions: among them, reading a key
back after setting it, setting one key keeping every other, the rendered
ini and env files reading back into the same answers, rendering keeping the
compose services of other prefixes, and `next`/`prev` undoing each other.

`app/` is the terminal front end (ratatui, crossterm, tui-input,
tui-textarea): argument handling, host detection, the filesystem and process
operations, and drawing the screens. `tests/` runs the library.
