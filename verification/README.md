# skillmux

A command-line manager for agent skills: it searches skill registries
(`kingdee`, `clawhub`), installs skills from them or from GitHub, lists,
updates and removes installed skills, and distributes each skill to every
configured install target (`codex`, `qoder`, `qoderwork`, `kiro`,
`workbuddy`).

## Layout

- `src/` — the library, written in Verus. Every function carries a
  `requires`/`ensures` contract that Verus proves, except five small
  wrappers around standard-library calls (`String::push`,
  `String::push_str`, `str::to_lowercase`, `String::from_utf8_lossy`,
  `std::str::from_utf8`), whose contracts are trusted:
  - `config` — settings, `config get`/`config set`, the install targets
    and where each keeps its skills;
  - `manifest` — reading `name` and `description` from the frontmatter of
    a `SKILL.md`;
  - `install`, `update`, `storage` — the decisions of the commands: which
    skill to install from where, which version, what is recorded, what is
    updated and in what order;
  - `sources` — the registries and GitHub: request parameters, mapping of
    responses, cache keys, download and scan checks;
  - `api`, `json`, `git_backend`, `cli`, `error` — the registry client's
    pure parts, a JSON value model, the classification of git failures,
    the command model and the error messages;
  - `text`, `number` — the string and number operations the rest is
    built on.
  Properties that relate several operations (for instance that a value
  set can be read back, or that a `SKILL.md` reads the same with Windows
  line endings) are stated as public proof functions beside the code.
- `app/` — the executable: argument parsing, files, network, git, zip
  archives and terminal output, calling into the library for every
  decision.
- `tests/` — tests of the library on concrete values.
