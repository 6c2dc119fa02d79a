# skillctl

A profile-driven manager for Agent skills: a global skill library, profiles
applied to projects, and the shell-level protocol through which an Agent
lists, describes and loads the skills of its project.

## Layout

- `src/` is the library, written in Verus and verified. It holds the skill
  ids, the `AGENTS.md` entry block, `SKILL.md` frontmatter handling, profiles,
  the manifest, lock and registry, source parsing and fetch plans, the
  picker's state machine, and the decisions of every command. Each public
  function states its result in its `ensures`; the laws that span functions
  are public proof functions whose names begin with `law_`.
- `app/` is the command-line program around it: argument parsing, files,
  `git`, the environment, serialisation and the terminal. It hands the
  library plain values and prints what comes back.
- `tests/` runs the library on concrete values.

Calls into outside crates that the library makes (`sha2`, `camino`) stand
behind a few trusted wrappers, each with a doc comment saying what its
contract claims.
