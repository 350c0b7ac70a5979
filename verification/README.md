# zitree

Verified core of a workspace of Zellij plugins:

- **treemin** (and its predecessor **zitree**): create Git worktrees and switch into a Zellij
  session rooted at each worktree;
- **seshmin** (and its predecessor **zessionz**): a session picker that lists live and
  resurrectable sessions together with the directories that zoxide ranks;
- the shared libraries: boxed terminal panels (`ui`), the host storage paths
  (`host_storage`) and the registry of sessions that treemin manages (`registry`).

## Layout

- `src/` is the library, verified with Verus. Each plugin's logic is a state machine:
  a function from the state and an event (a key, a command's result, a session update)
  to the next state and the effects to perform (`Effect`), with a contract stated over a
  spec function of the state's view. Naming, parsing of `git` and `zoxide` output,
  configuration, search ordering and the rendered panel lines are verified functions too.
  The laws that relate several functions are public proof functions (`lemma_*`) next to
  the functions they speak of.
- `app/` is the plugin binary: it subscribes to Zellij events, runs the commands that the
  effects ask for, reads and writes the registry file, parses `.treemin.toml`, and prints
  the lines that the library renders.
- `tests/` holds the tests, run against the compiled library.

Calls into outside code that the logic makes (`BTreeMap::get`, `Path` queries,
`String::from_utf8_lossy`, `humantime::format_duration`, the skim fuzzy matcher) stand
behind small trusted wrappers whose doc comments say what is assumed of them.

## What is not here

The workspace holds earlier forms of two plugins next to their successors: `zitree`
became `treemin` and `zessionz` became `seshmin`. Their shared parts stand in `src/`
(zitree's configuration, naming, branch validation and panel; zessionz's naming of zoxide
directories, its list items and list layout). Their state machines do not:

- the zitree plugin's `State` calls a three-argument `naming::session_name_candidates`
  that no file of the workspace defines;
- the workspace root's `State` calls `naming::worktree_path` and `naming::session_name`
  with other arguments than those files declare, and imports a `validation` module that is
  not there; its command runners and panel printing are the same as treemin's;
- zessionz's `State` builds on a search engine that calls `compare_for_display` and
  `is_selectable`, which its `SessionItem` lacks, and on a `zoxide/directory.rs` that is
  missing; its session manager is seshmin's without the retain operations.

These sources cannot be put together as written. Their logic is the earlier form of the
treemin and seshmin state machines, which `src/` verifies; their tests run against those.
The search engine stands in `src/seshmin/search.rs`, over seshmin's items, which have the
methods it calls.
