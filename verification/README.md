# dsync

`ds` syncs a git repository to a replica, on another host or at another local
path, whenever its files change. The files are watched with watchman; a change
reaches the replica by a full-tree rsync, or, when it is small, by a tar stream
of just the changed files.

- `ds sync [HOST:]PATH` watches and syncs, forever.
- `ds status` tells how up-to-date the replica is.
- `ds barrier` waits until the replica is up-to-date as of its invocation.
- `ds exec` runs a command in the replica, after such a wait.

## Layout

`src/` is the library, written in Verus: every rule and decision of `ds`, with
its contract. Modules that end in `_laws` state what holds across functions:

| Modules | What they hold |
| --- | --- |
| `pattern`, `eval`, `eval_laws` | gitignore patterns, and what a layered rule set ignores |
| `render`, `render_laws` | patterns as glob text, and that it reads back |
| `rsync`, `rsync_laws` | rsync filter rules, and that rsync leaves out what is ignored |
| `watchman`, `watchman_laws`, `json`, `translate` | watchman expressions, and that they match what is ignored |
| `load`, `load_laws`, `git`, `ignore`, `names` | which ignore files are read, in which order, and what is made of them |
| `paths`, `repo`, `target` | Unix paths, the repository's root, `[HOST:]PATH` targets |
| `command`, `exec`, `exec_laws` | command lines, shell quoting, and that a shell reads it back |
| `fastpath`, `fastpath_laws`, `wquery` | the small-change fast path and its since-queries |
| `sync`, `sync_laws`, `state` | the sync loop's decisions and the state it keeps |
| `protocol`, `server`, `client`, `status`, `barrier` | requests, what they are answered, and how answers are read |
| `text` | characters and strings |

`app/` is the program around it: the command line, files, sockets, timers,
child processes, the watchman connection, and what is computed in floating
point.

`tests/` runs the library on concrete values.
