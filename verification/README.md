# Agent Manager

The core of a desktop manager for interactive coding-agent sessions, written in
Verus, with the desktop program around it.

- `src/` is the verified library. `app` holds the manager's state and what each
  event makes of it; `session`, `tab` and `subagents` the sessions and what their
  transcripts tell; `auth`, `oidc` and `bao` signing in; `cloud` and `cloud_api`
  the cloud agents; `convert` and `history` converting scripts; `clipboard` and
  `picture` pasted images; `sidebar`, `rows`, `tasks`, `markdown`, `terminal`,
  `screen` and `touch` what is shown. `text`, `split`, `digits`, `letters`, `path`,
  `iso`, `json`, `urlenc`, `http` and `html` carry the rest.
- `tests/` runs the library.
- `app/` is the program: the window, the terminals, files, processes and the
  network. It hands plain values to the library and carries out what comes back.

Where a flow alternates outside work and decisions, the library has a function
from what is known so far to the next step, and the program performs the step.
Each public function states in its contract what it returns; laws that relate
several functions are the public proof functions whose names begin with `law_`.
