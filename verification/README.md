# bdd

`bdd` runs the steps of the Distributed Databases exercises (FATEC-SJC) inside
the three virtual machines of the cluster (MGM, N1, N2), remembers what was
done on each machine and always tells the next step. `bdd inject`, run on the
host, finds the machines over SSH, lets the user give each one its role and
installs `bdd` on them.

## Layout

- `src/` is the library, verified with Verus:
  - `model.rs`: roles and the manifest of steps;
  - `state.rs`: the state file (what ran, what passed, what was validated)
    and its text format;
  - `flow.rs`, `commands.rs`, `check.rs`, `evidence.rs`: what each command
    decides from the steps, the state and the machine's role;
  - `detect.rs`: the role from the machine's internal address;
  - `creds.rs`, `cands.rs`: the credentials grid and the machines found by
    `bdd inject`;
  - `panel.rs`, `creds_screen.rs`, `select_screen.rs`, `keys.rs`: the
    fixed-size panel of `bdd inject`, its two screens and the keys they take;
  - `text.rs`, `ui.rs`: text operations and terminal colours.
- `app/` is the program: arguments, files, processes (bash, ssh, scp), the
  network scan and the terminal.
- `tests/` holds the tests of the library.

The step scripts are read at run time from the directory named by
`BDD_SCRIPTS` (default `/usr/local/share/bdd`), under the paths that the
manifest gives (`EX02/01_ALL_configura-rede.bash`, ...). `bdd inject` copies
that directory from the host to each machine along with the binary. The state
lives in `BDD_DIR` (default `/var/lib/bdd`).

An optional step (8.0) is never asked for by `next`, `run` or `ok`, does not
keep an exercise open, and is shown apart by `log` and `check`.
