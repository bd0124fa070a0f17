# Onyx

Onyx stress-tests a DOMjudge server as a pre-flight check: it checks the configuration,
the running contest and the prepared solutions, then lets every team of a CSV file log in,
wait for the others, and submit solutions while polling the team page and the scoreboard.

## Layout

- `src/` is the verified library (Verus):
  - `text`, `paths`: strings and paths as sequences of characters (trimming, splitting,
    ASCII case, `Path::join` semantics).
  - `config`: the configuration, its defaults, the log level names and the required fields.
  - `models`: team credentials from the rows of the team CSV file.
  - `preflight`: the API URLs, the contest window check, the problem checks and the
    solutions directory layout check.
  - `cookies`, `http`: cookie jars, `Cookie` headers, CSRF tokens, status classes and
    redirect targets.
  - `loadtest`: participants, the login barrier, the random choice of an unsolved problem
    and the solution files.
  - `participant`, `login`, `submission`: the state machines of a participant's run, of its
    login and of one submission. Each step takes what happened and says what to do next.
- `app/` is the program around it: command line, configuration file, HTTP requests, file
  system, the Goose load test and the loops that drive the state machines.
- `tests/` runs the library on concrete values.
