# training_engine

Verified core of a football simulation and policy-training tool, written in Verus.

`src/` holds the logic that can be stated and proved over integers, strings and
sequences:

- `clock`, `rules`, `frame`, `game`, `spatial`: match phases and countdowns, restart and
  tackle rules, goal and assist crediting, player timers, and the per-frame state of a
  browser session.
- `trainer`, `anneal`, `mutation`, `history`: chunked candidate-versus-baseline
  evaluations (seeds, sides, running totals), the accept/reject bookkeeping of annealing
  stages, the choice of mutated slots, and session summaries.
- `tournament`, `matrix`, `registry`: round-robin schedules, standings, ranking, score
  distributions, result matrices and the handle registry of live sessions.
- `sessions`, `datetime`, `params`, `combos`, `teams`, `text`, `order`: folder and file
  names, calendar conversion of Unix time, parameter naming and JSON key paths,
  parameter combinations, and the text helpers they share.

`app/` is the command line front end: argument handling, file and JSON I/O, and the
floating-point statistics and colours around the library. The match simulation itself
(float physics and AI) is not part of this tree.

`tests/` exercises the library on concrete values.
