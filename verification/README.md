# S3 Pulse

S3 Pulse watches a bucket prefix, keeps a bounded arrival history, judges the
feed's cadence and sizes, and downloads single objects. It answers one question:
is the data feed arriving when it should?

## Layout

- `src/` is the library: everything S3 Pulse decides or computes, verified with
  Verus. Each public function states what it returns; the public proof functions
  state what holds of the library as a whole.
- `app/` is the program around it: the command line, the AWS SDK, files, tasks and
  JSON. It performs what the library asks for and hands back what came of it.
- `tests/` runs the library on concrete values.

## Modules

| Module | Subject |
| --- | --- |
| `text`, `digits` | texts and numbers as text |
| `time` | instants, the calendar, time zones |
| `sorting` | stable sorting by a strict order |
| `error` | what can go wrong, and how failures of the service are categorized |
| `uri`, `template` | targets, and date placeholders in them |
| `model` | objects, changes, statistics, configuration |
| `history`, `retention` | the rolling history and what holds of it |
| `statistics` | cadence, lateness and size outliers, in exact arithmetic |
| `store`, `download` | listings page by page, downloads step by step |
| `watcher` | one polling loop |
| `cli`, `output` | commands and what they print |
| `protocol`, `service`, `transport` | JSON-RPC messages, methods, lines and requests |
| `runtime` | the watchers of the backend |
| `ids` | random identifiers |

Durations and rates are exact fractions in the library; the program turns them
into floating-point numbers where it writes them out.
