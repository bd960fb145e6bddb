# soma

The verified core of the Soma command-line tool, written in Verus.

- `src/` is the library. Every function in it carries a contract that Verus
  proves: the naming rules and JSON-Schema-to-TypeScript translation of the
  generated bridge client, the grouping of functions by provider and account,
  KMS key validation, runtime detection, port search, the Restate server
  settings, the process registry and its shutdown order, file-watch filtering
  and debouncing, the prompts' checks, the unpacking of project templates, the
  plans that bring the Soma API and `soma.yaml` in line with each other (on
  start, and for each configuration event afterwards), and the shutdown
  supervision of `soma dev`. Public `law_*` proof functions state properties that span calls.
- `tests/` runs the library on concrete values.
- `app/` is the command-line program around the library: argument parsing,
  downloads, processes, the file watcher and the calls to the Soma API.
