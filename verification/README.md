# tt_cli

The logic of the commands of a personal time tracker, written in Verus. A module of
`src/` stands for each command: what it decides, computes and prints, on plain values,
with contracts that Verus proves.

- `classify` shows what there is to classify, and applies assignments of events to
  streams; `classify_auto` decides what a pass asks a classifier and what its answers
  mean.
- `ingest` records the activity of tmux panes and of agent sessions; `export` and
  `import` move events between machines.
- `context`, `events`, `infer`, `init`, `machines` and `priority` are the smaller
  commands.
- `model`, `time`, `text`, `json`, `ids`, `order` and `util` are what these share. The
  calls into `chrono`, `serde_json`, `shlex` and `uuid` stand behind wrappers, each with
  what is taken as true of it.

`app/` is the program around the library: arguments, files, processes, the classifier
and the store, which it reaches through traits. `tests/` runs the library on given
values.
