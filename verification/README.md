# video_coach

The logic of a desktop app for breaking down game film, written and proved in
[Verus](https://github.com/verus-lang/verus): project documents, commentary
timelines, export plans, the goals reel, transport, undo, match events, the
transcription queue and what the window shows of them.

- `src/` is the library. Every function states what it does in `requires` and
  `ensures`, and Verus proves it. Properties that span functions are public
  proof functions named `law_…`.
- `tests/` runs the library on concrete values.
- `app/` is a terminal program around the library: it does the files, the
  clock and the floating point.

## Units

Times are whole ticks of a third of a nanosecond, in which both a nanosecond
and an output frame at 30 fps are whole. Sound levels are thousandths of a
decibel, volumes millionths of full, and colour channels 25 500ths of one, in
which both a byte and a hundredth are whole.

## Layout

| Area | Modules |
| --- | --- |
| Documents | `project`, `event`, `scoreboard_config`, `store`, `state`, `id`, `tag`, `time`, `text`, `format` |
| Timelines and plans | `timeline`, `plan`, `reel`, `export` |
| Editing | `clips`, `trash`, `undo`, `sources`, `match_events`, `recording`, `lifecycle` |
| Machines | `transport`, `skip`, `transcription`, `export_run`, `export_job`, `preview`, `command` |
| Window | `window`, `rows`, `sheets`, `match_panel`, `callbacks`, `drawing`, `pickers`, `user_error` |
| Sound | `signals` |

## What is taken on trust

Calls into `uuid` and `serde_json`, and a few of the standard library's string
functions, are declared with contracts that Verus believes. Each says in its
doc comment what it claims and what it leaves unsaid. They stand in `id`,
`store` and `text`.
