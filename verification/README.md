# sotone-core

The core of Sotone, a dictation tool for people who take notes while they test
something else: hold a key, say what you saw, and the words land in a draft that
is saved as markdown.

The library is written in Verus. It opens no file and no device. What has to be
read is handed in as plain values, what has to be done comes back as a plan, and
the decisions in between carry contracts that Verus proves.

## Layout

- `src/draft/`: the draft store. The line log and how it folds (`log`), the
  plans that append to it (`plan`), saving to markdown and the guard against
  overwriting what the user changed (`save`), renaming and moving notes
  (`relocate`), the store and its trash (`store`), search (`search`), and what
  holds of them together (`laws`).
- `src/audio/`: capture. The assembly of utterances from a rolling pre-roll
  (`assembly`), the ring behind the device callback (`ring`), one pass of the
  capture worker (`worker`), the engine's decisions (`engine`, `device`, `level`,
  `channels`).
- `src/config/`: the configuration. Loading with an error for everything that is
  not understood (`load`), saving into the same TOML document so that comments,
  order and unknown keys survive (`save`), projects (`project`, `settings`), and
  what holds of loading and saving together (`laws`).
- `src/cue.rs`, `src/fsutil.rs`, `src/path.rs`, `src/text.rs` and the other files
  beside them: the audio cues, atomic writes, paths and their texts, and the small
  parts the rest stands on.
- `app/`: files, threads, sound devices and floating point around the library.
- `tests/`: the library at work.

## What is trusted

Every call into another crate, and every `std` function that has no contract of
its own, stands behind a small item whose doc comment names the function and says
what is claimed of it. They are in `text`, `path`, `places`, `stamp`, `ids`,
`audio/ring`, `config/document`, `draft/error`, `draft/handle`, `draft/log` and
`draft/save`.
