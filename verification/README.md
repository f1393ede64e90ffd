# parla

Hold a key, say what you want, and have it happen on a KDE Plasma desktop.

`parla` is the verified core of a push-to-talk voice daemon: what is decided
about an utterance between the microphone and the desktop. The decisions are
written in Verus, with contracts that say exactly what each function returns;
the microphone, the models, the session bus and the desktop are reached from
the program in `app/`.

## How an utterance travels

A hotkey starts a capture. The capture is resampled, trimmed to the speech in
it and transcribed. A dictation goes through snippets, the dictionary and
cleanup, and is typed. A command is read by the grammar or judged by a model;
either way it passes one policy, and what the policy wants confirmed waits for
a spoken yes.

## Layout

`src/`, the library:

| modules | what they decide |
| --- | --- |
| `text`, `double` | characters, words and numbers, and doubles by their bits |
| `config`, `hotkeys`, `session`, `cues`, `health` | settings, key chords, the instance lock, sounds, the self-check |
| `audio`, `vad`, `asr` | resampling, the speech gate, invented phrases |
| `flow`, `breaks`, `openai` | dictation cleanup and spoken edits |
| `intent`, `desktop`, `policy`, `confirm`, `router` | commands, what may run, what waits for a yes |
| `oracle`, `judge`, `judge_text`, `payload`, `verdict` | the questions put to a model and what its answers come to |
| `local`, `decode`, `typesafe` | prompts and scoring for a local model, retries for the API |
| `corpus`, `calibrate` | measuring the thresholds against a corpus |
| `daemon`, `dbus`, `history` | the main loop, what is published, the records |
| `ui`, `mock` | the UI's mirror of the daemon, and a stand-in for the daemon |

Floating point numbers are held as `double::Double`, by their bits: the
library compares and prints them, and the program computes them.

What is believed of the standard library and of `reqwest` without proof stands
in `text` and `typesafe`, each item with what it claims.

`tests/` runs the library; `app/` is the program.

## The coding assistant

Some commands pass a message on to a coding assistant in a terminal. They start
with the name it goes by, which `router.assistant` in the config sets.
