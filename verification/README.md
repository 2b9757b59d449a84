# Todizzy

A tiny menu-bar notepad for macOS: plain text notes, Vim and Helix keys, live markdown, page
swipes and git synchronisation.

The logic is a library whose functions carry contracts that Verus proves. The AppKit layer around
it is ordinary Rust.

## The library (`src/`)

| Module | What it holds |
| --- | --- |
| `text` | Offsets, lines and words in UTF-8 bytes |
| `unicode` | Character classes, UTF-8 and UTF-16 offsets |
| `decimal` | Numbers as decimal digits |
| `editor::model` | A text with a cursor, and where each motion leads |
| `editor::buffer` | The text buffer |
| `editor::action` | Keys, modes, motions and actions |
| `editor::vim`, `editor::helix` | The two key dialects |
| `editor::engine` | The editor as a state machine driven by keys |
| `editor::laws` | What holds of the editor over several keys |
| `markdown` | Which parts of a text are shown in which style |
| `gestures` | The swipe detector |
| `editor_view` | The editing view without its toolkit |
| `settings` | What the user can choose |
| `storage` | The data directory, the list of notes and the names of their files |
| `app_core` | Which note is open, and what the controls decide |

The meaning of each operation is a spec function over a mathematical state (`TextState`,
`EngineState`, `ViewState`, `IndexState`, `CoreState`), and the contract of the executable function
says that its result is that state. Properties that span several operations are public proof
functions.

One function is trusted rather than proved: `String::push` of the standard library.

## The program (`app/`)

`main` and the AppKit objects, reading and writing the notes and the settings, git, and everything
that computes with floating-point numbers: distances on the trackpad, font sizes, places on the
screen. It needs the Objective-C runtime of macOS.

The notes live in `~/Library/Application Support/todizzy/`, or in `$TODIZZY_DATA_DIR` where that is
set.
