# typwrtr

A dictation program: it records from a hotkey, transcribes, rewrites the
transcript, pastes it into the app in front, and learns from what the user makes
of it. This crate holds the program's rules as a verified library, and the
program around it.

## `src/`

The library. Text is reasoned about as sequences of characters; each function
states what it returns over spec functions on them.

| module | what it decides |
| --- | --- |
| `chars`, `text` | character classes, words, lines, trimming, joining |
| `commands` | spoken commands and snippets |
| `cleanup` | output modes; repeated words and phrases heard in silence |
| `learning` | corrections out of a text and its edited form |
| `recorder` | prompt, corrections put in, the watch over an edited field, the state of a recording, the way of a transcript from end to end |
| `db` | what is written to the store, and what stays forgotten |
| `audio`, `streaming` | devices, the cap, silence, captions |
| `hotkeys`, `clipboard`, `context`, `settings` | hotkeys, the borrowed clipboard, the app in front, the settings file |
| `transcribe`, `transcribe_local`, `llm_cleanup` | models, engines, the optional language model |

Functions whose names begin with `law_` state what holds across several of the
others. What the library takes from other crates and from the standard library
without proof stands in small functions marked `external_body` or as assumed
specifications, each with a comment that says what is claimed.

## `tests/`

Tests on concrete values.

## `app/`

The program: windows, hotkeys, microphone, store, clipboard, recognisers and
network. It asks the library what to do, does it, and hands back what came of
it.
