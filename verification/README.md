# displayz

Display settings and display topologies of a Windows desktop: a verified library,
and a command line program around it.

## Layout

- `src/` holds the library. Every function states what it does in `requires` and
  `ensures`, and Verus proves it.
  - `config`, `properties`, `types`: display configurations and the settings in them
  - `display`, `display_laws`: sets of displays, the primary display, and writing
    settings back into a configuration
  - `query`, `topology`, `recent`: the questions to the system, step by step
  - `connectivity`, `connectivity_laws`, `display_sets`: the stored display sets
  - `report`, `watch`, `clock`, `text`: what is shown
- `tests/` holds tests of the library.
- `app/` holds the program. It makes the calls of the system and of the registry and
  hands their answers to the library.

## How a question to the system works

The library makes no system call. A function such as `query_displays` returns a value
that says what to ask; a method of that value takes the answer and returns the next
step, until the result is there. Each step takes as many answers as it asks for. The
proofs hold for every such answer, with one limit: when the screen is refreshed, the
system must not report more paths or modes than there was room for. The program tests
that before it hands the answer over.

## Laws

Properties that span several functions are public proof functions whose names start
with `law_`. For example:

- making a display the primary one keeps the distances between all active displays
- what is written into a configuration is what is read back from it
- of all paths to a monitor exactly one is kept, an active one if there is one
- each stored configuration is either referred to by a display set or listed as an
  orphan
- a display set whose monitors are connected is recognised
