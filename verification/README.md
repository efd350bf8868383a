# interval

The verified core of Interval, a step-first harmonic composition language,
written in Verus: every function carries a contract over a mathematical model
of its data, and Verus proves each body against it.

This crate holds the lexer, the harmony layer, the compiler's integer
building blocks (bar layout, ticks, rhythms, event ordering and pairing), the
editor introspection tables and completion, and the span-based source edits.
It does not hold the parser, the voicing and transform engines or the
`compile` pipeline that turns a program into MIDI events; that pipeline works
in floating point (tempo, swing, humanize, rubato). The edits and the cursor
completion take the parser as an argument, a function from source text to its
outline; the edits re-parse what they produce.

## Layout

| Module | What it holds |
|--------|---------------|
| `lexer` | The tokens of the language and the longest-match lexer, with byte spans. |
| `ast` | The syntax tree types the compiler and the harmony layer read. |
| `harmony` | Mode and chord-quality tables, chord-symbol and Roman-numeral parsing, the scale timeline, sections, and the harmony index (chord context by tick). |
| `compiler` | Bar layout for variable time signatures, unit ticks and shifts, canonical transform order, Euclidean rhythms, arpeggio cycles, step annotations, time signature and controller events, and deferred NoteOffs for ties. |
| `event` | MIDI events, their intra-tick priority, the stable stream sort, and NoteOn/NoteOff pairing. |
| `introspect` | Chord qualities, scales, directives and transforms for editors; completions at the cursor; pitch and chord naming; scale degrees; harmony and scale timelines by bar. |
| `edit` | Span-based source edits (steps, annotations, transforms, track and header parameters), each checked by re-parsing its result. |
| `error` | Spans, compile errors and warnings with their messages. |
| `seed` | The seed precedence rule, with the clock as the last resort. |
| `text` | Character and byte helpers shared by the parsers. |

`app/` holds the floating-point side of the compiler that the library leaves
out: expressive timing offsets (rubato, ritardando, accelerando, agogic
accents, breaths, swells, phrasing) and the tempo lookup they use.

The laws of the library (for example that the lexer loses no input, that a
harmony query wraps around the timeline, that the stream sort keeps every
event and the order of equal keys, that Euclidean rhythms spread their
pulses evenly, or that moving the scale root transposes every resolved
degree) are public proof functions next to the functions they relate.
