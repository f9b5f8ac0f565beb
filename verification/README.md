# fracturize

The rules behind a renderer of fractal flames: what its flags, files and keys
mean, how its pictures are divided and put together, and how its gradients,
flights and variants are made. Every function of the library under `src/` has a
contract that Verus proves; `app/` is the program around it, with what is
floating point, files and devices.

Numbers that the renderer holds as floating point are integers here, in
billionths (`offline::UNIT`) unless a name says otherwise. `app/fixed.rs`
converts.

| modules | what they decide |
| --- | --- |
| `args`, `prefs`, `keys`, `interrupt` | flags, preferences, window events, Ctrl-C |
| `offline`, `accumulate`, `animate`, `tiles`, `sheet`, `contact`, `variants`, `timing` | a render: its laps, frames, tiles, sheets and what is said of them |
| `camera`, `path`, `haze`, `pick`, `indicators` | framings, flights, haze, gizmos and the lines drawn beside them |
| `palette` | gradients: reading, saving, importing, rolling, the library |
| `flame`, `mutate`, `randomize`, `rng` | flames, and rolls and changes of them |
| `grading`, `grade_file`, `image_file`, `h264`, `half`, `stats` | what is written, and what is measured of a picture |
| `scene`, `info`, `layout`, `quantity` | the report on a scene |
| `paint`, `plain`, `info_paint` | what colour does to a report: no escape without it, no line lost with it |
| `history` | undo and redo |
| `text`, `number`, `num`, `bytes`, `filename` | what all of these stand on |

What is believed without proof is marked `external_body` or
`assume_specification`, with a comment that says what is claimed: the rolls of
`rand` and `rand_xoshiro`, the encoders `openh264` and `png`, quoting by
`toml_edit`, and three functions of the standard library.
