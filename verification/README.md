# ADtune

System-wide audio calibration for Linux and Windows. A profile is a preamp and a list of
filter bands; ADtune applies it to everything that is played, through a PipeWire filter
chain on Linux and through an audio processing object on Windows.

`src/` is the library: it holds the rules, and Verus proves its contracts.

| Module | What it states |
|---|---|
| `double`, `rounding`, `bignat`, `arith`, `decimal` | 64-bit floating-point numbers as bit patterns: their order, products and quotients, reading and writing them as decimals |
| `text`, `order` | texts and lines; a stable merge sort |
| `profile`, `parametric_eq`, `round_trip` | bands, profiles and tone; the ParametricEQ format, and that it reads back |
| `state`, `catalog`, `store` | what is stored, the catalog and its search, the files of the user |
| `dsp` | which bands shape a response, how much headroom it needs |
| `pipewire` | the filter graph, the service as a state machine, the controller |
| `windows` | the plans that register the object on an endpoint and take it back again |
| `apo` | formats, buffers and interfaces of the object |
| `ui`, `cli` | the editor, the list, the graph, the command line |

Floating-point numbers stand in the library as their bits (`Double`); no arithmetic beyond
rounding, scaling and comparison is done on them there. Whatever takes sines, logarithms or
square roots is computed in `app/` and handed to the library as a value.

`app/` is the program around the library: files, the audio servers, the registry, the filters
themselves. The catalog is read from `autoeq-catalog.json.gz` next to the program, or from the
file that `ADTUNE_CATALOG` names. There is no window toolkit: `adtune-ui` keeps the state of the
window, reports what it would show, and draws the graph as a picture. `tests/` runs the library
on concrete values.
