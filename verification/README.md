# Logic analyzer processing

Capture, decoding and recording of logic-analyzer signals, with the logic verified in Verus.

- `src/` is the library. Every function states what it returns in `requires` and `ensures`
  clauses. What holds across functions stands in the public `law_` proof functions.
- `app/` connects the library to the world: ports and threads, USB devices, capture files on disk,
  and decoder scripts in an embedded Python.
- `tests/` runs the library on concrete values.

The main parts of the library:

| Module | What it does |
| --- | --- |
| `parallel_decoder` | decodes parallel buses from packed samples, one window after the other or with concurrent scans, and from recorded signals behind an index |
| `uart_decoder` | decodes serial frames |
| `sigrokdecode`, `sigrok_decoder` | schedule decoder scripts and convert what they put out |
| `dslogic` | plans, configures and reads captures of DSLogic devices |
| `logic_analyzer` | settings, packed chunks and their channels |
| `synthetic_capture_source` | demonstration signals and deterministic acquisitions with triggers |
| `capture_file` | capture-file formats, block cache and cache identity |
| `ports` | names and kinds of the ports of the nodes |
| `paths` | names of the files beside a capture file |
| `logic` | merging, latching, counting and formatting of events |
| `sinks` | line recording and text files |

What the proofs rest on beside Verus is small: `String::push`, `Vec::capacity` and `blake3::hash`,
each behind one function whose doc comment says what is taken for granted, and the answers of the
two traits `UsbTransport` and `EdgeQuery` where their implementations are not verified.
