# hdr10plus_tool

HDR10+ dynamic metadata in AV1 bitstreams: detection, encoding, injection and
removal, verified with Verus. Raw streams of OBUs in the Low Overhead Bitstream
Format and IVF files are supported.

## Library (`src/`)

| Module | Contents |
|--------|----------|
| `leb128` | LEB128 numbers |
| `reader` | a reader over bytes in memory |
| `obu`, `stream` | single OBUs, and runs of them |
| `ivf`, `frames` | headers of IVF files, and runs of IVF frames |
| `bitstream` | bits, read and written by `bitvec_helpers` |
| `parser` | which temporal units of a stream are displayed |
| `detect` | HDR10+ metadata OBUs in a stream |
| `metadata`, `encode` | HDR10+ metadata, and its encoding as an OBU |
| `remove`, `remove_laws` | removal, and what holds of it as a whole |
| `inject`, `inject_stream`, `inject_laws` | injection into a temporal unit and into streams, and what holds of it as a whole |
| `progress` | the numbers of a progress bar |
| `error` | errors |

Byte sequences are the model throughout. `obu::parse_obu` says what one OBU is,
`stream::scan_obus` and `frames::scan_frames` what a stream holds, and
`remove::removed_file` and `inject_stream::injected_file` what the two commands
write. The functions whose names begin with `law_` state what holds of these
together: that what is written is read back, that no metadata is left after a
removal, that each temporal unit holds one metadata OBU after an injection, and
that a removal undoes an injection.

## Commands (`app/`)

The commands on files, with the progress bar and the messages to the user. Files
can be larger than memory, so the commands read and write them piece by piece:
they run their own loops over the library's steps (`obu::obu_step`,
`Remover::output_frame`, `Injection::inject_unit`, `Injection::inject_obu`,
`Injection::finish`), refuse an empty list of metadata, and choose between IVF
and raw streams by `ivf::is_ivf`. What is read, detected and written for a unit
or a frame is the library's decision.
