# forensic_vfs

A read-only forensic virtual filesystem. A piece of evidence is a stack of layers
(container, volume, encryption, archive, snapshot, filesystem); each layer is a byte
source that the next one reads. The library holds the contracts of the layers, the
locator that names a place in such a stack and its text form, the partition tables, the
resolver that finds the stack by probing, and the walk of a mounted filesystem.

Everything under `src/` is verified with Verus. Readers of formats are the users' own:
a contract states by a relation what a reader may answer (`may_read`, `may_probe`,
`may_open`, ...), and the library's functions state what they make of the answers.

| Module | What it holds |
| --- | --- |
| `source`, `adapters` | byte sources; windows, cursors and pools of readers over them |
| `fs`, `volume`, `encryption`, `crypto`, `archive` | the contracts of the layers |
| `registry` | the probers, the window they are shown, and the table of them |
| `resolver`, `resolver_laws`, `guess_laws` | the layer resolver and what holds of it |
| `engine`, `engine_laws`, `partition`, `partition_laws` | the engine and the partition tables |
| `walk`, `walk_laws` | the enumeration of a filesystem |
| `snapshot` | a snapshot as a time-indexed state |
| `pathspec`, `uri`, `uri_laws`, `grammar`, `display`, `percent`, `tokens` | the locator, its canonical text, the texts that write it, and its human form |
| `read`, `text`, `error` | bounded integer reads, text, the one error type |

What is believed and not proved is marked in the sources: the types and functions of
`std`, `forensicnomicon-core`, `forensicnomicon` and `state-history-forensic` that are
declared or wrapped there, each with a comment that says what is claimed of it.

`app/` is ordinary Rust around the library: files as sources, the NTFS and EWF readers,
and opening evidence by its path. `tests/` runs the library from outside.
