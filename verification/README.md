# vostok_pdb_parser

Reads program databases of the engine's builds. Out of one it makes source stubs,
headers and a project; two of them it compares, from whole classes down to single
statements.

`src/` is the library, verified with Verus. It works on plain values: the records of a
database, the lines of an index, the bytes of a file. `app/` is the command line around
it, which opens files, reads databases and objects, and prints. `tests/` runs the library.

| Modules | What they do |
| --- | --- |
| `text`, `search`, `number`, `order`, `pieces`, `paths`, `lcs` | texts, numbers, orders and alignments |
| `type_builder`, `function_type`, `field_attributes`, `formatter`, `pdb_parser` | names of types and signatures of functions |
| `gen_sources`, `source_function`, `source_files`, `source_dump`, `function_cache` | source stubs out of the symbols of a module |
| `primitive`, `header_model`, `header_build`, `header_needs`, `header_write`, `gen_headers` | headers out of type records |
| `files`, `utils_fs`, `guid`, `dump_pdb` | the folders of what was made, and a project over them |
| `declarations` | every function that the sources declare |
| `divergence*`, `dyninit` | where the headers and sources of two builds differ |
| `topology_*`, `type_table` | the symbol records of functions and the fields of classes, shown and compared |
| `rich_*`, `fetch` | listings, structures and comparisons of single functions |
| `report_stats`, `stats_*`, `orphan_classify` | how much of the functions match |
| `build_flags`, `build_info`, `build_report`, `checksums` | the flags, projects and files of a build |
| `msf_layout` | how the streams of a database lie in its file |

Percentages are floating point numbers. The library takes them by their bits, which it
compares as the numbers are compared, and leaves their text to `app/`.
