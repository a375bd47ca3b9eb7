# Workspace Exec MCP

`rust-mcp-exec` runs development commands inside one workspace, summarises what
they print, and infers the conventional quality checks of a project. Its rules
are a library, `src/`, whose contracts Verus proves; `app/` is the MCP server
around it, which looks up paths, reads files, runs processes and speaks the
protocol.

| Module | What it states |
| --- | --- |
| `text`, `names`, `limits` | characters, lines, words, ordered names, bounded texts |
| `paths`, `resolved` | relative paths that never climb, and paths the file system resolved |
| `render` | commands as one unambiguous line |
| `diagnostics`, `output` | summaries of what a tool printed, kept within bounds |
| `environment` | which variables a process gets |
| `server`, `execution` | which requests are started, and how a command is reported |
| `makefile`, `manifest`, `project`, `plan` | what kind of project a directory holds, and its checks |
| `quality` | checks run one after the other |

What holds of the whole is stated by the proof functions named `law_...` in each
module. A few facts about other code are believed without proof; the doc comment
of each item that states one says so: what `serde_json` reads in a manifest
(`manifest`), what `String::from_utf8_lossy` makes of bytes (`output`), and that
`String::push` appends (`text`).

Paths are Unix paths.
