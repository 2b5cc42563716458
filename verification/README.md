# agentium

The state and the rules behind a terminal multiplexer for coding agents, verified with Verus.

The library in `src/` decides. What it is told comes in as plain values, and what is to be done
goes out as plain values. Of the machine it reads the clock and the time zone and nothing else.

| Modules | What they hold |
| --- | --- |
| `text`, `paths`, `urls`, `labels`, `order`, `json`, `clock` | Texts, paths and addresses, stable sorting, JSON values, times |
| `ipc` | Messages between the command line and the running program |
| `sessions`, `app`, `arenas`, `panes`, `sidebar` | Agent sessions, the arenas and their panes, and what the sidebar shows |
| `github`, `polling` | Pull requests and checks, and when they are asked for |
| `board`, `issue_ref` | The board of tasks and references to issues |
| `questionnaire` | Questionnaires in Markdown: reading, answering, writing back |
| `review` | Review files and reading plans |
| `file_browser`, `git_status`, `recent` | The file browser, the list of changes, recent projects |
| `mermaid` | Diagrams in Markdown and the pictures kept of them |
| `active_terminals` | Which terminals are told to end when the program goes down |

Functions state what they return in `ensures`, over mathematical models of the data. Proof
functions whose names begin with `law_` state what holds across functions, such as that an answer
that was written to a questionnaire is read back, or that a message is received as it was sent.

Calls into other crates stand behind small functions marked `#[verifier::external_body]`; the doc
comment of each says what is believed of the call.

`app/` is ordinary Rust around the library: the command line, sockets, processes, files and
signals. `tests/` runs the library on concrete values.
