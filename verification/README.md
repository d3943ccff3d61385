# snerdmq

A background job queue that runs as a child process of an application. Jobs are kept in an
append-only log; the application and the daemon talk in JSON lines over standard input and output.

The decisions of the queue are a library, written and proved in Verus:

| module | what it holds |
| --- | --- |
| `timestamp`, `double`, `text`, `text_map`, `path` | points in time, double-precision numbers, numerals, maps by text and file paths as plain values |
| `task` | the task record, its payload hash, its retries and its order of urgency |
| `table`, `file_store` | the log: what it holds, when it is compacted, and to what |
| `rate_limiter` | how many tasks of a group may start within a minute |
| `webhook` | what is posted for a task, and what the answer means |
| `workers` | which tasks are executing, and how many more can |
| `queue` | which tasks are taken in, which start and when, and what becomes of them |
| `protocol`, `daemon` | the messages, the counters and the answers to the client |
| `laws` | what holds of the queue and its store as a whole |

`app/` is the daemon around the library: files and their locks, handlers, webhooks, JSON.
`tests/` runs the library on concrete values.

A function that depends on the clock comes twice: one that reads it, and one named `.._at` that
takes the time as an argument and says exactly what it returns, whatever that time is.
