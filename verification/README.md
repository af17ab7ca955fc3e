# socatui

A task-manager style terminal program for running and monitoring several `socat`
relays. Each tunnel is one `socat --statistics [options] SOURCE DESTINATION`
process; the list shows its status, pid, active connections, bytes in each
direction, throughput and uptime.

The logic is a library verified with [Verus](https://github.com/verus-lang/verus);
the program around it does the input and output.

## The library (`src/`)

| Module               | What it holds                                                   |
|----------------------|-----------------------------------------------------------------|
| `text`, `decimal`    | trimming, searching, splitting, numbers as text                 |
| `units`              | amounts of bytes, rates and durations for people to read        |
| `procs`              | the output of `ps`, and the tree of socat processes             |
| `stats`, `ledger`    | counter reports, and counters kept per process                  |
| `options`, `config`  | splitting options, tunnel definitions, the path of the file     |
| `tunnel`, `stopping` | one relay: starting, stopping, reports, the work of a second    |
| `input`, `form`      | text fields, the form, the export dialog                        |
| `app`, `effects`     | the whole state, keys, and what is to be done outside           |
| `app_laws`           | what holds of the state, whatever keys are pressed              |
| `ui`, `schedule`     | what is shown, and when to look at the processes                |

Every type has a view, and every operation is stated as a step from view to view.
The library does nothing itself: it hands back signals to send, processes to
spawn and files to write, and is told what came of them. Times are nanoseconds on
a clock that never runs backwards.

Three things are taken on trust: what `shell_words::split` makes of an options
field (it is only given a name), how its error reads, and that `String::push`
appends a character.

## The program (`app/`)

Arguments, the JSON file, spawning and signalling processes, and drawing with
ratatui. Rates are divided here, in floating point.
