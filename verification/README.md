# devknife-core

The engine of devknife, a file-backed runner for event-native service workflows,
written in Verus: workflows start from seed events, handlers run effects for each
event, effects yield observations and may emit further events, and every run
leaves a causal trace.

## Layout

- `src/domain/`: workflows, effects, events, observations, run plans and traces.
- `src/loader/`: reading workflows and environments from YAML documents, and the
  checks that a workflow and its environment must pass.
- `src/engine/`: the run loop (`runner.rs`), the trace under construction
  (`run_state.rs`), what a trace keeps of the handlers and the event queue
  (`shape.rs`), templates, HTTP requests and responses, the SNS/SQS query API
  (`aws.rs`), WebSocket exchanges (`websocket.rs`), secret redaction
  (`redact.rs`), run ids, and the laws of the execution policy (`refusal.rs`).
- `src/report.rs`: the text of run reports and plans.
- `src/artifacts.rs`, `src/listing.rs`: summaries of workflow and environment
  files, editor validation, and the order of listings and run history.
- `src/paths.rs`: the confinement checks on canonical paths that the desktop
  applies before it reads or lists an artifact, and the guard on saving a
  workflow source.
- `src/json.rs`, `src/jsonpath.rs`, `src/map.rs`, `src/text.rs`: JSON values,
  JSONPath queries, string-keyed maps and text helpers.
- `app/`: the command-line program (`validate`, `plan`, `run`), which reads files,
  sends HTTP requests and prints or writes results.

The engine never performs I/O itself: `Runner::run` returns either a finished
report or the next exchange to perform (an HTTP request, or a WebSocket
handshake whose body is the text frame to send), and is called again with the
replies received so far (for a WebSocket exchange, the text of the message that
came back).
Each effect takes at most one reply; a run waits only once it has used every reply
it was given, and a run given at least as many replies as its step limit always
finishes.

`sqs_receive` effects are not run: the runner records them as failed with
"effect type sqs_receive is not supported by this runner", which fails the run.
