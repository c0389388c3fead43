# livekit_analyzer

A call-observability analyzer for LiveKit voice agents: it reads the logs,
traces and conversation history exported for a call (a folder or a ZIP
archive), optionally a network capture of the call, and shows where the time
of each turn went, in an interactive terminal viewer or as text and JSON
reports. It can also list sessions of LiveKit Cloud and download their data.

## Layout

- `src/` is the verified library (Verus). It holds the reading of a
  call's exported JSON texts (parsed by `serde_json`) into its records, the
  parsing of the OpenTelemetry exports and the chat history, the analysis
  of a capture's bytes (read by `pcap_file`) into its SIP setup and RTP
  streams, the short forms of tool arguments and outputs, the command lines, the viewer's state and key handling,
  the grouping of warnings and tool calls, and the integer parts of the
  diagnosis, each with its contract, and the laws that relate them.
- `app/` is the program around it: argument and file handling, the cloud
  API client, archive extraction, the floating-point
  statistics and reports, and the terminal viewer.
- `tests/` exercises the library on concrete values.
