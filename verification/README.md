# LocalBeam

Fast, private file sharing between devices on one network: no internet, no accounts, no cloud.
Devices find each other by UDP broadcast, and files go over a direct TLS 1.3 connection on which both
sides show the certificates whose fingerprints are their ids. Phones upload through a small page that
is served over HTTP when it is switched on.

The decisions are a library that is verified with Verus; the I/O around it is ordinary Rust.

## Layout

- `src/` - the verified library:
  - `contacts`, `settings`, `identity`, `state` - the records, and what they start as
  - `discovery`, `net` - probes, answers, targets of a scan, and which devices are remembered
  - `wire`, `transfer`, `sending`, `receiving` - messages and the steps of a transfer
  - `http_server` - the upload page and the steps of an upload
  - `filename`, `folder` - names that are safe, names that are free, and the directory they stand in
  - `commands`, `window` - what the user interface asks for
  - `table`, `text`, `lists`, `clock`, `ids` - what the others share
- `tests/` - the library from outside
- `app/` - the application: sockets, files, TLS, the HTTP server, the tray and the window

A transfer is a machine: `Outgoing` and `Incoming` take in what has happened and say what is to be
done next, and `app/` does it; an upload is one too (`Upload`). What holds of the library as a whole is stated and proved beside the
functions that it is about, as public proof functions.
