# brew-server

A server that links TETRA base stations over the Brew protocol: it routes group calls,
private calls and short data between them, forwards positions to APRS-IS, links with
other servers and shows all of this on a dashboard.

## Layout

- `src/` is the core, verified with Verus: packet formats, routing, authentication,
  SIP messages and their routes, voice transcoding, history, telemetry, control,
  federation, positions and the pages of the dashboard. Each type has a mathematical
  model, its view, and each function says over these models what it returns and changes.
  What spans several functions is stated in public proof functions next to them.
- `app/` is the program around it: listeners, connections, files and the forms in which
  data is read and written. Called as `brew-history` it prints the history log.
- `tests/` runs the core on concrete values.

Time, fresh identifiers and the text of the network come in as arguments, so that the
core decides alike for alike inputs. Floating point stays in `app/`: the core holds a
position as integers, as the spelling of its numbers or as bits that it passes on.

## What is not here

The core holds the rules for bridging calls to SIP: messages, authentication, routes, the
Brew side of a bridged call and the pacing of its voice. The program starts no SIP
listener, registrar or RTP relay, and brings no speech codec; `app/transcode.rs` runs a
bridged call's voice over whichever relay and codec it is given. SIP is therefore shown as
inactive on the dashboard.
