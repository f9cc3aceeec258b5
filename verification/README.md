# iec61850_rs

The protocol cores of IEC 61850, without I/O: octets and clock readings go in, octets and events
come out. Every function states what it returns, and Verus proves it.

- `src/ber*` - the encoding rules, and lists of elements of one kind.
- `src/common*`, `src/model.rs` - errors, limits, times, bit strings, addresses, the event queue.
- `src/proto/data.rs` - MMS `Data`, borrowed and owned.
- `src/proto/ethernet.rs`, `src/proto/goose/` - process-bus frames, the GOOSE PDU, the publisher
  and the subscriber.
- `src/proto/osi/` - TPKT, COTP, session, presentation, ACSE and object identifiers.
- `src/proto/mms/` - the MMS PDUs and services, reports, control, files, journals, and the
  association, which runs all the layers as one state machine.
- `app/` - floating point and the standard formatting and iterator traits.

A decoder is specified by a function from octets to a model, an encoder by a function from the
model to octets, and a state machine by a function from a state and an input to the next state.
The laws beside them say what holds of the whole: what is written reads back, what was read can be
written again, a handshake establishes both ends, a replayed frame is refused.
