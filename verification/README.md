# grapevine

State synchronisation over multicast: a publisher stamps every change to its
state with the next sequence number, records it in a master log and sends it
in a frame over UDP multicast; subscribers apply the changes in sequence
order, buffering early messages, dropping late ones and recovering missing
ones from the publisher over gRPC.

## Layout

- `src/` is the verified library (Verus): the frame codec (`codec`), the
  message types (`proto`), the publisher's sequence stamping (`publisher`),
  the in-memory message log (`persistence`), the subscriber's re-ordering,
  recovery and snapshot decisions (`subscriber`), and the `StateSync` trait
  with its example state. The laws of the library are the public proof
  functions named `lemma_*`.
- `app/` is the unverified shell around it: protobuf encoding with prost,
  multicast sockets, the recovery service over tonic, sqlite persistence and
  the async tasks of publishers and subscribers. Each task hands every event
  to the library and performs the action the library returns.
- `tests/` runs the library on concrete values.
