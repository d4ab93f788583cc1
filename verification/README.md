# gstshm2

A transport for media frames between two processes over one shared-memory region, with a
verified core and a GStreamer plugin on top.

One region holds a header, a ring of frames from the producer to the consumer, a ring of
returned buffers from the consumer to the producer, and an arena with the payloads. There is
no control socket.

- `src/` is the library. Everything that is decided or computed about a region is here, as
  functions over the words of the header and the bytes of the rings and of the arena, and
  proved with Verus.
  - `allocator` hands out the blocks of the arena.
  - `transport` has the header and its layout, the two rings, the producer's `Writer` and the
    consumer's `Reader`. `transport::laws` states what holds of the two ends together.
  - `sink` and `source` are the two elements: their properties, and what each does with a
    frame. `source::timeline` follows the producer's clock.
  - `platform` chooses a backend by its path and decides, call by call, how a region is mapped.
  - `relay` is the daemon's command line, its pipelines, its clients and its log.
  - `text` has the operations on characters that the others need.
- `tests/` runs the library.
- `app/` is the rest: mapping regions, loading and storing the header's words, clocks and
  sleeping, the GStreamer elements and the programs.

Public proof functions named `law_..` state the promises that span several functions.
