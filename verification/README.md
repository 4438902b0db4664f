# mgba-siolink

Rollback netplay over an emulated link cable or wireless adapter, with its
decisions verified in [Verus](https://github.com/verus-lang/verus).

All of the GBAs on a link run locally, and the link is the rollback unit: the
only true inputs are the joypads, and everything on the wire follows from
them. A netplay session runs the same link on every peer, feeds confirmed and
predicted keys into `tick`, and restores a snapshot to re-simulate when a
prediction turns out wrong.

## Layout

`src/` is the library. It touches no emulator: it hands out one step or action
at a time, is told what came of it, and says what follows.

- `peripheral`, `options`, `driver`: what a link is built from
- `script`, `plan`: the scripts of a power-on, of a rebuild from captures, and
  of a restore
- `link`: the link itself, and its boot
- `tick`: the interleave of the cores until the reference core has finished a
  frame
- `gba`: the SIO, FIFO and DMA state that is rewritten behind the savestates
- `snapshot`, `bytes`, `checksum`: snapshots and their digest
- `error`: the failures that a link finds by itself
- `tick_laws`, `snapshot_laws`, `digest_laws`, `link_laws`, `play_laws`: what
  holds of whole ticks, digests, boots and restores, and of play over any
  number of ticks

`app/` owns the cores and the drivers, through the bindings of
[mgba-rs](https://github.com/tangobattle/mgba-rs), and performs what the
library asks for.

`tests/` runs the library on concrete values.

## What is trusted

That `crc32fast::hash` gives the CRC-32 (IEEE) of the bytes that it is given,
and that `SystemTime` is a type. All else in `src/` is proved.
