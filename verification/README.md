# Sonora core

The decisions of the Sonora music player, verified with Verus.

- `src/` is the library. Each module states what its functions do in `requires` / `ensures`
  over plain values, and the laws that span several calls as public proof functions.
- `tests/` runs the library on concrete values.
- `app/` holds what Verus does not see: the jam's messages as JSON lines and its first
  exchange over a link, the Widevine module's folders on disk, peer addresses for the
  server's limits, and the queue as it is kept between runs.
