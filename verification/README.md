# wincap

Window capture with frame context for Windows Graphics Capture.

- `src/` is the verified library: frame and crop validation, the layout of
  mapped texture rows and their decoding into RGBA pixels, the bounded frame
  wait, the bookkeeping that closes a capture session exactly once, and the
  exact UTF-16 title search with its checks.
- `app/` performs the native Windows calls (capture sessions, Direct3D
  textures, window enumeration) and hands their plain results to the library.
- `tests/` exercises the library on concrete values.
