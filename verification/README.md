# ldlidar

A library for LiDAR sensors of several models, written in Verus: executable Rust whose behaviour is
stated in contracts and proved.

- `src/reader`: bytes become frames, points and whole turns. `framing` says what it means to cut a
  byte stream; `ldrobot::stl27l` and `pacecat::lds50ce` hold the layouts and decoders of the two
  models; `link`, `session` and `transport` are the life of a connection; `assembler`, `collector`
  and `data_collector` make scans and hand them on.
- `src/viewer`: settings, rows, colours, and which points are drawn.
- `src/text`: names and numbers.
- `app`: the program around it: serial lines, sockets, threads, the settings file, and the window.
- `tests`: the library on concrete values.

The library does no input or output, reads no clock and uses no floating point. Angles are whole
ticks of 1/11000 of a degree, in which the angles of both models are exact; times are nanoseconds.

What is not proved is trusted and marked so: two calls into `zerocopy`, which look at a frame's
bytes in place, and two into `egui`, which make colours.
