# win_recorder

A screen recorder for Windows. Frames of BGRA pixels go through Direct3D textures to the
H.264 encoder of Media Foundation, into a file or into a stream of NAL units.

The library under `src/` holds the logic and is verified with Verus. It makes no call to the
system: where the system has to act, a function says what is to be done, and another one
takes the outcome and decides how to go on.

| Module | What it holds |
|--------|---------------|
| `recorder` | recording into a file: start, frames, stop |
| `streaming_encoder` | encoding into memory, and handing out tagged NAL units |
| `startup` | the stages in which a recording is started |
| `mf_writer` | aligned picture sizes, sample times, bit rates |
| `d3d11` | the choice of the monitor, and copying frames into mapped textures |
| `bgra_to_nv12` | BGRA to NV12 and IYUV |
| `memory_byte_stream` | cutting a buffer into NAL units, and their types |
| `watermark` | the time of day in the lower left corner of a frame |
| `error` | what can go wrong |

The proof functions whose names begin with `law_` state what holds of the library as a
whole: that units come back from the buffer they were written to, that sample times leave no
gaps, that a stream is handed out once and in order.

`app/` makes a Python module of it, with the calls into Direct3D, Media Foundation and GDI. It
also offers `draw_watermark`, which marks a texture with the time of day.

## Sizes

The encoder takes pictures whose sides are multiples of 16. A recorder has the size of its
monitor until it is started, and from then on the next size that the encoder takes: 1920 by
1080 becomes 1920 by 1088. Frames of any other size are refused, so a smaller picture has to
be extended before it is written.
