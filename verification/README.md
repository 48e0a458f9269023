# InfiRay P2Pro thermal camera viewer

A viewer for the InfiRay P2Pro thermal camera: live false-color picture,
markers for the coldest and the hottest place, saving of pictures (PNG) and of
lossless videos (HuffYUV in AVI), on Linux and Android.

The logic is a library whose behaviour is stated in contracts and proved with
Verus (`src/`). The program around it (`app/`) does the I/O, the user
interface and the floating-point work.

| Module          | Contents                                                            |
| --------------- | ------------------------------------------------------------------- |
| `video`         | pixel layout, encoding of a frame, course of a recording            |
| `recording`     | whole recordings: what a sequence of commands comes to              |
| `protocol`      | UVC descriptors, Probe/Commit negotiation, choice of the setting    |
| `stream`        | payload headers, reassembly of frames, isochronous transfers        |
| `camera`        | geometry of the picture, samples of a raw frame                     |
| `transport`     | control transfers and waits of the camera's vendor commands         |
| `exchange`      | running a vendor command step by step                               |
| `camera_config` | the vendor commands and the meaning of their replies                |
| `device`        | recognising the camera among the video devices, capture loop        |
| `session`       | USB session on Android, on-screen log                               |
| `render`        | extremes, coloring, PNG data URI                                    |
| `colormap`      | the palette and its CSS gradient                                    |
| `panel`         | state of the controls, pointers on the picture, range fields        |
| `save`          | names and contents of saved files                                   |
| `icon`          | the window icon                                                     |
| `usb`, `bytes`, `text` | shared terms: USB, byte orders, numerals and white space     |

Where the library calls another crate, the call stands in a small function
whose contract is believed, not proved; its doc comment says what is claimed.
These are the encoders and decoders of HuffYUV and of PNG, base64, the
formatting of a date, the USB request type and the decoding of UTF-8.

The desktop build of `app/` needs the `desktop` feature of `dioxus`.
