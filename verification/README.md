# livephoto

The core of a viewer for live photos: images that have a short video, in a file beside the image or
inside it. Written in Verus; every function states what it returns and is proved to return it.

- `src/` is the library. It decides and computes; it reads no files, opens no connections and starts
  no programs. Where a task alternates such work with decisions, a function takes what happened and
  gives what to do next: `serve_http`, `jpeg_motion_photo_offset`, `extract_embedded_video`,
  `extract_video_frames`, `get_thumbnail`, `list_live_photos`, `stream_bytes`, `collect_frames`.
- `app/` is the desktop application around it: files, sockets, programs and the window.
- `tests/` runs the library on given values.

The proof functions named `law_...` state what holds of several functions together: in which order
videos are looked for, that a path that leads upwards is never opened, that what is written is read
back, that sorting keeps every photo.

What the proofs rest on without proof stands in `src/` with a comment each: how `serde_json` reads a
document, how the standard library appends a character to a string, hashes a text, puts it into
small letters and decodes UTF-8.

Inputs on which a function has no answer are left out by its `requires`; a function beside it tells
them apart (`can_serve`, `can_extract`, `percent_decodable`, `xmp_extent_in_range`,
`motion_step_in_range`).
