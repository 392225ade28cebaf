# input_overlay

The logic of the input-overlay OBS plugin as a library verified with Verus,
and the plugin around it.

`src/` is the verified library:

- `link`, `layout`: overlay links (query strings, percent-decoding, the
  compressed `cfg` parameter), JSON configurations and layout tuples;
- `numbers`, `strings`, `search`: the small text routines they rest on;
- `render`, `history`, `scroller`, `analog`, `video`: element kinds, held
  keys, input-history logs and their overlaps, scroll counters, display
  modes and settings changes of the video source;
- `text`, `fonts`, `texture`, `gif`, `color`, `blur`: label cleaning,
  `<img>` labels, font choice, texture locations and decoding, GIF frame
  timing, colours, pixel blending and the box blur;
- `updater`, `archive`, `token`, `server_settings`: update selection,
  download progress, the choice of the server binary inside a release zip,
  server tokens, the key whitelist and when the server listens anew;
- `clock`, `profiler`, `obs`: clock readings, frame timings and OBS handles.

`app/` holds what cannot be verified: the OBS API and video source, the
floating-point drawing, network and file I/O and threads.

`tests/` exercises the library on concrete values.
