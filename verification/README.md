# sticker_nah

Turns images, animations and videos into stickers: WebM VP9, 512×512 by
default, at most 256 KB, at most three seconds, no sound.

`src/` is the verified library. It holds everything the converter decides:

- `params` — the conversion request and its validation;
- `filters` — the ffmpeg filter graph and argument lists;
- `plan` — the size-fitting loops (two-pass bitrate and frame-rate fallback
  for motion, the quality ladder for stills) as state machines that take the
  measured sizes and durations and say what to do next;
- `probe` — reading an ffprobe report into a media description;
- `ffmpeg` — progress lines and the error tail of a run;
- `jobs` — which process each job waits on and which jobs were cancelled;
- `names` — cleaning untrusted file names, naming outputs and helpers, and
  the search for a free output name;
- `preview` — the steps of making a cached preview (cache check, encode,
  atomic move, recheck after a lost race);
- `platform` — the differences between Windows, Android and other systems;
- `text` — decimal formatting and parsing used by the rest.

`app/` is the desktop/mobile shell around it: the Tauri commands, running
ffmpeg and ffprobe, the file system, the clipboard and the Android storage
plugin.
