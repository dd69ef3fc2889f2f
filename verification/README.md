# pi_webcam_streamer

A webcam streaming and recording service for the Raspberry Pi: an HTTP
server that streams MJPEG, records H.264 HLS segments with `ffmpeg`, keeps an
HLS playlist of the recent segments and deletes old recordings.

The decisions of the service are a library verified with Verus (`src/`):

- `config`: the settings, their defaults, the retention time (parsed by
  `humantime`, for texts whose numbers stay below the sums at which the
  parser would panic: a chosen limit of about 5.8e11 years in all), the HLS
  list size, and the default `config.toml` text;
- `playlist`: which segments have outlived the retention time, which are
  listed (the latest, in the order of the times in their names), and the
  playlist's text;
- `cleaner`: a cleanup run that deletes stale recordings, then the oldest ones
  while the rest exceed the size limit;
- `recorder`: the `ffmpeg` command line and the recorder loop's state machine;
- `camera`: the requested pixel format, the capture loop's steps and the
  JPEG encoding of frames;
- `server`: asset routing, MJPEG multipart framing, the listening address;
- `service`: the systemd unit;
- `text`, `order`: decimal formatting and parsing, lexicographic and
  chronological order;

`app/` is the program around it: command line, configuration files, camera,
processes, files and the web server.
