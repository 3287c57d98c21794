# adf_utils

The logic of a small desktop toolbox (hex editor, media converter and
video downloader front ends, shared settings), verified with Verus.

- `src/` is the verified library:
  - `text`: characters of a string, copies, searching for a fixed text;
  - `hex_text`: reading bytes written in base 16, splitting a search
    query, showing bytes as hex pairs and as text;
  - `hex_editor`: the editor's buffer, paging, search, cell edits, saving
    and the list of changed bytes;
  - `downloader`: `yt-dlp` arguments, progress lines and the download state;
  - `media_converter`: the ffmpeg runs and the log;
  - `settings`: the settings and their defaults.
- `app/` is the graphical shell (egui/eframe, file dialogs, processes,
  stored settings); it calls the library for every decision.
- `tests/` runs the library on concrete values.
