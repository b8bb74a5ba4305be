# svs — verified core of the SlideVoice Studio renderer

`svs render deck.pdf` turns a PDF (or a directory of slide images) into a
narrated MP4: Gemini writes presenter notes for each slide, Gemini TTS
speaks them, and FFmpeg encodes one segment per slide and joins them.

The crate is split in two:

- `src/` is a Verus library. Everything the renderer decides or computes is there,
  with contracts proved by Verus: the WAV container around the TTS PCM
  (`audio`), voices and transitions (`models`), the FFmpeg command lines
  and the cross-fade filter graph (`ffmpeg`), Gemini requests, their
  JSON bodies included, and the reading of its responses (`gemini`), slide image selection (`pdf`) in
  natural file-name order (`natural`), paths under the home directory
  (`paths`), the pipeline's cache layout and reuse
  decisions (`pipeline`), the command-line defaults and cache prompt
  (`cli`), and `--replace-slide` / `--remove-slide` (`edits`). Laws that
  relate several functions are public proof functions next to them.
- `app/` is the program around it: argument parsing, HTTP, processes,
  files, concurrency and progress bars.

Prompts and model names are read at run time from `prompts.ron` in the
current directory, or from the file named by `$SVS_PROMPTS`.
