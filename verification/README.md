# video_encoder

The decisions behind a small FFmpeg front end, written in [Verus](https://github.com/verus-lang/verus)
and proved against their contracts: encoding a batch of videos to HEVC, and an editor that trims, cuts
and crops.

## Layout

- `src/` is the library. Every function in it has a contract, and Verus proves all of them but those
  of the calls named below.
  - `text`, `decimal`, `number`, `clock`: characters, digits, numbers and times
  - `log`, `probe`, `monitor`, `progress`, `report`: what FFmpeg writes, and what is shown of it
  - `reading`, `paths`, `outputs`, `files`: how the platform reads paths, which files are videos,
    where results go, the list of files
  - `command`, `crop`, `jobs`: the arguments for FFmpeg, the crop rectangle, cut and crop jobs
  - `batch`, `editor`, `frame`, `setup`: the state of a batch, of the editor and of its preview
- `tests/` runs the library on concrete values.
- `app/` is the program around it: the window (Slint), the processes (tokio), the dialogs (rfd).

## Units

The library counts in whole numbers: times in microseconds (`Seconds`), parts of a picture in
billionths (`CropArea`), progress as a fraction (`Share`). The program turns the window's floating
point numbers into these and back, in `app/convert.rs`.

## What is not proved

Calls into `std`, `regex` and `image` stand behind functions marked `external_body`; the comment on
each of them says what is taken for granted. How a path falls apart depends on the platform: what is
proved of paths holds whether a backslash separates or not, and says little of Windows paths that
begin with two separators but with no share, such as `\\?\C:\v`. The program in `app/` is ordinary Rust.

## Building the program

The program needs a Slint back end and a renderer for the platform at hand, and on Windows the
feature `raw-window-handle-06` of Slint for files dropped on the window.
