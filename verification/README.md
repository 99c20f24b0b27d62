# termapps

Terminal tools whose logic is verified with Verus:

- `pixel`, `grid`, `editor`, `tif_format`: a pixel image editor. The image is
  a grid of eight-color pixels with a cursor, a mode and a brush; key presses
  move, paint and pick colors; images are stored as `.TIF` bytes (a
  ".TIF " magic, a width byte, then run-length pairs of color and count).
  Writing an image and reading it back gives the same image
  (`tif_format::lemma_tif_round_trip`).
- `zoio`: an interpreter for a tiny line language (`import io`, `var x = ...`,
  `io.Println(...)`, `io.Print`, `io.Flush`, `io.ReadLine`). Running a line is a
  step machine: the library decides, the terminal side prints, reads and reads
  numbers, then resumes.
- `launcher`, `files`, `text`: the app-launcher command line, file-manager
  labels and paths, and the character-level text helpers they use.

`app/` holds the programs around the library (`tifeditor`, `zoio`, `rde`,
`mlangc`): terminal drawing with pancurses and cursive, files, sockets,
argument parsing, PAM log-in and floating-point evaluation.
