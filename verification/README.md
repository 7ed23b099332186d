# Imaginer

An image viewer and light editor, split in two.

`src/` is the library, written in Verus: the rules of the program stand there with their
contracts, and the contracts are proved.

* Pictures: `raster`, `imageops`, `adjust`, `edit`, `fit`, `rounding`
* Files: `decode`, `decoders`, `psd`, `avif`, `metadata`, `tags`, `coordinates`, `codecs`,
  `export`, `convert`, `thumbs`
* Folders and settings: `path`, `order`, `folder`, `cache`, `prefetch`, `settings`
* The window's state: `session`, with `browsing`, `editing`, `saving`, `window`, and the
  machines it is made of: `playback`, `slideshow`, `vector`, `panels`, `notice`, `shortcuts`,
  `loading`
* What is said and shown: `views`, `sizes`, `text`, `texture`, `titlebar`
* The command line: `cli`, `collector`, `clipboard`, `startup`

Where the library calls another crate, it does so in a small function whose contract says
what is believed of the call; those functions stand in `codecs`, `decoders`, `imageops` and
`tags`, and a few beside the code that needs them.

Colours and sizes are worked out in whole numbers that come to what binary floating point
of a fixed precision comes to. `rounding` says how.

`app/` is ordinary Rust around it: the window, the disk, the clipboard, the threads, and what
is floating point throughout: the drawing, the sizes of SVG artwork, and the dragging of a
crop.

`tests/` runs the library on concrete pictures and files.
