# retropixel

Recolours images with a palette taken from another image, after shrinking
them by an integer factor, optionally with ordered (Bayer) dithering.

- `src/` is the verified library:
  - `bayer`: the dithering threshold matrix, its contract, and the proofs that
    it repeats with its side and, up to exponent 4, holds each rank once;
  - `raster`: RGB rasters, decoding and encoding image files, their pixels
    as palette colours, and shrinking;
  - `file_names`: which files are taken as inputs and how outputs are named;
  - `effects`: the limits of the colour-adjustment settings.
- `app/` is the command-line program: argument parsing, reading and writing
  files, the
  floating-point colour arithmetic and the per-pixel parallel loop.
- `tests/` exercises the library on concrete values.
