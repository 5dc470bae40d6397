# ra2_shp

Verified decoding of Red Alert 2 palette (PAL) and shape (SHP) files.

- `src/pal/`: PAL palettes (`Palette::decode`), palette entries and the ARGB
  colour table that frames are drawn with, including team colours.
- `src/shp/`: the SHP file header (`shp_header`, read with `byteorder`), frame
  headers and the frame decoder (`reader`), the stream of rows that frame data
  is read as (`rows`), painting rows onto a canvas (`paint`), and a loader
  that keeps decoded frames per file and palette (`loader`).
- `src/pixels.rs`: the `image` crate's RGBA buffer that frames are drawn on.
- `app/`: the bevy program around the library: file reading, bevy plugins and
  systems, and the conversions to `image` and bevy types.
