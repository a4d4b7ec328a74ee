# duplicate_checker

A finder of duplicate photos and videos whose core is verified with Verus.

- `src/` is the verified library:
  - `text` reads unsigned decimal numbers and finds bytes in text;
  - `file_data_img` identifies a photo by its size and four Exif fields, read
    from the text that the `exif` crate displays for them;
  - `file_data_mov` identifies a video by its size and fingerprints of its
    first frames;
  - `hashing` feeds integers to a `DefaultHasher` in the target's byte order;
  - `groups` groups files by a content key;
  - `cleanup` decides which copies of a duplicate are removed, preferring
    copies that lie in fragile folders;
  - `choice` holds the small decisions on file names and typed input;
  - `digest`, `png_scan` and `image_hash` cover content digests, a scan of PNG
    files, and the Base64 text and distance of perceptual image hashes.
- `app/` is the program around it: reading the terminal and the file system,
  walking folders with `glob`, reading video frames with OpenCV, decoding and
  perceptually hashing images, and removing files.
- `tests/` runs the library on concrete values.
