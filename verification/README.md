# iureocr

The rules behind IureOCR, a desktop tool that makes scanned PDFs and images
searchable with Tesseract, written in Verus and proved against their contracts.

- `src/` is the library. `text` holds character-level helpers, and `paths` chooses
  free output names and bundled folders. `pdf` removes, keeps and rotates pages of a
  `lopdf::Document` and builds thumbnails. `ocr` holds what an OCR job decides:
  inputs, page images, Tesseract's command line, progress and outcome. `settings`
  holds the user's settings and their repair, `tesseract` covers where Tesseract is
  looked for and how its answers are read, and `commands` holds the small rules
  behind the application's commands.
- `tests/` runs the library on concrete values, with the real outside crates.
- `app/` is the desktop application around the library: file and process I/O,
  pdfium rendering, the Tauri commands and the Iurefficient account.
