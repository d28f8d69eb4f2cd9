//! IureOCR: the rules behind a desktop OCR tool.

pub mod commands;
pub mod paths;
pub mod pdf;
pub mod ocr;
pub mod settings;
pub mod tesseract;
pub mod text;
