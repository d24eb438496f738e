pub mod chunker;
pub mod data;
pub mod docgpt;
pub mod helpers;
pub mod pdfquery;
