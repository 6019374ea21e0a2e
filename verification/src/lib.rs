pub mod programming_language;
pub mod stub;
pub mod text;
