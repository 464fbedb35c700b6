pub mod text;
pub mod url_utils;
