pub mod html;
pub mod robots;
