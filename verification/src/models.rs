pub mod response;
pub mod template;
