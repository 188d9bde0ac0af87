pub mod render_service;
pub mod template_service;
