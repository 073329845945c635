pub mod backend;
pub mod codec;
pub mod decimal;
pub mod dispatch;
pub mod envelope;
pub mod json;
