pub mod types;
pub mod wire;
pub mod text;
pub mod packet;
pub mod codec;
pub mod semantic;
pub mod requests;
pub mod laws;
pub mod layout;
