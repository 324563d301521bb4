pub mod assets;
pub mod codec;
pub mod ingest;
pub mod laws;
pub mod model;
pub mod store;
pub mod text;
