pub mod coordinator;
pub mod export_pause;
pub mod indexer;
pub mod manifest;
pub mod model_loader;
pub mod model_spec;
pub mod sampler;
pub mod store;
pub mod tokenize;
pub mod transcript_search;
