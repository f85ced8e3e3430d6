pub mod model_manager;
pub mod request;
pub mod t2s;
pub mod types;

pub use model_manager::ModelManager;
pub use types::ModelVersion;
