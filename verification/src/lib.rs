//! A task-tracking library: a verified task state machine, an in-memory
//! registry with filtering, search and statistics, and two persistence
//! backends (a flat-file document codec and an embedded-database row codec)
//! that provably round-trip every collection.

pub mod auth;
pub mod codec;
pub mod error;
pub mod ids;
pub mod laws;
pub mod numbers;
pub mod requests;
pub mod rows;
pub mod storage;
pub mod seqs;
pub mod task;
pub mod task_manager;
pub mod text;
pub mod ws;

pub use auth::Claims;
pub use auth::LoginRequest;
pub use auth::RegisterRequest;
pub use auth::User;
pub use auth::UserResponse;
pub use error::TaskFlowError;
pub use requests::CreateTaskRequest;
pub use requests::UpdateTaskRequest;
pub use rows::TaskRow;
pub use storage::JsonStorage;
pub use storage::SqliteStorage;
pub use storage::StorageKind;
pub use storage::create_storage;
pub use task::Priority;
pub use task::Status;
pub use task::Task;
pub use task::TaskStatus;
pub use task::TransitionPolicy;
pub use task_manager::TaskFilter;
pub use task_manager::TaskManager;
pub use task_manager::TaskStats;
pub use text::parse_tags;
pub use ws::ClientMessage;
pub use ws::WebSocketMessage;
