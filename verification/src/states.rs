//! The states of the application and of one store session.

pub mod app;
pub mod server;

pub use app::{Route, ZedisAppState};
pub use server::answer::Answer;
pub use server::event::{NotificationAction, NotificationCategory, ServerEvent};
pub use server::task::{ServerTask, TaskDispatcher, TaskRecord};
pub use server::value::{KeyType, RedisHashValue, RedisValue, RedisValueData, RedisValueStatus};
pub use server::{Dispatch, Outcome, QueryMode, StoreRequest, ZedisServerState};
