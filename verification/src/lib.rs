pub mod event;
pub mod event_queue;
pub mod state;
