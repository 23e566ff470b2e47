pub mod laws;
pub mod pieces;
pub mod session;

pub use session::{Change, ChangeKind, EditError, Notification, Session, Viewport};
