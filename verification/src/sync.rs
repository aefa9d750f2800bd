pub mod action;
pub mod codec;
pub mod commit;
pub mod context;
pub mod converge;
pub mod error;
pub mod handover;
pub mod hooks;
pub mod log;
pub mod object;
pub mod repo;
pub mod session;
pub mod stamp;
pub mod store;

pub use action::{
    ActionExt, ActionKind, ActionObject, ActionPayload, ActionView, Decode, Encode, Envelope,
    ObjectExt,
    UniversalActionObject,
};
pub use commit::{Commit, CommitView};
pub use context::{Context, Mode, RepoDetails};
pub use error::SyncError;
pub use hooks::StorageHooks;
pub use log::{CommitIndex, CommitLog, LogState};
pub use object::{ObjectState, StorageObject};
pub use repo::{RepoState, Repository};
pub use session::{CommitContextGuard, SessionState};
pub use stamp::Timestamp;
pub use store::{CallbackMode, Storage, StorageState};
