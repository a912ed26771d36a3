use vstd::prelude::*;

verus! {

/// The kinds of synchronized object.
#[derive(Debug, Clone, Copy, PartialEq, Eq, Structural)]
pub enum CollabType {
    Document,
    Database,
    Folder,
    WorkspaceDatabase,
    UserAwareness,
}

/// The failures of the synchronization engine.
#[derive(Debug, Clone, Copy, PartialEq, Eq, Structural)]
pub enum SyncError {
    /// A malformed frame, compression envelope or update.
    Decode,
    /// An object whose content lacks what its type requires.
    Validation,
    /// A write that the plan's storage limit does not allow.
    CapacityExceeded,
    /// A saturated mailbox or queue; retry later.
    Busy,
    /// An unknown object or session.
    NotFound,
    /// An unexpected failure.
    Internal,
}

/// The root container holding a document's block map.
pub const DOCUMENT_ROOT: u32 = 1;

/// The root container holding a database's fields and rows.
pub const DATABASE_ROOT: u32 = 2;

/// The root container holding a folder's view tree.
pub const FOLDER_ROOT: u32 = 3;

/// The root container holding a workspace database's views list.
pub const WORKSPACE_VIEWS_ROOT: u32 = 4;

/// The root container holding a user's awareness record.
pub const AWARENESS_ROOT: u32 = 5;

/// The root container that an object of each type must hold.
pub open spec fn required_root(t: CollabType) -> u32 {
    match t {
        CollabType::Document => DOCUMENT_ROOT,
        CollabType::Database => DATABASE_ROOT,
        CollabType::Folder => FOLDER_ROOT,
        CollabType::WorkspaceDatabase => WORKSPACE_VIEWS_ROOT,
        CollabType::UserAwareness => AWARENESS_ROOT,
    }
}

impl CollabType {
    /// The root container that an object of this type must hold.
    pub fn required_root(&self) -> (r: u32)
        ensures
            r == required_root(*self),
    {
        match self {
            CollabType::Document => DOCUMENT_ROOT,
            CollabType::Database => DATABASE_ROOT,
            CollabType::Folder => FOLDER_ROOT,
            CollabType::WorkspaceDatabase => WORKSPACE_VIEWS_ROOT,
            CollabType::UserAwareness => AWARENESS_ROOT,
        }
    }

    /// Whether objects of this type feed the search index.
    pub fn is_indexable(&self) -> (r: bool)
        ensures
            r == (*self == CollabType::Document),
    {
        match self {
            CollabType::Document => true,
            _ => false,
        }
    }
}

} // verus!
