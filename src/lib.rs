//! A realtime collaboration core: CRDT replicas with state-vector diffing,
//! length-framed envelopes, presence tracking, admission control and the
//! persistence rules around them, together with the plan and account rules
//! they depend on.

mod actor;
mod batch;
mod bytes;
mod collab;
mod crdt;
mod envelope;
mod files;
mod fullsync;
mod identifier;
mod laws;
mod password;
mod plan_limits;
mod presence;
mod realtime;
mod router;
mod snapshot;
mod storage;
mod subscription;
mod text;
mod user;

pub use actor::DocumentActor;
pub use batch::{lemma_batch_partial_tolerance, read_metadata, split_batch, BatchReport};
pub use bytes::bytes_equal;
pub use collab::{
    CollabType, SyncError, AWARENESS_ROOT, DATABASE_ROOT, DOCUMENT_ROOT, FOLDER_ROOT,
    WORKSPACE_VIEWS_ROOT,
};
pub use crdt::{duplicate_items, Item, Replica, StateVector};
pub use envelope::{
    compress_diff, decompress, encode_frame, read_be_u32, split_frames, Compression, DIFF_ZSTD_LEVEL,
    MAX_BODY, MAX_DATA_FRAME, MAX_METADATA_FRAME,
};
pub use files::{
    ai_file_key, content_type_for_extension, generate_ai_file_key, infer_content_type, object_url,
    sanitize_filename, QiniuClientConfig, UrlError,
};
pub use fullsync::{decode_full_sync_request, decode_state_vector, serve_full_sync, FullSyncRequest};
pub use identifier::{
    detect_identifier_type, is_valid_email_format, is_valid_phone_format, phone_digits_valid,
    IdentifierError, IdentifierType,
};
pub use laws::{
    lemma_apply_in_order_append, lemma_apply_in_order_head, lemma_diff_of_empty_vector_is_state,
    lemma_diff_of_own_vector_empty, lemma_disjoint_updates_both_apply, lemma_merge_commutative,
    lemma_merge_idempotent, lemma_serial_application, lemma_state_vector_unique,
};
pub use password::{
    judge_password, validate_password, PasswordError, UserPassword, MAX_PASSWORD_GRAPHEMES,
    PASSWORD_PATTERN,
};
pub use plan_limits::{PlanLimits, SubscriptionPlan, GIB, MIB};
pub use presence::{connect, disconnect, PresenceRegistry};
pub use realtime::{decode_envelope, decode_message, dispatch_message, MessageKind, RealtimeMessage};
pub use router::{route_outcome, slots_distinct, Router};
pub use snapshot::{decode_snapshot, encode_snapshot, lemma_snapshot_round_trip, SNAPSHOT_VERSION};
pub use storage::{has_root, extract_text, lemma_capacity_enforced, CollabStore, PendingIndexTask, StoredCollab};
pub use subscription::{
    normalize_limit, parse_addon_status, parse_addon_type, parse_billing_type, parse_status,
    usage_type_to_str, AddonStatus, AddonType, BillingType, CancelSubscriptionRequest,
    PostSharedRequest, PurchaseAddonRequest, SubscribeRequest, SubscriptionStatus, UsageAggregateRow,
    UsageType,
};
pub use text::{push_decimal, str_equals};
pub use user::{AFSystemNotification, AFUserChange, RealtimeUser, UserDevice};
