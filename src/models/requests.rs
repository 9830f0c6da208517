//! Request records. Their XML form is given in the `codec` module.
use vstd::prelude::*;

verus! {

/// The client's hello message.
#[derive(Debug, PartialEq)]
pub struct HelloClient {
    pub xmlns: String,
    pub capabilities: CapabilitiesClient,
}

/// The capabilities that the client announces, in order.
#[derive(Debug, PartialEq)]
pub struct CapabilitiesClient {
    pub capabilities: Vec<Capability>,
}

/// One capability URI.
#[derive(Debug, PartialEq)]
pub struct Capability {
    pub capability: String,
}

/// A `get-config` request.
#[derive(Debug, PartialEq)]
pub struct GetConfigReq {
    pub message_id: u32,
    pub xmlns: String,
    pub get_config: GetConfig,
}

/// The body of a `get-config` request.
#[derive(Debug, PartialEq)]
pub struct GetConfig {
    pub source: Target,
    pub filter: Option<Filter>,
}

/// An `edit-config` request.
#[derive(Debug, PartialEq)]
pub struct EditConfigReq {
    pub message_id: u32,
    pub xmlns: String,
    pub edit_config: EditConfig,
}

/// The body of an `edit-config` request.
#[derive(Debug, PartialEq)]
pub struct EditConfig {
    pub target: Target,
    pub default_operation: Option<DefaultOperation>,
    pub test_option: Option<TestOption>,
    pub error_option: Option<ErrorOption>,
    pub config: Data,
}

/// The `default-operation` directive of `edit-config`.
#[derive(Debug, PartialEq)]
pub struct DefaultOperation {
    pub value: DefaultOperationType,
}

#[derive(Debug, PartialEq, Eq, Structural, Clone, Copy)]
pub enum DefaultOperationType {
    Merge,
    Replace,
    NoOperation,
}

/// The `test-option` directive of `edit-config`.
#[derive(Debug, PartialEq)]
pub struct TestOption {
    pub value: TestOptionType,
}

#[derive(Debug, PartialEq, Eq, Structural, Clone, Copy)]
pub enum TestOptionType {
    TestThenSet,
    SetOnly,
    TestOnly,
}

/// The `error-option` directive of `edit-config`.
#[derive(Debug, PartialEq)]
pub struct ErrorOption {
    pub value: ErrorOptionType,
}

#[derive(Debug, PartialEq, Eq, Structural, Clone, Copy)]
pub enum ErrorOptionType {
    StopOnError,
    ContinueOnError,
    RollbackOnError,
}

/// A `config` element: an optional `xmlns:xc` attribute and its text.
#[derive(Debug, PartialEq)]
pub struct Data {
    pub xmlns_xc: Option<String>,
    pub data: String,
}

/// A `delete-config` request.
#[derive(Debug, PartialEq)]
pub struct DeleteConfigReq {
    pub message_id: u32,
    pub xmlns: String,
    pub delete_config: DeleteConfig,
}

#[derive(Debug, PartialEq)]
pub struct DeleteConfig {
    pub target: Target,
}

/// A `get` request.
#[derive(Debug, PartialEq)]
pub struct GetReq {
    pub message_id: u32,
    pub xmlns: String,
    pub get: Get,
}

#[derive(Debug, PartialEq)]
pub struct Get {
    pub filter: Option<Filter>,
}

/// A `discard-changes` request.
#[derive(Debug, PartialEq)]
pub struct DiscardChangesReq {
    pub message_id: u32,
    pub xmlns: String,
    pub discard_changes: DiscardChanges,
}

#[derive(Debug, PartialEq, Default)]
pub struct DiscardChanges {}

/// A `commit` request.
#[derive(Debug, PartialEq)]
pub struct CommitReq {
    pub message_id: u32,
    pub xmlns: String,
    pub commit: Commit,
}

#[derive(Debug, PartialEq, Default)]
pub struct Commit {}

/// A filter: its kind and its XML body.
#[derive(Debug, PartialEq, Clone)]
pub struct Filter {
    pub filter_type: FilterType,
    pub data: String,
}

/// A `lock` request.
#[derive(Debug, PartialEq)]
pub struct LockReq {
    pub message_id: u32,
    pub xmlns: String,
    pub lock: Lock,
}

#[derive(Debug, PartialEq)]
pub struct Lock {
    pub target: Target,
}

/// An `unlock` request.
#[derive(Debug, PartialEq)]
pub struct UnlockReq {
    pub message_id: u32,
    pub xmlns: String,
    pub unlock: Unlock,
}

#[derive(Debug, PartialEq)]
pub struct Unlock {
    pub target: Target,
}

/// A `close-session` request.
#[derive(Debug, PartialEq)]
pub struct CloseSessionReq {
    pub message_id: u32,
    pub xmlns: String,
    pub close_session: CloseSession,
}

#[derive(Debug, PartialEq, Default)]
pub struct CloseSession {}

/// A `kill-session` request.
#[derive(Debug, PartialEq)]
pub struct KillSessionReq {
    pub message_id: u32,
    pub xmlns: String,
    pub kill_session: KillSession,
}

#[derive(Debug, PartialEq, Default)]
pub struct KillSession {
    pub session_id: SessionId,
}

#[derive(Debug, PartialEq, Default)]
pub struct SessionId {
    pub value: u32,
}

/// A `copy-config` request.
#[derive(Debug, PartialEq)]
pub struct CopyConfigReq {
    pub message_id: u32,
    pub xmlns: String,
    pub copy_config: CopyConfig,
}

#[derive(Debug, PartialEq)]
pub struct CopyConfig {
    pub target: Target,
    pub source: CopyConfigSourceType,
}

/// The source of `copy-config`: a datastore or an inline configuration.
#[derive(Debug, PartialEq)]
pub enum CopyConfigSourceType {
    Datastore { source: DatastoreType },
    Config { config: Data },
}

/// A datastore named as target or source.
#[derive(Debug, PartialEq)]
pub struct Target {
    pub target: DatastoreType,
}

#[derive(Debug, PartialEq, Eq, Structural, Clone, Copy)]
pub enum DatastoreType {
    Running,
    Candidate,
    Startup,
}

#[derive(Debug, PartialEq, Eq, Structural, Clone, Copy)]
pub enum FilterType {
    Subtree,
}

} // verus!
