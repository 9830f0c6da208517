//! Reply records and the common view of a reply that classification uses.
use vstd::prelude::*;

verus! {

/// What every reply offers: whether it reports success, its error list and
/// its message id.
pub trait RpcRsp: Sized {
    /// The reply carries the success marker that its kind requires (replies
    /// without such a marker carry it implicitly).
    spec fn has_ok_marker(&self) -> bool;

    /// The `rpc-error` list of the reply, if it has one.
    spec fn error_list(&self) -> Option<Seq<RpcError>>;

    /// The message id echoed by the reply (none for the server hello).
    spec fn reply_id(&self) -> Option<u32>;

    /// Success: the marker is there and no error list is.
    fn is_ok(&self) -> (r: bool)
        ensures
            r == (self.has_ok_marker() && self.error_list() is None),
    ;

    fn get_error(&self) -> (r: Option<&Vec<RpcError>>)
        ensures
            r is None <==> self.error_list() is None,
            r matches Some(v) ==> self.error_list() == Some(v@),
    ;

    fn get_message_id(&self) -> (r: Option<u32>)
        ensures
            r == self.reply_id(),
    ;

    /// Gives up the reply for its error list.
    fn into_error(self) -> (r: Option<Vec<RpcError>>)
        ensures
            r is None <==> self.error_list() is None,
            r matches Some(v) ==> self.error_list() == Some(v@),
    ;
}

/// The reply to a `EditConfig` request.
#[derive(Debug, PartialEq)]
pub struct EditConfigRsp {
    pub xmlns: String,
    pub message_id: u32,
    pub ok: Option<()>,
    pub rpc_error: Option<Vec<RpcError>>,
}

impl RpcRsp for EditConfigRsp {
    open spec fn has_ok_marker(&self) -> bool {
        self.ok is Some
    }

    open spec fn error_list(&self) -> Option<Seq<RpcError>> {
        match &self.rpc_error {
            Some(v) => Some(v@),
            None => None,
        }
    }

    open spec fn reply_id(&self) -> Option<u32> {
        Some(self.message_id)
    }

    fn is_ok(&self) -> (r: bool) {
        self.ok.is_some() && self.rpc_error.is_none()
    }

    fn get_error(&self) -> (r: Option<&Vec<RpcError>>) {
        self.rpc_error.as_ref()
    }

    fn get_message_id(&self) -> (r: Option<u32>) {
        Some(self.message_id)
    }

    fn into_error(self) -> (r: Option<Vec<RpcError>>) {
        self.rpc_error
    }
}

/// The reply to a `CopyConfig` request.
#[derive(Debug, PartialEq)]
pub struct CopyConfigRsp {
    pub xmlns: String,
    pub message_id: u32,
    pub ok: Option<()>,
    pub rpc_error: Option<Vec<RpcError>>,
}

impl RpcRsp for CopyConfigRsp {
    open spec fn has_ok_marker(&self) -> bool {
        self.ok is Some
    }

    open spec fn error_list(&self) -> Option<Seq<RpcError>> {
        match &self.rpc_error {
            Some(v) => Some(v@),
            None => None,
        }
    }

    open spec fn reply_id(&self) -> Option<u32> {
        Some(self.message_id)
    }

    fn is_ok(&self) -> (r: bool) {
        self.ok.is_some() && self.rpc_error.is_none()
    }

    fn get_error(&self) -> (r: Option<&Vec<RpcError>>) {
        self.rpc_error.as_ref()
    }

    fn get_message_id(&self) -> (r: Option<u32>) {
        Some(self.message_id)
    }

    fn into_error(self) -> (r: Option<Vec<RpcError>>) {
        self.rpc_error
    }
}

/// The reply to a `DeleteConfig` request.
#[derive(Debug, PartialEq)]
pub struct DeleteConfigRsp {
    pub xmlns: String,
    pub message_id: u32,
    pub ok: Option<()>,
    pub rpc_error: Option<Vec<RpcError>>,
}

impl RpcRsp for DeleteConfigRsp {
    open spec fn has_ok_marker(&self) -> bool {
        self.ok is Some
    }

    open spec fn error_list(&self) -> Option<Seq<RpcError>> {
        match &self.rpc_error {
            Some(v) => Some(v@),
            None => None,
        }
    }

    open spec fn reply_id(&self) -> Option<u32> {
        Some(self.message_id)
    }

    fn is_ok(&self) -> (r: bool) {
        self.ok.is_some() && self.rpc_error.is_none()
    }

    fn get_error(&self) -> (r: Option<&Vec<RpcError>>) {
        self.rpc_error.as_ref()
    }

    fn get_message_id(&self) -> (r: Option<u32>) {
        Some(self.message_id)
    }

    fn into_error(self) -> (r: Option<Vec<RpcError>>) {
        self.rpc_error
    }
}

/// The reply to a `Lock` request.
#[derive(Debug, PartialEq)]
pub struct LockRsp {
    pub xmlns: String,
    pub message_id: u32,
    pub ok: Option<()>,
    pub rpc_error: Option<Vec<RpcError>>,
}

impl RpcRsp for LockRsp {
    open spec fn has_ok_marker(&self) -> bool {
        self.ok is Some
    }

    open spec fn error_list(&self) -> Option<Seq<RpcError>> {
        match &self.rpc_error {
            Some(v) => Some(v@),
            None => None,
        }
    }

    open spec fn reply_id(&self) -> Option<u32> {
        Some(self.message_id)
    }

    fn is_ok(&self) -> (r: bool) {
        self.ok.is_some() && self.rpc_error.is_none()
    }

    fn get_error(&self) -> (r: Option<&Vec<RpcError>>) {
        self.rpc_error.as_ref()
    }

    fn get_message_id(&self) -> (r: Option<u32>) {
        Some(self.message_id)
    }

    fn into_error(self) -> (r: Option<Vec<RpcError>>) {
        self.rpc_error
    }
}

/// The reply to a `Unlock` request.
#[derive(Debug, PartialEq)]
pub struct UnlockRsp {
    pub xmlns: String,
    pub message_id: u32,
    pub ok: Option<()>,
    pub rpc_error: Option<Vec<RpcError>>,
}

impl RpcRsp for UnlockRsp {
    open spec fn has_ok_marker(&self) -> bool {
        self.ok is Some
    }

    open spec fn error_list(&self) -> Option<Seq<RpcError>> {
        match &self.rpc_error {
            Some(v) => Some(v@),
            None => None,
        }
    }

    open spec fn reply_id(&self) -> Option<u32> {
        Some(self.message_id)
    }

    fn is_ok(&self) -> (r: bool) {
        self.ok.is_some() && self.rpc_error.is_none()
    }

    fn get_error(&self) -> (r: Option<&Vec<RpcError>>) {
        self.rpc_error.as_ref()
    }

    fn get_message_id(&self) -> (r: Option<u32>) {
        Some(self.message_id)
    }

    fn into_error(self) -> (r: Option<Vec<RpcError>>) {
        self.rpc_error
    }
}

/// The reply to a `CloseSession` request.
#[derive(Debug, PartialEq)]
pub struct CloseSessionRsp {
    pub xmlns: String,
    pub message_id: u32,
    pub ok: Option<()>,
    pub rpc_error: Option<Vec<RpcError>>,
}

impl RpcRsp for CloseSessionRsp {
    open spec fn has_ok_marker(&self) -> bool {
        self.ok is Some
    }

    open spec fn error_list(&self) -> Option<Seq<RpcError>> {
        match &self.rpc_error {
            Some(v) => Some(v@),
            None => None,
        }
    }

    open spec fn reply_id(&self) -> Option<u32> {
        Some(self.message_id)
    }

    fn is_ok(&self) -> (r: bool) {
        self.ok.is_some() && self.rpc_error.is_none()
    }

    fn get_error(&self) -> (r: Option<&Vec<RpcError>>) {
        self.rpc_error.as_ref()
    }

    fn get_message_id(&self) -> (r: Option<u32>) {
        Some(self.message_id)
    }

    fn into_error(self) -> (r: Option<Vec<RpcError>>) {
        self.rpc_error
    }
}

/// The reply to a `KillSession` request.
#[derive(Debug, PartialEq)]
pub struct KillSessionRsp {
    pub xmlns: String,
    pub message_id: u32,
    pub ok: Option<()>,
    pub rpc_error: Option<Vec<RpcError>>,
}

impl RpcRsp for KillSessionRsp {
    open spec fn has_ok_marker(&self) -> bool {
        self.ok is Some
    }

    open spec fn error_list(&self) -> Option<Seq<RpcError>> {
        match &self.rpc_error {
            Some(v) => Some(v@),
            None => None,
        }
    }

    open spec fn reply_id(&self) -> Option<u32> {
        Some(self.message_id)
    }

    fn is_ok(&self) -> (r: bool) {
        self.ok.is_some() && self.rpc_error.is_none()
    }

    fn get_error(&self) -> (r: Option<&Vec<RpcError>>) {
        self.rpc_error.as_ref()
    }

    fn get_message_id(&self) -> (r: Option<u32>) {
        Some(self.message_id)
    }

    fn into_error(self) -> (r: Option<Vec<RpcError>>) {
        self.rpc_error
    }
}

/// The reply to a `DiscardChanges` request.
#[derive(Debug, PartialEq)]
pub struct DiscardChangesRsp {
    pub xmlns: String,
    pub message_id: u32,
    pub ok: Option<()>,
    pub rpc_error: Option<Vec<RpcError>>,
}

impl RpcRsp for DiscardChangesRsp {
    open spec fn has_ok_marker(&self) -> bool {
        self.ok is Some
    }

    open spec fn error_list(&self) -> Option<Seq<RpcError>> {
        match &self.rpc_error {
            Some(v) => Some(v@),
            None => None,
        }
    }

    open spec fn reply_id(&self) -> Option<u32> {
        Some(self.message_id)
    }

    fn is_ok(&self) -> (r: bool) {
        self.ok.is_some() && self.rpc_error.is_none()
    }

    fn get_error(&self) -> (r: Option<&Vec<RpcError>>) {
        self.rpc_error.as_ref()
    }

    fn get_message_id(&self) -> (r: Option<u32>) {
        Some(self.message_id)
    }

    fn into_error(self) -> (r: Option<Vec<RpcError>>) {
        self.rpc_error
    }
}

/// The reply to a `Commit` request.
#[derive(Debug, PartialEq)]
pub struct CommitRsp {
    pub xmlns: String,
    pub message_id: u32,
    pub ok: Option<()>,
    pub rpc_error: Option<Vec<RpcError>>,
}

impl RpcRsp for CommitRsp {
    open spec fn has_ok_marker(&self) -> bool {
        self.ok is Some
    }

    open spec fn error_list(&self) -> Option<Seq<RpcError>> {
        match &self.rpc_error {
            Some(v) => Some(v@),
            None => None,
        }
    }

    open spec fn reply_id(&self) -> Option<u32> {
        Some(self.message_id)
    }

    fn is_ok(&self) -> (r: bool) {
        self.ok.is_some() && self.rpc_error.is_none()
    }

    fn get_error(&self) -> (r: Option<&Vec<RpcError>>) {
        self.rpc_error.as_ref()
    }

    fn get_message_id(&self) -> (r: Option<u32>) {
        Some(self.message_id)
    }

    fn into_error(self) -> (r: Option<Vec<RpcError>>) {
        self.rpc_error
    }
}

/// The server's hello: its capabilities and the session id it assigned.
#[derive(Debug, PartialEq)]
pub struct HelloServer {
    pub xmlns: String,
    pub capabilities: CapabilitiesServer,
    pub session_id: u32,
    pub rpc_error: Option<Vec<RpcError>>,
}

impl RpcRsp for HelloServer {
    open spec fn has_ok_marker(&self) -> bool {
        true
    }

    open spec fn error_list(&self) -> Option<Seq<RpcError>> {
        match &self.rpc_error {
            Some(v) => Some(v@),
            None => None,
        }
    }

    open spec fn reply_id(&self) -> Option<u32> {
        None
    }

    fn is_ok(&self) -> (r: bool) {
        self.rpc_error.is_none()
    }

    fn get_error(&self) -> (r: Option<&Vec<RpcError>>) {
        self.rpc_error.as_ref()
    }

    fn get_message_id(&self) -> (r: Option<u32>) {
        None
    }

    fn into_error(self) -> (r: Option<Vec<RpcError>>) {
        self.rpc_error
    }
}

/// The reply to a `GetConfig` request; `data` holds the payload taken verbatim
/// from the reply text.
#[derive(Debug, PartialEq)]
pub struct GetConfigRsp {
    pub xmlns: String,
    pub message_id: u32,
    pub rpc_error: Option<Vec<RpcError>>,
    pub data: Option<String>,
}

impl RpcRsp for GetConfigRsp {
    open spec fn has_ok_marker(&self) -> bool {
        true
    }

    open spec fn error_list(&self) -> Option<Seq<RpcError>> {
        match &self.rpc_error {
            Some(v) => Some(v@),
            None => None,
        }
    }

    open spec fn reply_id(&self) -> Option<u32> {
        Some(self.message_id)
    }

    fn is_ok(&self) -> (r: bool) {
        self.rpc_error.is_none()
    }

    fn get_error(&self) -> (r: Option<&Vec<RpcError>>) {
        self.rpc_error.as_ref()
    }

    fn get_message_id(&self) -> (r: Option<u32>) {
        Some(self.message_id)
    }

    fn into_error(self) -> (r: Option<Vec<RpcError>>) {
        self.rpc_error
    }
}

/// The reply to a `Get` request; `data` holds the payload taken verbatim
/// from the reply text.
#[derive(Debug, PartialEq)]
pub struct GetRsp {
    pub xmlns: String,
    pub message_id: u32,
    pub rpc_error: Option<Vec<RpcError>>,
    pub data: Option<String>,
}

impl RpcRsp for GetRsp {
    open spec fn has_ok_marker(&self) -> bool {
        true
    }

    open spec fn error_list(&self) -> Option<Seq<RpcError>> {
        match &self.rpc_error {
            Some(v) => Some(v@),
            None => None,
        }
    }

    open spec fn reply_id(&self) -> Option<u32> {
        Some(self.message_id)
    }

    fn is_ok(&self) -> (r: bool) {
        self.rpc_error.is_none()
    }

    fn get_error(&self) -> (r: Option<&Vec<RpcError>>) {
        self.rpc_error.as_ref()
    }

    fn get_message_id(&self) -> (r: Option<u32>) {
        Some(self.message_id)
    }

    fn into_error(self) -> (r: Option<Vec<RpcError>>) {
        self.rpc_error
    }
}

/// One `rpc-error` entry of a reply.
#[derive(Debug, PartialEq, Clone)]
pub struct RpcError {
    pub error_type: ErrorType,
    pub error_tag: ErrorTag,
    pub error_severity: ErrorSeverity,
    pub error_app_tag: Option<String>,
    pub error_path: Option<String>,
    pub error_message: Option<String>,
    pub error_info: Option<ErrorInfo>,
}

#[derive(Debug, PartialEq, Clone)]
pub struct ErrorInfo {
    pub session_id: Option<u32>,
    pub bad_attribute: Option<String>,
    pub bad_element: Option<String>,
}

/// The capability URIs that the server announces, in order.
#[derive(Debug, PartialEq)]
pub struct CapabilitiesServer {
    pub capabilities: Vec<String>,
}

#[derive(Debug, PartialEq, Clone)]
pub struct ErrorType {
    pub value: ErrorTypeE,
}

#[derive(Debug, PartialEq, Eq, Structural, Clone, Copy)]
pub enum ErrorTypeE {
    Transport,
    Rpc,
    Protocol,
    Application,
}

#[derive(Debug, PartialEq, Clone)]
pub struct ErrorTag {
    pub value: ErrorTagE,
}

#[derive(Debug, PartialEq, Eq, Structural, Clone, Copy)]
pub enum ErrorTagE {
    InUse,
    InvalidValue,
    TooBig,
    MissingAttribute,
    BadAttribute,
    UnknownAttribute,
    MissingElement,
    BadElement,
    UnknownElement,
    UnknownNamespace,
    AccessDenied,
    LockDenied,
    ResourceDenied,
    RollbackFailed,
    DataExists,
    DataMissing,
    OperationNotSupported,
    OperationFailed,
    PartialOperation,
    MalformedMessage,
}

#[derive(Debug, PartialEq, Clone)]
pub struct ErrorSeverity {
    pub value: ErrorSeverityE,
}

#[derive(Debug, PartialEq, Eq, Structural, Clone, Copy)]
pub enum ErrorSeverityE {
    Error,
    Warning,
}

} // verus!
