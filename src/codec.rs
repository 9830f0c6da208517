//! The XML form of request envelopes, and the splice that places
//! caller-supplied XML into an encoded envelope.
use crate::models::requests::{
    Capability, CommitReq, CopyConfigReq, CopyConfigSourceType, Data, DatastoreType,
    DefaultOperation, DefaultOperationType, DeleteConfigReq, DiscardChangesReq, EditConfig,
    EditConfigReq, ErrorOption, ErrorOptionType, Filter, FilterType, GetConfigReq,
    GetReq, HelloClient, KillSessionReq, LockReq, CloseSessionReq, Target, TestOption,
    TestOptionType, UnlockReq,
};
use crate::text::{
    append_decimal, chars_match_at, decimal, digit_run, digit_value, digits_value, is_digit,
    lemma_decimal_digits, lemma_digit_run_of, escape_char, escape_text, last_below,
    lemma_last_below_at, lemma_last_below_occurs, occurs_at, rfind_str, xml_escape,
};
use vstd::prelude::*;

verus! {

/// The protocol's base namespace.
pub const XMLNS: &'static str = "urn:ietf:params:xml:ns:netconf:base:1.0";

/// The legacy end-of-message marker.
pub const END_OF_MESSAGE: &'static str = "]]>]]>";

/// ` name="value"` with the value as given.
pub open spec fn raw_attribute(name: Seq<char>, value: Seq<char>) -> Seq<char> {
    " "@ + name + "=\""@ + value + "\""@
}

/// ` name="value"` with the value escaped; nothing when the escaped value is
/// empty.
pub open spec fn attribute(name: Seq<char>, value: Seq<char>) -> Seq<char> {
    if xml_escape(value).len() == 0 {
        seq![]
    } else {
        raw_attribute(name, xml_escape(value))
    }
}

/// An element with its attribute text and content; self-closed when the
/// content is empty.
pub open spec fn element(name: Seq<char>, attrs: Seq<char>, content: Seq<char>) -> Seq<char> {
    if content.len() == 0 {
        "<"@ + name + attrs + "/>"@
    } else {
        "<"@ + name + attrs + ">"@ + content + "</"@ + name + ">"@
    }
}

/// The text of an element whose only content is `text`, escaped.
pub open spec fn text_element(name: Seq<char>, text: Seq<char>) -> Seq<char> {
    element(name, seq![], xml_escape(text))
}

/// The `rpc` wrapper around one operation.
pub open spec fn rpc_xml(message_id: u32, xmlns: Seq<char>, body: Seq<char>) -> Seq<char> {
    element(
        "rpc"@,
        raw_attribute("message-id"@, decimal(message_id as nat)) + attribute("xmlns"@, xmlns),
        body,
    )
}

pub open spec fn datastore_name(d: DatastoreType) -> Seq<char> {
    match d {
        DatastoreType::Running => "running"@,
        DatastoreType::Candidate => "candidate"@,
        DatastoreType::Startup => "startup"@,
    }
}

pub open spec fn datastore_xml(d: DatastoreType) -> Seq<char> {
    element(datastore_name(d), seq![], seq![])
}

/// A datastore wrapped in an element such as `target` or `source`.
pub open spec fn target_xml(name: Seq<char>, t: Target) -> Seq<char> {
    element(name, seq![], datastore_xml(t.target))
}

pub open spec fn filter_type_name(f: FilterType) -> Seq<char> {
    match f {
        FilterType::Subtree => "subtree"@,
    }
}

/// The view of a filter: its kind and its body text.
pub open spec fn filter_view(f: Option<Filter>) -> Option<(FilterType, Seq<char>)> {
    match f {
        Some(f) => Some((f.filter_type, f.data@)),
        None => None,
    }
}

pub open spec fn opt_filter_xml(f: Option<(FilterType, Seq<char>)>) -> Seq<char> {
    match f {
        Some((kind, body)) => element(
            "filter"@,
            attribute("type"@, filter_type_name(kind)),
            xml_escape(body),
        ),
        None => seq![],
    }
}

/// The view of a `config` element: its `xmlns:xc` attribute and its text.
pub open spec fn data_view(d: Data) -> (Option<Seq<char>>, Seq<char>) {
    (
        match d.xmlns_xc {
            Some(x) => Some(x@),
            None => None,
        },
        d.data@,
    )
}

/// A `config` element.
pub open spec fn data_xml(d: (Option<Seq<char>>, Seq<char>)) -> Seq<char> {
    element(
        "config"@,
        match d.0 {
            Some(x) => attribute("xmlns:xc"@, x),
            None => seq![],
        },
        xml_escape(d.1),
    )
}

pub open spec fn default_operation_name(v: DefaultOperationType) -> Seq<char> {
    match v {
        DefaultOperationType::Merge => "merge"@,
        DefaultOperationType::Replace => "replace"@,
        DefaultOperationType::NoOperation => "none"@,
    }
}

pub open spec fn test_option_name(v: TestOptionType) -> Seq<char> {
    match v {
        TestOptionType::TestThenSet => "test-then-set"@,
        TestOptionType::SetOnly => "set"@,
        TestOptionType::TestOnly => "test-only"@,
    }
}

pub open spec fn error_option_name(v: ErrorOptionType) -> Seq<char> {
    match v {
        ErrorOptionType::StopOnError => "stop-on-error"@,
        ErrorOptionType::ContinueOnError => "continue-on-error"@,
        ErrorOptionType::RollbackOnError => "rollback-on-error"@,
    }
}

pub open spec fn default_operation_xml(o: Option<DefaultOperation>) -> Seq<char> {
    match o {
        Some(o) => text_element("default-operation"@, default_operation_name(o.value)),
        None => seq![],
    }
}

pub open spec fn test_option_xml(o: Option<TestOption>) -> Seq<char> {
    match o {
        Some(o) => text_element("test-option"@, test_option_name(o.value)),
        None => seq![],
    }
}

pub open spec fn error_option_xml(o: Option<ErrorOption>) -> Seq<char> {
    match o {
        Some(o) => text_element("error-option"@, error_option_name(o.value)),
        None => seq![],
    }
}

/// The directives of an `edit-config` request.
pub open spec fn edit_options_xml(
    default_operation: Option<DefaultOperation>,
    test_option: Option<TestOption>,
    error_option: Option<ErrorOption>,
) -> Seq<char> {
    default_operation_xml(default_operation) + test_option_xml(test_option) + error_option_xml(
        error_option,
    )
}

/// The view of a `copy-config` source.
pub enum CopySourceView {
    Datastore(DatastoreType),
    Config((Option<Seq<char>>, Seq<char>)),
}

pub open spec fn copy_source_view(s: CopyConfigSourceType) -> CopySourceView {
    match s {
        CopyConfigSourceType::Datastore { source } => CopySourceView::Datastore(source),
        CopyConfigSourceType::Config { config } => CopySourceView::Config(data_view(config)),
    }
}

pub open spec fn copy_source_xml(s: CopySourceView) -> Seq<char> {
    match s {
        CopySourceView::Datastore(d) => element("source"@, seq![], datastore_xml(d)),
        CopySourceView::Config(c) => element("source"@, seq![], data_xml(c)),
    }
}

pub open spec fn capabilities_content(caps: Seq<Capability>) -> Seq<char>
    decreases caps.len(),
{
    if caps.len() == 0 {
        seq![]
    } else {
        capabilities_content(caps.drop_last()) + text_element(
            "capability"@,
            caps.last().capability@,
        )
    }
}

pub open spec fn hello_client_xml(h: HelloClient) -> Seq<char> {
    element(
        "hello"@,
        attribute("xmlns"@, h.xmlns@),
        element("capabilities"@, seq![], capabilities_content(h.capabilities.capabilities@)),
    )
}

pub open spec fn lock_xml(id: u32, xmlns: Seq<char>, target: Target) -> Seq<char> {
    rpc_xml(id, xmlns, element("lock"@, seq![], target_xml("target"@, target)))
}

pub open spec fn unlock_xml(id: u32, xmlns: Seq<char>, target: Target) -> Seq<char> {
    rpc_xml(id, xmlns, element("unlock"@, seq![], target_xml("target"@, target)))
}

pub open spec fn delete_config_xml(id: u32, xmlns: Seq<char>, target: Target) -> Seq<char> {
    rpc_xml(id, xmlns, element("delete-config"@, seq![], target_xml("target"@, target)))
}

pub open spec fn commit_xml(id: u32, xmlns: Seq<char>) -> Seq<char> {
    rpc_xml(id, xmlns, element("commit"@, seq![], seq![]))
}

pub open spec fn discard_changes_xml(id: u32, xmlns: Seq<char>) -> Seq<char> {
    rpc_xml(id, xmlns, element("discard-changes"@, seq![], seq![]))
}

pub open spec fn close_session_xml(id: u32, xmlns: Seq<char>) -> Seq<char> {
    rpc_xml(id, xmlns, element("close-session"@, seq![], seq![]))
}

pub open spec fn kill_session_xml(id: u32, xmlns: Seq<char>, session_id: u32) -> Seq<char> {
    rpc_xml(
        id,
        xmlns,
        element(
            "kill-session"@,
            seq![],
            element("session-id"@, seq![], decimal(session_id as nat)),
        ),
    )
}

pub open spec fn get_xml(
    id: u32,
    xmlns: Seq<char>,
    filter: Option<(FilterType, Seq<char>)>,
) -> Seq<char> {
    rpc_xml(id, xmlns, element("get"@, seq![], opt_filter_xml(filter)))
}

pub open spec fn get_config_xml(
    id: u32,
    xmlns: Seq<char>,
    source: Target,
    filter: Option<(FilterType, Seq<char>)>,
) -> Seq<char> {
    rpc_xml(
        id,
        xmlns,
        element("get-config"@, seq![], target_xml("source"@, source) + opt_filter_xml(filter)),
    )
}

pub open spec fn edit_config_xml(
    id: u32,
    xmlns: Seq<char>,
    target: Target,
    default_operation: Option<DefaultOperation>,
    test_option: Option<TestOption>,
    error_option: Option<ErrorOption>,
    config: (Option<Seq<char>>, Seq<char>),
) -> Seq<char> {
    rpc_xml(
        id,
        xmlns,
        element(
            "edit-config"@,
            seq![],
            target_xml("target"@, target) + edit_options_xml(
                default_operation,
                test_option,
                error_option,
            ) + data_xml(config),
        ),
    )
}

pub open spec fn copy_config_xml(
    id: u32,
    xmlns: Seq<char>,
    target: Target,
    source: CopySourceView,
) -> Seq<char> {
    rpc_xml(
        id,
        xmlns,
        element("copy-config"@, seq![], target_xml("target"@, target) + copy_source_xml(source)),
    )
}

pub open spec fn lock_req_xml(r: LockReq) -> Seq<char> {
    lock_xml(r.message_id, r.xmlns@, r.lock.target)
}

pub open spec fn unlock_req_xml(r: UnlockReq) -> Seq<char> {
    unlock_xml(r.message_id, r.xmlns@, r.unlock.target)
}

pub open spec fn delete_config_req_xml(r: DeleteConfigReq) -> Seq<char> {
    delete_config_xml(r.message_id, r.xmlns@, r.delete_config.target)
}

pub open spec fn commit_req_xml(r: CommitReq) -> Seq<char> {
    commit_xml(r.message_id, r.xmlns@)
}

pub open spec fn discard_changes_req_xml(r: DiscardChangesReq) -> Seq<char> {
    discard_changes_xml(r.message_id, r.xmlns@)
}

pub open spec fn close_session_req_xml(r: CloseSessionReq) -> Seq<char> {
    close_session_xml(r.message_id, r.xmlns@)
}

pub open spec fn kill_session_req_xml(r: KillSessionReq) -> Seq<char> {
    kill_session_xml(r.message_id, r.xmlns@, r.kill_session.session_id.value)
}

pub open spec fn get_req_xml(r: GetReq) -> Seq<char> {
    get_xml(r.message_id, r.xmlns@, filter_view(r.get.filter))
}

pub open spec fn get_config_req_xml(r: GetConfigReq) -> Seq<char> {
    get_config_xml(r.message_id, r.xmlns@, r.get_config.source, filter_view(r.get_config.filter))
}

pub open spec fn edit_config_req_xml(r: EditConfigReq) -> Seq<char> {
    edit_config_xml(
        r.message_id,
        r.xmlns@,
        r.edit_config.target,
        r.edit_config.default_operation,
        r.edit_config.test_option,
        r.edit_config.error_option,
        data_view(r.edit_config.config),
    )
}

pub open spec fn copy_config_req_xml(r: CopyConfigReq) -> Seq<char> {
    copy_config_xml(
        r.message_id,
        r.xmlns@,
        r.copy_config.target,
        copy_source_view(r.copy_config.source),
    )
}

/// Appends an element whose attribute text and content are given.
pub fn push_element(out: &mut String, name: &str, attrs: &str, content: &str)
    ensures
        final(out)@ == old(out)@ + element(name@, attrs@, content@),
{
    out.append("<");
    out.append(name);
    out.append(attrs);
    if content.is_empty() {
        out.append("/>");
    } else {
        out.append(">");
        out.append(content);
        out.append("</");
        out.append(name);
        out.append(">");
    }
    assert(out@ =~= old(out)@ + element(name@, attrs@, content@));
}

/// The text of one attribute, its value escaped.
pub fn attribute_text(name: &str, value: &str) -> (r: String)
    ensures
        r@ == attribute(name@, value@),
{
    let v = escape_text(value);
    let mut r = String::new();
    if !v.as_str().is_empty() {
        push_raw_attribute(&mut r, name, v.as_str());
    }
    assert(r@ =~= attribute(name@, value@));
    r
}

/// Appends an attribute whose value is written as given.
pub fn push_raw_attribute(out: &mut String, name: &str, value: &str)
    ensures
        final(out)@ == old(out)@ + raw_attribute(name@, value@),
{
    out.append(" ");
    out.append(name);
    out.append("=\"");
    out.append(value);
    out.append("\"");
    assert(out@ =~= old(out)@ + raw_attribute(name@, value@));
}

/// Appends an element holding the escaped `text`.
pub fn push_text_element(out: &mut String, name: &str, text: &str)
    ensures
        final(out)@ == old(out)@ + text_element(name@, text@),
{
    let t = escape_text(text);
    push_element(out, name, "", t.as_str());
    proof {
        reveal_strlit("");
    }
}

/// Appends the `rpc` wrapper around the encoded operation `body`.
fn push_rpc(out: &mut String, message_id: u32, xmlns: &str, body: &str)
    ensures
        final(out)@ == old(out)@ + rpc_xml(message_id, xmlns@, body@),
{
    let mut id = String::new();
    append_decimal(&mut id, message_id);
    let mut attrs = String::new();
    push_raw_attribute(&mut attrs, "message-id", id.as_str());
    let x = attribute_text("xmlns", xmlns);
    attrs.append(x.as_str());
    assert(id@ =~= decimal(message_id as nat));
    assert(attrs@ =~= raw_attribute("message-id"@, decimal(message_id as nat)) + attribute(
        "xmlns"@,
        xmlns@,
    ));
    push_element(out, "rpc", attrs.as_str(), body);
}

fn datastore_str(d: DatastoreType) -> (r: &'static str)
    ensures
        r@ == datastore_name(d),
{
    match d {
        DatastoreType::Running => "running",
        DatastoreType::Candidate => "candidate",
        DatastoreType::Startup => "startup",
    }
}

fn push_datastore(out: &mut String, d: DatastoreType)
    ensures
        final(out)@ == old(out)@ + datastore_xml(d),
{
    proof {
        reveal_strlit("");
    }
    push_element(out, datastore_str(d), "", "");
}

/// Appends a datastore wrapped in the element `name`.
fn push_target(out: &mut String, name: &str, t: &Target)
    ensures
        final(out)@ == old(out)@ + target_xml(name@, *t),
{
    proof {
        reveal_strlit("");
    }
    let mut inner = String::new();
    push_datastore(&mut inner, t.target);
    assert(inner@ =~= datastore_xml(t.target));
    push_element(out, name, "", inner.as_str());
}

/// Appends an element with no attributes around the given content.
fn push_wrapped(out: &mut String, name: &str, content: &str)
    ensures
        final(out)@ == old(out)@ + element(name@, seq![], content@),
{
    proof {
        reveal_strlit("");
    }
    push_element(out, name, "", content);
}

fn push_filter(out: &mut String, f: &Option<Filter>)
    ensures
        final(out)@ == old(out)@ + opt_filter_xml(filter_view(*f)),
{
    match f {
        Some(f) => {
            let kind = match f.filter_type {
                FilterType::Subtree => "subtree",
            };
            let attrs = attribute_text("type", kind);
            let body = escape_text(f.data.as_str());
            push_element(out, "filter", attrs.as_str(), body.as_str());
        },
        None => {
            assert(out@ =~= old(out)@ + opt_filter_xml(filter_view(*f)));
        },
    }
}

fn push_data(out: &mut String, d: &Data)
    ensures
        final(out)@ == old(out)@ + data_xml(data_view(*d)),
{
    let attrs = match &d.xmlns_xc {
        Some(x) => attribute_text("xmlns:xc", x.as_str()),
        None => {
            proof {
                reveal_strlit("");
            }
            String::from_str("")
        },
    };
    let body = escape_text(d.data.as_str());
    push_element(out, "config", attrs.as_str(), body.as_str());
}

fn push_default_operation(out: &mut String, o: &Option<DefaultOperation>)
    ensures
        final(out)@ == old(out)@ + default_operation_xml(*o),
{
    match o {
        Some(o) => {
            let v = match o.value {
                DefaultOperationType::Merge => "merge",
                DefaultOperationType::Replace => "replace",
                DefaultOperationType::NoOperation => "none",
            };
            push_text_element(out, "default-operation", v);
        },
        None => {
            assert(out@ =~= old(out)@ + default_operation_xml(*o));
        },
    }
}

fn push_test_option(out: &mut String, o: &Option<TestOption>)
    ensures
        final(out)@ == old(out)@ + test_option_xml(*o),
{
    match o {
        Some(o) => {
            let v = match o.value {
                TestOptionType::TestThenSet => "test-then-set",
                TestOptionType::SetOnly => "set",
                TestOptionType::TestOnly => "test-only",
            };
            push_text_element(out, "test-option", v);
        },
        None => {
            assert(out@ =~= old(out)@ + test_option_xml(*o));
        },
    }
}

fn push_error_option(out: &mut String, o: &Option<ErrorOption>)
    ensures
        final(out)@ == old(out)@ + error_option_xml(*o),
{
    match o {
        Some(o) => {
            let v = match o.value {
                ErrorOptionType::StopOnError => "stop-on-error",
                ErrorOptionType::ContinueOnError => "continue-on-error",
                ErrorOptionType::RollbackOnError => "rollback-on-error",
            };
            push_text_element(out, "error-option", v);
        },
        None => {
            assert(out@ =~= old(out)@ + error_option_xml(*o));
        },
    }
}

fn push_edit_options(out: &mut String, e: &EditConfig)
    ensures
        final(out)@ == old(out)@ + edit_options_xml(
            e.default_operation,
            e.test_option,
            e.error_option,
        ),
{
    push_default_operation(out, &e.default_operation);
    push_test_option(out, &e.test_option);
    push_error_option(out, &e.error_option);
    assert(out@ =~= old(out)@ + edit_options_xml(
        e.default_operation,
        e.test_option,
        e.error_option,
    ));
}

impl LockReq {
    pub fn to_xml(&self) -> (r: String)
        ensures
            r@ == lock_req_xml(*self),
    {
        let mut body = String::new();
        push_target(&mut body, "target", &self.lock.target);
        let mut op = String::new();
        push_wrapped(&mut op, "lock", body.as_str());
        let mut r = String::new();
        push_rpc(&mut r, self.message_id, self.xmlns.as_str(), op.as_str());
        assert(r@ =~= lock_req_xml(*self));
        r
    }
}

impl UnlockReq {
    pub fn to_xml(&self) -> (r: String)
        ensures
            r@ == unlock_req_xml(*self),
    {
        let mut body = String::new();
        push_target(&mut body, "target", &self.unlock.target);
        let mut op = String::new();
        push_wrapped(&mut op, "unlock", body.as_str());
        let mut r = String::new();
        push_rpc(&mut r, self.message_id, self.xmlns.as_str(), op.as_str());
        assert(r@ =~= unlock_req_xml(*self));
        r
    }
}

impl DeleteConfigReq {
    pub fn to_xml(&self) -> (r: String)
        ensures
            r@ == delete_config_req_xml(*self),
    {
        let mut body = String::new();
        push_target(&mut body, "target", &self.delete_config.target);
        let mut op = String::new();
        push_wrapped(&mut op, "delete-config", body.as_str());
        let mut r = String::new();
        push_rpc(&mut r, self.message_id, self.xmlns.as_str(), op.as_str());
        assert(r@ =~= delete_config_req_xml(*self));
        r
    }
}

impl CommitReq {
    pub fn to_xml(&self) -> (r: String)
        ensures
            r@ == commit_req_xml(*self),
    {
        proof {
            reveal_strlit("");
        }
        let mut op = String::new();
        push_wrapped(&mut op, "commit", "");
        let mut r = String::new();
        push_rpc(&mut r, self.message_id, self.xmlns.as_str(), op.as_str());
        assert(r@ =~= commit_req_xml(*self));
        r
    }
}

impl DiscardChangesReq {
    pub fn to_xml(&self) -> (r: String)
        ensures
            r@ == discard_changes_req_xml(*self),
    {
        proof {
            reveal_strlit("");
        }
        let mut op = String::new();
        push_wrapped(&mut op, "discard-changes", "");
        let mut r = String::new();
        push_rpc(&mut r, self.message_id, self.xmlns.as_str(), op.as_str());
        assert(r@ =~= discard_changes_req_xml(*self));
        r
    }
}

impl CloseSessionReq {
    pub fn to_xml(&self) -> (r: String)
        ensures
            r@ == close_session_req_xml(*self),
    {
        proof {
            reveal_strlit("");
        }
        let mut op = String::new();
        push_wrapped(&mut op, "close-session", "");
        let mut r = String::new();
        push_rpc(&mut r, self.message_id, self.xmlns.as_str(), op.as_str());
        assert(r@ =~= close_session_req_xml(*self));
        r
    }
}

impl KillSessionReq {
    pub fn to_xml(&self) -> (r: String)
        ensures
            r@ == kill_session_req_xml(*self),
    {
        let mut id = String::new();
        append_decimal(&mut id, self.kill_session.session_id.value);
        assert(id@ =~= decimal(self.kill_session.session_id.value as nat));
        let mut body = String::new();
        push_wrapped(&mut body, "session-id", id.as_str());
        let mut op = String::new();
        push_wrapped(&mut op, "kill-session", body.as_str());
        let mut r = String::new();
        push_rpc(&mut r, self.message_id, self.xmlns.as_str(), op.as_str());
        assert(r@ =~= kill_session_req_xml(*self));
        r
    }
}

impl GetReq {
    pub fn to_xml(&self) -> (r: String)
        ensures
            r@ == get_req_xml(*self),
    {
        let mut body = String::new();
        push_filter(&mut body, &self.get.filter);
        let mut op = String::new();
        push_wrapped(&mut op, "get", body.as_str());
        let mut r = String::new();
        push_rpc(&mut r, self.message_id, self.xmlns.as_str(), op.as_str());
        assert(body@ =~= opt_filter_xml(filter_view(self.get.filter)));
        assert(r@ =~= get_req_xml(*self));
        r
    }
}

impl GetConfigReq {
    pub fn to_xml(&self) -> (r: String)
        ensures
            r@ == get_config_req_xml(*self),
    {
        let mut body = String::new();
        push_target(&mut body, "source", &self.get_config.source);
        push_filter(&mut body, &self.get_config.filter);
        let mut op = String::new();
        push_wrapped(&mut op, "get-config", body.as_str());
        let mut r = String::new();
        push_rpc(&mut r, self.message_id, self.xmlns.as_str(), op.as_str());
        assert(body@ =~= target_xml("source"@, self.get_config.source) + opt_filter_xml(
            filter_view(self.get_config.filter),
        ));
        assert(r@ =~= get_config_req_xml(*self));
        r
    }
}

impl EditConfigReq {
    pub fn to_xml(&self) -> (r: String)
        ensures
            r@ == edit_config_req_xml(*self),
    {
        let e = &self.edit_config;
        let mut body = String::new();
        push_target(&mut body, "target", &e.target);
        push_edit_options(&mut body, e);
        push_data(&mut body, &e.config);
        let mut op = String::new();
        push_wrapped(&mut op, "edit-config", body.as_str());
        let mut r = String::new();
        push_rpc(&mut r, self.message_id, self.xmlns.as_str(), op.as_str());
        assert(body@ =~= target_xml("target"@, e.target) + edit_options_xml(
            e.default_operation,
            e.test_option,
            e.error_option,
        ) + data_xml(data_view(e.config)));
        assert(r@ =~= edit_config_req_xml(*self));
        r
    }
}

impl CopyConfigReq {
    pub fn to_xml(&self) -> (r: String)
        ensures
            r@ == copy_config_req_xml(*self),
    {
        let c = &self.copy_config;
        let mut source = String::new();
        match &c.source {
            CopyConfigSourceType::Datastore { source: d } => push_datastore(&mut source, *d),
            CopyConfigSourceType::Config { config } => push_data(&mut source, config),
        }
        let mut body = String::new();
        push_target(&mut body, "target", &c.target);
        push_wrapped(&mut body, "source", source.as_str());
        let mut op = String::new();
        push_wrapped(&mut op, "copy-config", body.as_str());
        let mut r = String::new();
        push_rpc(&mut r, self.message_id, self.xmlns.as_str(), op.as_str());
        assert(body@ =~= target_xml("target"@, c.target) + copy_source_xml(
            copy_source_view(c.source),
        ));
        assert(r@ =~= copy_config_req_xml(*self));
        r
    }
}

impl HelloClient {
    pub fn to_xml(&self) -> (r: String)
        ensures
            r@ == hello_client_xml(*self),
    {
        let caps = &self.capabilities.capabilities;
        let mut content = String::new();
        let mut i: usize = 0;
        while i < caps.len()
            invariant
                i <= caps@.len(),
                content@ == capabilities_content(caps@.subrange(0, i as int)),
            decreases caps@.len() - i,
        {
            push_text_element(&mut content, "capability", caps[i].capability.as_str());
            assert(caps@.subrange(0, i + 1).drop_last() =~= caps@.subrange(0, i as int));
            i = i + 1;
        }
        assert(caps@.subrange(0, caps@.len() as int) =~= caps@);
        let mut inner = String::new();
        push_wrapped(&mut inner, "capabilities", content.as_str());
        let attrs = attribute_text("xmlns", self.xmlns.as_str());
        let mut r = String::new();
        push_element(&mut r, "hello", attrs.as_str(), inner.as_str());
        r
    }
}

/// The envelope `env` with `raw` inserted where the last occurrence of
/// `marker` begins; nothing when `marker` does not occur.
pub open spec fn spliced(env: Seq<char>, marker: Seq<char>, raw: Seq<char>) -> Option<Seq<char>> {
    match last_below(env, marker, env.len()) {
        Some(p) => Some(env.subrange(0, p as int) + raw + env.subrange(p as int, env.len() as int)),
        None => None,
    }
}

/// The view of an optional string.
pub open spec fn opt_view(r: Option<String>) -> Option<Seq<char>> {
    match r {
        Some(s) => Some(s@),
        None => None,
    }
}

/// Inserts the verbatim XML `raw` into `envelope` where the last occurrence
/// of `marker` (a placeholder's closing tag) begins. Fails with `None` when
/// the marker is absent.
pub fn splice_raw(envelope: &str, marker: &str, raw: &str) -> (r: Option<String>)
    ensures
        opt_view(r) == spliced(envelope@, marker@, raw@),
{
    match rfind_str(envelope, marker) {
        Some(p) => {
            proof {
                lemma_last_below_occurs(envelope@, marker@, envelope@.len());
            }
            let n = envelope.unicode_len();
            let mut r = String::from_str(envelope.substring_char(0, p));
            r.append(raw);
            r.append(envelope.substring_char(p, n));
            Some(r)
        },
        None => None,
    }
}

/// No character of `s` is a space.
pub open spec fn no_space(s: Seq<char>) -> bool {
    forall|i: int| 0 <= i < s.len() ==> s[i] != ' '
}

/// The closing tag of the placeholder element `name`, with the placeholder
/// space before it.
pub open spec fn placeholder_close(name: Seq<char>) -> Seq<char> {
    " "@ + "</"@ + name + ">"@
}

/// Splicing into a placeholder: where the envelope is `head`, then the
/// element `name` whose whole content is one space, then text without
/// spaces, the splice places `raw` verbatim just before the placeholder's
/// closing tag and leaves every other character as it was.
#[verifier::rlimit(30)]
pub proof fn lemma_splice_placeholder(
    head: Seq<char>,
    name: Seq<char>,
    attrs: Seq<char>,
    tail: Seq<char>,
    raw: Seq<char>,
)
    requires
        no_space(name),
        no_space(tail),
    ensures
        spliced(head + element(name, attrs, " "@) + tail, placeholder_close(name), raw) == Some(
            head + "<"@ + name + attrs + ">"@ + raw + placeholder_close(name) + tail,
        ),
{
    reveal_strlit(" ");
    reveal_strlit("</");
    reveal_strlit(">");
    reveal_strlit("<");
    let open = head + "<"@ + name + attrs + ">"@;
    let m = placeholder_close(name);
    let u = head + element(name, attrs, " "@) + tail;
    assert(u =~= open + m + tail);
    let p = open.len();
    assert(u.subrange(p as int, p + m.len() as int) =~= m);
    assert(occurs_at(u, m, p as int));
    assert forall|q: int| p < q < u.len() implies u[q] != m[0] by {
        let w = "</"@ + name + ">"@ + tail;
        assert(u =~= open + " "@ + w);
        assert(u[q] == w[q - p - 1]);
        let k = q - p - 1;
        if k >= 2 + name.len() + 1 {
            assert(w[k] == tail[k - 3 - name.len()]);
        } else if k >= 2 && k < 2 + name.len() {
            assert(w[k] == name[k - 2]);
        }
    }
    lemma_last_below_at(u, m, u.len(), p);
    assert(u.subrange(0, p as int) =~= open);
    assert(u.subrange(p as int, u.len() as int) =~= m + tail);
    assert(open + raw + (m + tail) =~= head + "<"@ + name + attrs + ">"@ + raw + m + tail);
}

/// Wrapping an element around text that splits as `head`, `e`, `tail`
/// keeps the split: the wrapper's opening goes to the head, its closing tag
/// to the tail.
pub proof fn lemma_wrap_split(
    n: Seq<char>,
    a: Seq<char>,
    before: Seq<char>,
    head: Seq<char>,
    e: Seq<char>,
    tail: Seq<char>,
)
    requires
        e.len() > 0,
        no_space(n),
        no_space(tail),
    ensures
        element(n, a, before + (head + e + tail)) == ("<"@ + n + a + ">"@ + before + head) + e + (
        tail + "</"@ + n + ">"@),
        no_space(tail + "</"@ + n + ">"@),
{
    reveal_strlit("</");
    reveal_strlit(">");
    assert(element(n, a, before + (head + e + tail)) =~= ("<"@ + n + a + ">"@ + before + head) + e
        + (tail + "</"@ + n + ">"@));
    let t2 = tail + "</"@ + n + ">"@;
    assert forall|i: int| 0 <= i < t2.len() implies t2[i] != ' ' by {
        if i >= tail.len() + 2 && i < tail.len() + 2 + n.len() {
            assert(t2[i] == n[i - tail.len() - 2]);
        } else if i < tail.len() {
            assert(t2[i] == tail[i]);
        }
    }
}

/// One space escapes to itself.
pub proof fn lemma_escape_space()
    ensures
        xml_escape(" "@) == " "@,
{
    reveal_strlit(" ");
    assert(" "@.drop_last() =~= Seq::<char>::empty());
    assert(escape_char(' ') == seq![' ']);
    assert(xml_escape(" "@) =~= xml_escape(Seq::<char>::empty()) + seq![' ']);
}

/// How every request envelope begins, up to its message id.
pub open spec fn rpc_prefix() -> Seq<char> {
    "<rpc message-id=\""@
}

/// The number written at `k` as a run of digits closed by `term`; nothing
/// when there is no such run or it does not fit in 32 bits.
pub open spec fn number_at(t: Seq<char>, k: nat, term: char) -> Option<u32> {
    let n = digit_run(t, k);
    if n > 0 && k + n < t.len() && t[(k + n) as int] == term && digits_value(
        t.subrange(k as int, (k + n) as int),
    ) <= u32::MAX {
        Some(digits_value(t.subrange(k as int, (k + n) as int)) as u32)
    } else {
        None
    }
}

/// The message id that a request envelope carries: the digits that follow
/// its opening, closed by a quote; nothing when the text does not begin so or
/// the number does not fit in 32 bits.
pub open spec fn read_message_id(t: Seq<char>) -> Option<u32> {
    if occurs_at(t, rpc_prefix(), 0) {
        number_at(t, rpc_prefix().len(), '"')
    } else {
        None
    }
}

fn digit_of(c: char) -> (r: Option<u32>)
    ensures
        match r {
            Some(d) => digit_value(c) == Some(d as nat),
            None => digit_value(c) is None,
        },
{
    if c == '0' {
        Some(0)
    } else if c == '1' {
        Some(1)
    } else if c == '2' {
        Some(2)
    } else if c == '3' {
        Some(3)
    } else if c == '4' {
        Some(4)
    } else if c == '5' {
        Some(5)
    } else if c == '6' {
        Some(6)
    } else if c == '7' {
        Some(7)
    } else if c == '8' {
        Some(8)
    } else if c == '9' {
        Some(9)
    } else {
        None
    }
}

/// Reads the number written at `k` as digits closed by `term`.
pub fn read_number(text: &str, k: usize, term: char) -> (r: Option<u32>)
    ensures
        r == number_at(text@, k as nat, term),
{
    let n: usize = text.unicode_len();
    if k > n {
        return None;
    }
    let mut i: usize = k;
    let mut value: u64 = 0;
    let mut overflow: bool = false;
    while i < n && digit_of(text.get_char(i)).is_some()
        invariant
            n == text@.len(),
            k <= i <= n,
            forall|j: int| k <= j < i ==> is_digit(#[trigger] text@[j]),
            overflow <==> digits_value(text@.subrange(k as int, i as int)) > u32::MAX,
            !overflow ==> value == digits_value(text@.subrange(k as int, i as int)),
        decreases n - i,
    {
        let c = text.get_char(i);
        match digit_of(c) {
            Some(d) => {
                let ghost before = text@.subrange(k as int, i as int);
                let ghost after = text@.subrange(k as int, i + 1);
                assert(after.drop_last() =~= before);
                assert(after.last() == c);
                assert(digits_value(after) == digits_value(before) * 10 + d);
                if !overflow {
                    value = value * 10 + d as u64;
                    if value > 4294967295u64 {
                        overflow = true;
                    }
                }
                i = i + 1;
            },
            None => {},
        }
    }
    proof {
        let run = text@.subrange(k as int, i as int);
        assert forall|j: int| 0 <= j < run.len() implies is_digit(#[trigger] run[j]) by {
            assert(run[j] == text@[k + j]);
        }
        lemma_digit_run_of(text@, k as nat, run);
    }
    if i == k || i >= n || overflow {
        return None;
    }
    if text.get_char(i) != term {
        return None;
    }
    Some(value as u32)
}

/// Reads the message id of an encoded request.
pub fn request_message_id(text: &str) -> (r: Option<u32>)
    ensures
        r == read_message_id(text@),
{
    let prefix = "<rpc message-id=\"";
    proof {
        reveal_strlit("<rpc message-id=\"");
    }
    assert(prefix@ == rpc_prefix());
    if !chars_match_at(text, prefix, 0) {
        return None;
    }
    read_number(text, prefix.unicode_len(), '"')
}

/// The decimal rendering of `v` at `k`, closed by a non-digit `term`, reads
/// back as `v`.
pub proof fn lemma_number_at(t: Seq<char>, k: nat, v: u32, term: char)
    requires
        k + decimal(v as nat).len() < t.len(),
        t.subrange(k as int, (k + decimal(v as nat).len()) as int) == decimal(v as nat),
        t[(k + decimal(v as nat).len()) as int] == term,
        !is_digit(term),
    ensures
        number_at(t, k, term) == Some(v),
{
    lemma_decimal_digits(v as nat);
    lemma_digit_run_of(t, k, decimal(v as nat));
}

/// Round trip of the message id: every request envelope, whatever follows
/// it, reads back as the message id it was encoded with.
#[verifier::rlimit(30)]
pub proof fn lemma_message_id_round_trip(
    id: u32,
    xmlns: Seq<char>,
    body: Seq<char>,
    rest: Seq<char>,
)
    ensures
        read_message_id(rpc_xml(id, xmlns, body) + rest) == Some(id),
{
    reveal_strlit("<rpc message-id=\"");
    reveal_strlit("<");
    reveal_strlit("rpc");
    reveal_strlit(" ");
    reveal_strlit("message-id");
    reveal_strlit("=\"");
    reveal_strlit("\"");
    let d = decimal(id as nat);
    let attrs = raw_attribute("message-id"@, d) + attribute("xmlns"@, xmlns);
    let t = rpc_xml(id, xmlns, body) + rest;
    let more = if body.len() == 0 {
        attribute("xmlns"@, xmlns) + "/>"@ + rest
    } else {
        attribute("xmlns"@, xmlns) + ">"@ + body + "</"@ + "rpc"@ + ">"@ + rest
    };
    assert(t =~= rpc_prefix() + d + "\""@ + more);
    let k = rpc_prefix().len();
    assert(t.subrange(0, k as int) =~= rpc_prefix());
    assert(t.subrange(k as int, (k + d.len()) as int) =~= d);
    assert(t[(k + d.len()) as int] == '"');
    lemma_number_at(t, k, id, '"');
}

} // verus!
