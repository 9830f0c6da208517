//! The session: the message-id counter, the negotiated session id, the
//! messages each operation sends and what each reply does to the session.
//! The transport itself stays with the caller, who sends what these methods
//! return and hands back what the peer replied.
use crate::codec::{
    attribute, capabilities_content, close_session_xml, copy_source_view, copy_source_xml,
    data_view, filter_type_name, filter_view, opt_filter_xml, commit_xml, copy_config_xml, data_xml,
    delete_config_xml, discard_changes_xml, edit_config_xml, element, get_config_xml, get_xml,
    kill_session_xml, lemma_escape_space, lemma_splice_placeholder, lemma_wrap_split, lock_xml,
    no_space, placeholder_close, raw_attribute, rpc_xml, splice_raw, spliced, target_xml,
    text_element, unlock_xml, CopySourceView, END_OF_MESSAGE, XMLNS,
};
use crate::errors::NetconfClientError;
use crate::models::replies::{CloseSessionRsp, HelloServer, KillSessionRsp, RpcRsp};
use crate::models::requests::{
    Capability, CapabilitiesClient, CloseSession, CloseSessionReq, Commit, CommitReq, CopyConfig,
    CopyConfigReq, CopyConfigSourceType, Data, DatastoreType, DefaultOperation,
    DefaultOperationType, DeleteConfig, DeleteConfigReq, DiscardChanges, DiscardChangesReq,
    EditConfig, EditConfigReq, ErrorOption, ErrorOptionType, Filter, FilterType, Get, GetConfig,
    GetConfigReq, GetReq, HelloClient, KillSession, KillSessionReq, Lock, LockReq, SessionId,
    Target, TestOption, TestOptionType, Unlock, UnlockReq,
};
use crate::text::decimal;
use crate::reply::{failed_with, make_return, succeeded};
use vstd::prelude::*;

verus! {

/// The capability that the client announces in its hello.
pub const BASE_CAPABILITY: &'static str = "urn:ietf:params:netconf:base:1.0";

/// The view of a session.
pub struct SessionState {
    /// The id that the next request will carry.
    pub message_id: u32,
    /// The id that the server assigned, while the session is established.
    pub session_id: Option<u32>,
}

/// The state after one request was issued.
pub open spec fn advanced(s: SessionState) -> SessionState {
    SessionState { message_id: (s.message_id + 1) as u32, session_id: s.session_id }
}

/// Protocol state of one client session.
pub struct Session {
    message_id: u32,
    session_id: Option<u32>,
}

impl View for Session {
    type V = SessionState;

    closed spec fn view(&self) -> SessionState {
        SessionState { message_id: self.message_id, session_id: self.session_id }
    }
}

pub open spec fn wire(envelope: Seq<char>) -> Seq<char> {
    envelope + END_OF_MESSAGE@
}

pub open spec fn hello_wire() -> Seq<char> {
    wire(
        element(
            "hello"@,
            attribute("xmlns"@, XMLNS@),
            element("capabilities"@, seq![], text_element("capability"@, BASE_CAPABILITY@)),
        ),
    )
}

pub open spec fn lift_default(o: Option<DefaultOperationType>) -> Option<DefaultOperation> {
    match o {
        Some(v) => Some(DefaultOperation { value: v }),
        None => None,
    }
}

pub open spec fn lift_test(o: Option<TestOptionType>) -> Option<TestOption> {
    match o {
        Some(v) => Some(TestOption { value: v }),
        None => None,
    }
}

pub open spec fn lift_error(o: Option<ErrorOptionType>) -> Option<ErrorOption> {
    match o {
        Some(v) => Some(ErrorOption { value: v }),
        None => None,
    }
}

/// The `edit-config` message: the envelope with a one-space placeholder as
/// its configuration, `config` spliced into it.
pub open spec fn edit_config_wire(
    id: u32,
    target: DatastoreType,
    config: Seq<char>,
    default_operation: Option<DefaultOperationType>,
    test_option: Option<TestOptionType>,
    error_option: Option<ErrorOptionType>,
) -> Seq<char> {
    wire(
        spliced(
            edit_config_xml(
                id,
                XMLNS@,
                Target { target },
                lift_default(default_operation),
                lift_test(test_option),
                lift_error(error_option),
                (Some(XMLNS@), " "@),
            ),
            placeholder_close("config"@),
            config,
        ).unwrap(),
    )
}

/// The `get` message: with a filter, its body spliced into a placeholder.
pub open spec fn get_wire(id: u32, filter: Option<(FilterType, Seq<char>)>) -> Seq<char> {
    wire(
        match filter {
            Some((kind, body)) => spliced(
                get_xml(id, XMLNS@, Some((kind, " "@))),
                placeholder_close("filter"@),
                body,
            ).unwrap(),
            None => get_xml(id, XMLNS@, None),
        },
    )
}

/// The `get-config` message: with a filter, its body spliced into a
/// placeholder.
pub open spec fn get_config_wire(
    id: u32,
    source: DatastoreType,
    filter: Option<(FilterType, Seq<char>)>,
) -> Seq<char> {
    wire(
        match filter {
            Some((kind, body)) => spliced(
                get_config_xml(id, XMLNS@, Target { target: source }, Some((kind, " "@))),
                placeholder_close("filter"@),
                body,
            ).unwrap(),
            None => get_config_xml(id, XMLNS@, Target { target: source }, None),
        },
    )
}

/// The `copy-config` message: an inline configuration is spliced into a
/// placeholder.
pub open spec fn copy_config_wire(id: u32, target: DatastoreType, source: CopySourceView) -> Seq<
    char,
> {
    wire(
        match source {
            CopySourceView::Datastore(d) => copy_config_xml(
                id,
                XMLNS@,
                Target { target },
                CopySourceView::Datastore(d),
            ),
            CopySourceView::Config((xc, body)) => spliced(
                copy_config_xml(
                    id,
                    XMLNS@,
                    Target { target },
                    CopySourceView::Config((xc, " "@)),
                ),
                placeholder_close("config"@),
                body,
            ).unwrap(),
        },
    )
}

/// Within an `rpc` envelope, a one-space placeholder element followed only
/// by closing tags can always be spliced into.
#[verifier::rlimit(30)]
proof fn lemma_rpc_placeholder(
    id: u32,
    op: Seq<char>,
    before: Seq<char>,
    head: Seq<char>,
    name: Seq<char>,
    attrs: Seq<char>,
    tail: Seq<char>,
    raw: Seq<char>,
)
    requires
        no_space(op),
        no_space(name),
        no_space(tail),
    ensures
        spliced(
            rpc_xml(
                id,
                XMLNS@,
                element(op, seq![], before + (head + element(name, attrs, " "@) + tail)),
            ),
            placeholder_close(name),
            raw,
        ) is Some,
{
    reveal_strlit(" ");
    reveal_strlit("<");
    reveal_strlit("rpc");
    let e = element(name, attrs, " "@);
    assert(e.len() > 0);
    lemma_wrap_split(op, seq![], before, head, e, tail);
    let h1 = "<"@ + op + seq![] + ">"@ + before + head;
    let t1 = tail + "</"@ + op + ">"@;
    let a = raw_attribute("message-id"@, decimal(id as nat)) + attribute("xmlns"@, XMLNS@);
    assert(no_space("rpc"@));
    lemma_wrap_split("rpc"@, a, seq![], h1, e, t1);
    assert(seq![] + (h1 + e + t1) =~= h1 + e + t1);
    let h2 = "<"@ + "rpc"@ + a + ">"@ + seq![] + h1;
    let t2 = t1 + "</"@ + "rpc"@ + ">"@;
    lemma_splice_placeholder(h2, name, attrs, t2, raw);
}

fn filter_with_placeholder(f: &Filter) -> (r: Filter)
    ensures
        r.filter_type == f.filter_type,
        r.data@ == " "@,
{
    Filter { filter_type: f.filter_type, data: String::from_str(" ") }
}

impl Session {
    /// A session before connecting: the first request will carry id 1.
    pub fn new() -> (r: Session)
        ensures
            r@ == (SessionState { message_id: 1, session_id: None }),
    {
        Session { message_id: 1, session_id: None }
    }

    pub fn get_session_id(&self) -> (r: Option<u32>)
        ensures
            r == self@.session_id,
    {
        self.session_id
    }

    pub fn get_message_id(&self) -> (r: u32)
        ensures
            r == self@.message_id,
    {
        self.message_id
    }

    /// Records that the request carrying the current id was written to the
    /// transport: the next request carries the next id. A request that was
    /// built but not written uses up no id.
    pub fn request_sent(&mut self)
        requires
            old(self)@.message_id < u32::MAX,
        ensures
            final(self)@ == advanced(old(self)@),
    {
        self.message_id = self.message_id + 1;
    }

    /// The client's hello, which announces the base capability.
    pub fn hello_message(&self) -> (r: String)
        ensures
            r@ == hello_wire(),
    {
        let cap = String::from_str(BASE_CAPABILITY);
        let mut caps: Vec<Capability> = Vec::new();
        caps.push(Capability { capability: cap });
        assert(caps@.len() == 1 && caps@[0].capability@ == BASE_CAPABILITY@);
        let hello = HelloClient {
            xmlns: String::from_str(XMLNS),
            capabilities: CapabilitiesClient { capabilities: caps },
        };
        let mut r = hello.to_xml();
        r.append(END_OF_MESSAGE);
        let ghost cs = hello.capabilities.capabilities@;
        assert(cs.drop_last() =~= Seq::<Capability>::empty());
        assert(capabilities_content(cs.drop_last()) == Seq::<char>::empty());
        assert(cs.last().capability@ == BASE_CAPABILITY@);
        assert(capabilities_content(hello.capabilities.capabilities@) =~= text_element(
            "capability"@,
            BASE_CAPABILITY@,
        ));
        r
    }

    pub fn lock_request(&self, target: DatastoreType) -> (r: String)
        ensures
            r@ == wire(lock_xml(self@.message_id, XMLNS@, Target { target })),
    {
        let id = self.message_id;
        let req = LockReq {
            message_id: id,
            xmlns: String::from_str(XMLNS),
            lock: Lock { target: Target { target } },
        };
        let mut r = req.to_xml();
        r.append(END_OF_MESSAGE);
        r
    }

    pub fn unlock_request(&self, target: DatastoreType) -> (r: String)
        ensures
            r@ == wire(unlock_xml(self@.message_id, XMLNS@, Target { target })),
    {
        let id = self.message_id;
        let req = UnlockReq {
            message_id: id,
            xmlns: String::from_str(XMLNS),
            unlock: Unlock { target: Target { target } },
        };
        let mut r = req.to_xml();
        r.append(END_OF_MESSAGE);
        r
    }

    pub fn delete_config_request(&self, target: DatastoreType) -> (r: String)
        ensures
            r@ == wire(delete_config_xml(self@.message_id, XMLNS@, Target { target })),
    {
        let id = self.message_id;
        let req = DeleteConfigReq {
            message_id: id,
            xmlns: String::from_str(XMLNS),
            delete_config: DeleteConfig { target: Target { target } },
        };
        let mut r = req.to_xml();
        r.append(END_OF_MESSAGE);
        r
    }

    pub fn commit_request(&self) -> (r: String)
        ensures
            r@ == wire(commit_xml(self@.message_id, XMLNS@)),
    {
        let id = self.message_id;
        let req = CommitReq { message_id: id, xmlns: String::from_str(XMLNS), commit: Commit {  } };
        let mut r = req.to_xml();
        r.append(END_OF_MESSAGE);
        r
    }

    pub fn discard_changes_request(&self) -> (r: String)
        ensures
            r@ == wire(discard_changes_xml(self@.message_id, XMLNS@)),
    {
        let id = self.message_id;
        let req = DiscardChangesReq {
            message_id: id,
            xmlns: String::from_str(XMLNS),
            discard_changes: DiscardChanges {  },
        };
        let mut r = req.to_xml();
        r.append(END_OF_MESSAGE);
        r
    }

    pub fn close_session_request(&self) -> (r: String)
        ensures
            r@ == wire(close_session_xml(self@.message_id, XMLNS@)),
    {
        let id = self.message_id;
        let req = CloseSessionReq {
            message_id: id,
            xmlns: String::from_str(XMLNS),
            close_session: CloseSession {  },
        };
        let mut r = req.to_xml();
        r.append(END_OF_MESSAGE);
        r
    }

    /// Asks the server to end the session `session_id`, normally another one.
    pub fn kill_session_request(&self, session_id: u32) -> (r: String)
        ensures
            r@ == wire(kill_session_xml(self@.message_id, XMLNS@, session_id)),
    {
        let id = self.message_id;
        let req = KillSessionReq {
            message_id: id,
            xmlns: String::from_str(XMLNS),
            kill_session: KillSession { session_id: SessionId { value: session_id } },
        };
        let mut r = req.to_xml();
        r.append(END_OF_MESSAGE);
        r
    }

    #[verifier::rlimit(30)]
    pub fn edit_config_request(
        &self,
        target: DatastoreType,
        config: &str,
        default_operation: Option<DefaultOperationType>,
        test_option: Option<TestOptionType>,
        error_option: Option<ErrorOptionType>,
    ) -> (r: String)
        ensures
            r@ == edit_config_wire(
                self@.message_id,
                target,
                config@,
                default_operation,
                test_option,
                error_option,
            ),
    {
        let id = self.message_id;
        let req = EditConfigReq {
            message_id: id,
            xmlns: String::from_str(XMLNS),
            edit_config: EditConfig {
                target: Target { target },
                default_operation: match default_operation {
                    Some(v) => Some(DefaultOperation { value: v }),
                    None => None,
                },
                test_option: match test_option {
                    Some(v) => Some(TestOption { value: v }),
                    None => None,
                },
                error_option: match error_option {
                    Some(v) => Some(ErrorOption { value: v }),
                    None => None,
                },
                config: Data {
                    xmlns_xc: Some(String::from_str(XMLNS)),
                    data: String::from_str(" "),
                },
            },
        };
        let envelope = req.to_xml();
        proof {
            reveal_strlit(" </config>");
            reveal_strlit(" ");
            reveal_strlit("</");
            reveal_strlit("config");
            reveal_strlit(">");
            reveal_strlit("edit-config");
            assert(" </config>"@ =~= placeholder_close("config"@));
            assert(no_space("config"@));
            assert(no_space("edit-config"@));
            lemma_escape_space();
            let e = element("config"@, attribute("xmlns:xc"@, XMLNS@), " "@);
            let before = target_xml("target"@, Target { target }) + crate::codec::edit_options_xml(
                lift_default(default_operation),
                lift_test(test_option),
                lift_error(error_option),
            );
            assert(data_xml((Some(XMLNS@), " "@)) == e);
            assert(before + data_xml((Some(XMLNS@), " "@)) =~= before + (seq![] + e + seq![]));
            assert(no_space(seq![]));
            lemma_rpc_placeholder(
                id,
                "edit-config"@,
                before,
                seq![],
                "config"@,
                attribute("xmlns:xc"@, XMLNS@),
                seq![],
                config@,
            );
        }
        match splice_raw(envelope.as_str(), " </config>", config) {
            Some(mut r) => {
                r.append(END_OF_MESSAGE);
                r
            },
            // The placeholder was encoded above, so the splice finds it.
            None => {
                proof {
                    assert(false);
                }
                String::new()
            },
        }
    }

    pub fn get_request(&self, filter: Option<Filter>) -> (r: String)
        ensures
            r@ == get_wire(self@.message_id, filter_view(filter)),
    {
        let id = self.message_id;
        match filter {
            None => {
                let req = GetReq {
                    message_id: id,
                    xmlns: String::from_str(XMLNS),
                    get: Get { filter: None },
                };
                let mut r = req.to_xml();
                r.append(END_OF_MESSAGE);
                r
            },
            Some(f) => {
                let req = GetReq {
                    message_id: id,
                    xmlns: String::from_str(XMLNS),
                    get: Get { filter: Some(filter_with_placeholder(&f)) },
                };
                let envelope = req.to_xml();
                proof {
                    reveal_strlit("get");
                    assert(no_space("get"@));
                    assert(seq![] + opt_filter_xml(Some((f.filter_type, " "@))) =~= opt_filter_xml(
                        Some((f.filter_type, " "@)),
                    ));
                    lemma_filter_placeholder(id, "get"@, seq![], f.filter_type, f.data@);
                }
                match splice_raw(envelope.as_str(), " </filter>", f.data.as_str()) {
                    Some(mut r) => {
                        r.append(END_OF_MESSAGE);
                        r
                    },
                    // The placeholder was encoded above, so the splice finds it.
                    None => {
                        proof {
                            assert(false);
                        }
                        String::new()
                    },
                }
            },
        }
    }

    #[verifier::rlimit(30)]
    pub fn get_config_request(&self, source: DatastoreType, filter: Option<Filter>) -> (r:
        String)
        ensures
            r@ == get_config_wire(self@.message_id, source, filter_view(filter)),
    {
        let id = self.message_id;
        match filter {
            None => {
                let req = GetConfigReq {
                    message_id: id,
                    xmlns: String::from_str(XMLNS),
                    get_config: GetConfig { source: Target { target: source }, filter: None },
                };
                let mut r = req.to_xml();
                r.append(END_OF_MESSAGE);
                r
            },
            Some(f) => {
                let req = GetConfigReq {
                    message_id: id,
                    xmlns: String::from_str(XMLNS),
                    get_config: GetConfig {
                        source: Target { target: source },
                        filter: Some(filter_with_placeholder(&f)),
                    },
                };
                let envelope = req.to_xml();
                proof {
                    reveal_strlit("get-config");
                    assert(no_space("get-config"@));
                    lemma_filter_placeholder(
                        id,
                        "get-config"@,
                        target_xml("source"@, Target { target: source }),
                        f.filter_type,
                        f.data@,
                    );
                }
                match splice_raw(envelope.as_str(), " </filter>", f.data.as_str()) {
                    Some(mut r) => {
                        r.append(END_OF_MESSAGE);
                        r
                    },
                    // The placeholder was encoded above, so the splice finds it.
                    None => {
                        proof {
                            assert(false);
                        }
                        String::new()
                    },
                }
            },
        }
    }

    #[verifier::rlimit(30)]
    pub fn copy_config_request(
        &self,
        target: DatastoreType,
        source: CopyConfigSourceType,
    ) -> (r: String)
        ensures
            r@ == copy_config_wire(self@.message_id, target, copy_source_view(source)),
    {
        let id = self.message_id;
        match source {
            CopyConfigSourceType::Datastore { source: d } => {
                let req = CopyConfigReq {
                    message_id: id,
                    xmlns: String::from_str(XMLNS),
                    copy_config: CopyConfig {
                        target: Target { target },
                        source: CopyConfigSourceType::Datastore { source: d },
                    },
                };
                let mut r = req.to_xml();
                r.append(END_OF_MESSAGE);
                r
            },
            CopyConfigSourceType::Config { config } => {
                let ghost xc = data_view(config).0;
                let req = CopyConfigReq {
                    message_id: id,
                    xmlns: String::from_str(XMLNS),
                    copy_config: CopyConfig {
                        target: Target { target },
                        source: CopyConfigSourceType::Config {
                            config: Data { xmlns_xc: config.xmlns_xc, data: String::from_str(" ") },
                        },
                    },
                };
                let envelope = req.to_xml();
                proof {
                    reveal_strlit(" </config>");
                    reveal_strlit(" ");
                    reveal_strlit("</");
                    reveal_strlit("<");
                    reveal_strlit("config");
                    reveal_strlit("source");
                    reveal_strlit(">");
                    reveal_strlit("copy-config");
                    assert(" </config>"@ =~= placeholder_close("config"@));
                    assert(no_space("config"@));
                    assert(no_space("copy-config"@));
                    lemma_escape_space();
                    let attrs = match xc {
                        Some(x) => attribute("xmlns:xc"@, x),
                        None => seq![],
                    };
                    let e = element("config"@, attrs, " "@);
                    assert(data_xml((xc, " "@)) == e);
                    let head = "<"@ + "source"@ + seq![] + ">"@;
                    let tl = "</"@ + "source"@ + ">"@;
                    assert(copy_source_xml(CopySourceView::Config((xc, " "@))) =~= head + e + tl);
                    assert(no_space(tl));
                    let before = target_xml("target"@, Target { target });
                    lemma_rpc_placeholder(
                        id,
                        "copy-config"@,
                        before,
                        head,
                        "config"@,
                        attrs,
                        tl,
                        config.data@,
                    );
                }
                match splice_raw(envelope.as_str(), " </config>", config.data.as_str()) {
                    Some(mut r) => {
                        r.append(END_OF_MESSAGE);
                        r
                    },
                    // The placeholder was encoded above, so the splice finds it.
                    None => {
                        proof {
                            assert(false);
                        }
                        String::new()
                    },
                }
            },
        }
    }

    /// Takes the server's hello: on success the session is established with
    /// the id that the server assigned; remote errors leave it as it was.
    pub fn finish_hello(&mut self, rsp: HelloServer) -> (r: Result<HelloServer, NetconfClientError>)
        ensures
            final(self)@.message_id == old(self)@.message_id,
            rsp.rpc_error is None ==> final(self)@.session_id == Some(rsp.session_id) && r == Ok::<
                HelloServer,
                NetconfClientError,
            >(rsp),
            rsp.rpc_error matches Some(errs) ==> final(self)@.session_id == old(
                self,
            )@.session_id && failed_with(r, errs@),
    {
        if rsp.is_ok() {
            self.session_id = Some(rsp.session_id);
        }
        make_return(rsp)
    }

    /// Takes the reply to `kill-session` for `killed`: the session id is
    /// dropped only when the reply confirms and `killed` was this session.
    pub fn finish_kill_session(&mut self, killed: u32, rsp: KillSessionRsp) -> (r: Result<
        KillSessionRsp,
        NetconfClientError,
    >)
        ensures
            final(self)@.message_id == old(self)@.message_id,
            final(self)@.session_id == if succeeded(&rsp) && old(self)@.session_id == Some(killed) {
                None
            } else {
                old(self)@.session_id
            },
            succeeded(&rsp) ==> r == Ok::<KillSessionRsp, NetconfClientError>(rsp),
            rsp.error_list() matches Some(errs) ==> failed_with(r, errs),
            rsp.error_list() is None && !rsp.has_ok_marker() ==> r matches Err(
                NetconfClientError::DecodeError { .. },
            ),
    {
        if rsp.is_ok() {
            if self.session_id == Some(killed) {
                self.session_id = None;
            }
        }
        make_return(rsp)
    }

    /// Takes the reply to `close-session`: the session id is dropped only
    /// when the reply confirms.
    pub fn finish_close_session(&mut self, rsp: CloseSessionRsp) -> (r: Result<
        CloseSessionRsp,
        NetconfClientError,
    >)
        ensures
            final(self)@.message_id == old(self)@.message_id,
            final(self)@.session_id == if succeeded(&rsp) {
                None
            } else {
                old(self)@.session_id
            },
            succeeded(&rsp) ==> r == Ok::<CloseSessionRsp, NetconfClientError>(rsp),
            rsp.error_list() matches Some(errs) ==> failed_with(r, errs),
            rsp.error_list() is None && !rsp.has_ok_marker() ==> r matches Err(
                NetconfClientError::DecodeError { .. },
            ),
    {
        if rsp.is_ok() {
            self.session_id = None;
        }
        make_return(rsp)
    }
}

/// Within a `get` or `get-config` envelope, the filter placeholder can always
/// be spliced into.
proof fn lemma_filter_placeholder(
    id: u32,
    op: Seq<char>,
    before: Seq<char>,
    kind: FilterType,
    body: Seq<char>,
)
    requires
        no_space(op),
    ensures
        spliced(
            rpc_xml(id, XMLNS@, element(op, seq![], before + opt_filter_xml(Some((kind, " "@))))),
            placeholder_close("filter"@),
            body,
        ) is Some,
        " </filter>"@ == placeholder_close("filter"@),
{
    reveal_strlit(" </filter>");
    reveal_strlit(" ");
    reveal_strlit("</");
    reveal_strlit("filter");
    reveal_strlit(">");
    assert(no_space("filter"@));
    assert(" </filter>"@ =~= placeholder_close("filter"@));
    lemma_escape_space();
    let attrs = attribute("type"@, filter_type_name(kind));
    let e = element("filter"@, attrs, " "@);
    assert(opt_filter_xml(Some((kind, " "@))) == e);
    assert(before + e =~= before + (seq![] + e + seq![]));
    assert(no_space(seq![]));
    lemma_rpc_placeholder(id, op, before, seq![], "filter"@, attrs, seq![], body);
}

/// Message ids are consecutive: each request carries the counter of the
/// state it is built in, and each request sent advances the counter by one
/// (replies, whatever they say, leave it alone). So when the states at the
/// start of successive requests are each reached from the one before by
/// sending its request, the ids sent are `k`, `k + 1`, ... with `k` the
/// counter at the start.
pub proof fn lemma_message_ids_consecutive(states: Seq<SessionState>, sent: Seq<u32>)
    requires
        states.len() == sent.len() + 1,
        forall|i: int|
            0 <= i < sent.len() ==> (#[trigger] states[i + 1]).message_id == advanced(
                states[i],
            ).message_id && sent[i] == states[i].message_id,
        forall|i: int| 0 <= i < sent.len() ==> (#[trigger] states[i]).message_id < u32::MAX,
    ensures
        forall|i: int| 0 <= i < sent.len() ==> sent[i] == states[0].message_id + i,
    decreases sent.len(),
{
    if sent.len() > 0 {
        let s2 = states.drop_last();
        let t2 = sent.drop_last();
        assert forall|i: int| 0 <= i < t2.len() implies (#[trigger] s2[i + 1]).message_id
            == advanced(s2[i]).message_id && t2[i] == s2[i].message_id by {
            assert(s2[i + 1] == states[i + 1]);
            assert(s2[i] == states[i]);
        }
        assert forall|i: int| 0 <= i < t2.len() implies (#[trigger] s2[i]).message_id
            < u32::MAX by {
            assert(s2[i] == states[i]);
        }
        lemma_message_ids_consecutive(s2, t2);
        let n = sent.len() - 1;
        assert(states[n + 1].message_id == advanced(states[n]).message_id);
        assert forall|i: int| 0 <= i < sent.len() implies sent[i] == states[0].message_id + i by {
            if i < n {
                assert(t2[i] == sent[i]);
            } else if n > 0 {
                assert(t2[n - 1] == sent[n - 1]);
                assert(states[n - 1 + 1].message_id == advanced(states[n - 1]).message_id);
                assert(states[n - 1].message_id < u32::MAX);
            }
        }
    }
}

} // verus!
