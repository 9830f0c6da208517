use netconf_client::codec::{request_message_id, splice_raw, XMLNS};
use netconf_client::errors::NetconfClientError;
use netconf_client::models::replies::{
    CapabilitiesServer, CloseSessionRsp, CommitRsp, EditConfigRsp, ErrorSeverity, ErrorSeverityE,
    ErrorTag, ErrorTagE, ErrorType, ErrorTypeE, GetConfigRsp, HelloServer, KillSessionRsp,
    LockRsp, RpcError, UnlockRsp, DiscardChangesRsp,
};
use netconf_client::models::requests::{
    CopyConfigSourceType, Data, DatastoreType, DefaultOperationType, ErrorOptionType, Filter,
    FilterType, LockReq, Lock, Target, TestOptionType,
};
use netconf_client::reply::{finish_get_config, make_return};
use netconf_client::request_reader::{
    read_request, read_request_config_xc, read_request_filter, read_request_xmlns, Operation,
};
use netconf_client::session::Session;

const HEAD: &str = "<rpc message-id=\"1\" xmlns=\"urn:ietf:params:xml:ns:netconf:base:1.0\">";

fn ok_reply<T>(make: fn(String, u32, Option<()>, Option<Vec<RpcError>>) -> T, id: u32) -> T {
    make(XMLNS.to_string(), id, Some(()), None)
}

fn lock_rsp(x: String, m: u32, ok: Option<()>, e: Option<Vec<RpcError>>) -> LockRsp {
    LockRsp { xmlns: x, message_id: m, ok, rpc_error: e }
}

fn unlock_rsp(x: String, m: u32, ok: Option<()>, e: Option<Vec<RpcError>>) -> UnlockRsp {
    UnlockRsp { xmlns: x, message_id: m, ok, rpc_error: e }
}

fn lock_denied() -> RpcError {
    RpcError {
        error_type: ErrorType { value: ErrorTypeE::Protocol },
        error_tag: ErrorTag { value: ErrorTagE::LockDenied },
        error_severity: ErrorSeverity { value: ErrorSeverityE::Error },
        error_app_tag: None,
        error_path: None,
        error_message: Some("Lock failed, lock is already held".to_string()),
        error_info: None,
    }
}

fn established(id: u32) -> Session {
    let mut s = Session::new();
    let hello = HelloServer {
        xmlns: XMLNS.to_string(),
        capabilities: CapabilitiesServer { capabilities: vec![] },
        session_id: id,
        rpc_error: None,
    };
    s.finish_hello(hello).unwrap();
    s
}

fn users_filter() -> Option<Filter> {
    Some(Filter {
        filter_type: FilterType::Subtree,
        data: r#"<users xmlns="ns:yang:test"></users>"#.to_string(),
    })
}

#[test]
fn new_session_state() {
    let s = Session::new();
    assert_eq!(s.get_message_id(), 1);
    assert_eq!(s.get_session_id(), None);
}

#[test]
fn hello_message_text() {
    let s = Session::new();
    assert_eq!(
        s.hello_message(),
        "<hello xmlns=\"urn:ietf:params:xml:ns:netconf:base:1.0\"><capabilities><capability>urn:ietf:params:netconf:base:1.0</capability></capabilities></hello>]]>]]>"
    );
    assert_eq!(s.get_message_id(), 1);
}

#[test]
fn message_ids_are_consecutive_whatever_the_outcome() {
    let mut s = Session::new();
    let first = s.lock_request(DatastoreType::Running);
    s.request_sent();
    let failed = make_return(lock_rsp(XMLNS.to_string(), 1, None, Some(vec![lock_denied()])));
    assert!(failed.is_err());
    let second = s.unlock_request(DatastoreType::Running);
    s.request_sent();
    let third = s.commit_request();
    s.request_sent();
    let fourth = s.get_config_request(DatastoreType::Running, users_filter());
    s.request_sent();
    let ids: Vec<Option<u32>> =
        [&first, &second, &third, &fourth].iter().map(|w| request_message_id(w)).collect();
    assert_eq!(ids, vec![Some(1), Some(2), Some(3), Some(4)]);
    assert_eq!(s.get_message_id(), 5);
}

#[test]
fn unsent_request_uses_no_id() {
    let mut s = Session::new();
    let unsent = s.lock_request(DatastoreType::Running);
    assert_eq!(s.get_message_id(), 1);
    let retried = s.lock_request(DatastoreType::Running);
    assert_eq!(unsent, retried);
    s.request_sent();
    assert_eq!(request_message_id(&s.commit_request()), Some(2));
}

#[test]
fn message_id_reader_rejects_other_text() {
    assert_eq!(request_message_id("<hello/>"), None);
    assert_eq!(request_message_id("<rpc message-id=\"\">"), None);
    assert_eq!(request_message_id("<rpc message-id=\"12"), None);
    assert_eq!(request_message_id("<rpc message-id=\"4294967296\">"), None);
    assert_eq!(request_message_id("<rpc message-id=\"4294967295\">"), Some(4294967295));
}

#[test]
fn largest_message_id_round_trips() {
    let req = LockReq {
        message_id: u32::MAX,
        xmlns: XMLNS.to_string(),
        lock: Lock { target: Target { target: DatastoreType::Candidate } },
    };
    assert_eq!(request_message_id(&req.to_xml()), Some(u32::MAX));
}

#[test]
fn xmlns_is_escaped() {
    let req = LockReq {
        message_id: 0,
        xmlns: "a&b\"<c>'".to_string(),
        lock: Lock { target: Target { target: DatastoreType::Running } },
    };
    assert_eq!(
        req.to_xml(),
        "<rpc message-id=\"0\" xmlns=\"a&amp;b&quot;&lt;c&gt;&apos;\"><lock><target><running/></target></lock></rpc>"
    );
}

#[test]
fn edit_config_message_splices_raw_config() {
    let mut s = Session::new();
    let wire = s.edit_config_request(
        DatastoreType::Candidate,
        r#"<users xmlns="ns:yang:test"><name>Alice</name></users>"#,
        None,
        None,
        None,
    );
    let expected = HEAD.to_string()
        + "<edit-config><target><candidate/></target><config xmlns:xc=\"urn:ietf:params:xml:ns:netconf:base:1.0\">"
        + r#"<users xmlns="ns:yang:test"><name>Alice</name></users>"#
        + " </config></edit-config></rpc>]]>]]>";
    assert_eq!(wire, expected);
}

#[test]
fn edit_config_message_with_directives() {
    let mut s = Session::new();
    let wire = s.edit_config_request(
        DatastoreType::Running,
        "<x/>",
        Some(DefaultOperationType::NoOperation),
        Some(TestOptionType::SetOnly),
        Some(ErrorOptionType::RollbackOnError),
    );
    let expected = HEAD.to_string()
        + "<edit-config><target><running/></target><default-operation>none</default-operation>"
        + "<test-option>set</test-option><error-option>rollback-on-error</error-option>"
        + "<config xmlns:xc=\"urn:ietf:params:xml:ns:netconf:base:1.0\"><x/> </config></edit-config></rpc>]]>]]>";
    assert_eq!(wire, expected);
}

#[test]
fn splice_differs_only_by_fragment() {
    let unspliced = "<rpc><get><filter type=\"subtree\"> </filter></get></rpc>";
    let spliced = splice_raw(unspliced, " </filter>", "<a>b</a>").unwrap();
    assert_eq!(spliced, "<rpc><get><filter type=\"subtree\"><a>b</a> </filter></get></rpc>");
    let at = unspliced.find(" </filter>").unwrap();
    assert_eq!(&spliced[..at], &unspliced[..at]);
    assert_eq!(&spliced[at + 8..], &unspliced[at..]);
}

#[test]
fn splice_without_placeholder_fails() {
    assert_eq!(splice_raw("<rpc><get/></rpc>", " </filter>", "<a/>"), None);
}

#[test]
fn splice_uses_last_placeholder() {
    assert_eq!(splice_raw("a </f> b </f>", " </f>", "X"), Some("a </f> bX </f>".to_string()));
}

#[test]
fn get_message_without_filter() {
    let mut s = Session::new();
    assert_eq!(s.get_request(None), HEAD.to_string() + "<get/></rpc>]]>]]>");
}

#[test]
fn get_config_message_with_filter() {
    let mut s = Session::new();
    let expected = HEAD.to_string()
        + "<get-config><source><running/></source><filter type=\"subtree\">"
        + r#"<users xmlns="ns:yang:test"></users>"#
        + " </filter></get-config></rpc>]]>]]>";
    assert_eq!(s.get_config_request(DatastoreType::Running, users_filter()), expected);
}

#[test]
fn copy_config_message_inline_config() {
    let mut s = Session::new();
    let source = CopyConfigSourceType::Config {
        config: Data { xmlns_xc: None, data: "<users/>".to_string() },
    };
    let expected = HEAD.to_string()
        + "<copy-config><target><startup/></target><source><config><users/> </config></source></copy-config></rpc>]]>]]>";
    assert_eq!(s.copy_config_request(DatastoreType::Startup, source), expected);
}

#[test]
fn copy_config_message_datastore() {
    let mut s = Session::new();
    let source = CopyConfigSourceType::Datastore { source: DatastoreType::Running };
    let expected = HEAD.to_string()
        + "<copy-config><target><startup/></target><source><running/></source></copy-config></rpc>]]>]]>";
    assert_eq!(s.copy_config_request(DatastoreType::Startup, source), expected);
}

#[test]
fn kill_session_message() {
    let mut s = Session::new();
    assert_eq!(
        s.kill_session_request(4294967295),
        HEAD.to_string() + "<kill-session><session-id>4294967295</session-id></kill-session></rpc>]]>]]>"
    );
}

#[test]
fn hello_establishes_session() {
    let s = established(4);
    assert_eq!(s.get_session_id(), Some(4));
}

#[test]
fn hello_with_errors_does_not_establish() {
    let mut s = Session::new();
    let hello = HelloServer {
        xmlns: XMLNS.to_string(),
        capabilities: CapabilitiesServer { capabilities: vec![] },
        session_id: 4,
        rpc_error: Some(vec![lock_denied()]),
    };
    assert!(s.finish_hello(hello).is_err());
    assert_eq!(s.get_session_id(), None);
}

#[test]
fn close_session_clears_only_on_success() {
    let mut s = established(4);
    let failed = CloseSessionRsp { xmlns: XMLNS.to_string(), message_id: 1, ok: None, rpc_error: Some(vec![lock_denied()]) };
    assert!(s.finish_close_session(failed).is_err());
    assert_eq!(s.get_session_id(), Some(4));
    let ok = CloseSessionRsp { xmlns: XMLNS.to_string(), message_id: 2, ok: Some(()), rpc_error: None };
    assert!(s.finish_close_session(ok).is_ok());
    assert_eq!(s.get_session_id(), None);
}

#[test]
fn kill_other_session_keeps_own() {
    let mut s = established(4);
    let ok = KillSessionRsp { xmlns: XMLNS.to_string(), message_id: 1, ok: Some(()), rpc_error: None };
    assert!(s.finish_kill_session(5, ok).is_ok());
    assert_eq!(s.get_session_id(), Some(4));
    let ok = KillSessionRsp { xmlns: XMLNS.to_string(), message_id: 2, ok: Some(()), rpc_error: None };
    assert!(s.finish_kill_session(4, ok).is_ok());
    assert_eq!(s.get_session_id(), None);
}

#[test]
fn lock_contention_scenario() {
    let mut a = established(1);
    let mut b = established(2);
    let _ = a.lock_request(DatastoreType::Running);
    a.request_sent();
    assert!(make_return(ok_reply(lock_rsp, 1)).is_ok());
    let _ = b.lock_request(DatastoreType::Running);
    b.request_sent();
    let denied = lock_rsp(XMLNS.to_string(), 1, None, Some(vec![lock_denied()]));
    for result in [
        make_return(denied).map(|_| ()),
        make_return(unlock_rsp(XMLNS.to_string(), 2, None, Some(vec![lock_denied()]))).map(|_| ()),
    ] {
        match result {
            Err(NetconfClientError::NetconfError { err }) => {
                assert_eq!(err.len(), 1);
                assert_eq!(err[0].error_type.value, ErrorTypeE::Protocol);
                assert_eq!(err[0].error_tag.value, ErrorTagE::LockDenied);
                assert_eq!(err[0].error_severity.value, ErrorSeverityE::Error);
            }
            other => panic!("Wrong error type {:#?}", other),
        }
    }
    let _ = a.unlock_request(DatastoreType::Running);
    a.request_sent();
    assert!(make_return(ok_reply(unlock_rsp, 2)).is_ok());
}

fn edit_rsp(x: String, m: u32, ok: Option<()>, e: Option<Vec<RpcError>>) -> EditConfigRsp {
    EditConfigRsp { xmlns: x, message_id: m, ok, rpc_error: e }
}

fn commit_rsp(x: String, m: u32, ok: Option<()>, e: Option<Vec<RpcError>>) -> CommitRsp {
    CommitRsp { xmlns: x, message_id: m, ok, rpc_error: e }
}

fn discard_rsp(x: String, m: u32, ok: Option<()>, e: Option<Vec<RpcError>>) -> DiscardChangesRsp {
    DiscardChangesRsp { xmlns: x, message_id: m, ok, rpc_error: e }
}

fn get_config_rsp(id: u32) -> GetConfigRsp {
    GetConfigRsp { xmlns: XMLNS.to_string(), message_id: id, rpc_error: None, data: None }
}

#[test]
fn candidate_commit_scenario() {
    let mut s = established(3);
    let edit = s.edit_config_request(
        DatastoreType::Candidate,
        r#"<users xmlns="ns:yang:test"><name>Alice</name></users>"#,
        None,
        None,
        None,
    );
    assert!(edit.contains(r#"<target><candidate/></target>"#));
    s.request_sent();
    assert!(make_return(ok_reply(edit_rsp, 1)).is_ok());
    assert_eq!(s.commit_request(), "<rpc message-id=\"2\" xmlns=\"urn:ietf:params:xml:ns:netconf:base:1.0\"><commit/></rpc>]]>]]>");
    s.request_sent();
    assert!(make_return(ok_reply(commit_rsp, 2)).is_ok());
    let get = s.get_config_request(DatastoreType::Running, users_filter());
    assert_eq!(request_message_id(&get), Some(3));
    let reply = b"<rpc-reply message-id=\"3\" xmlns=\"urn:ietf:params:xml:ns:netconf:base:1.0\"><data><users xmlns=\"ns:yang:test\"><name>Alice</name></users></data></rpc-reply>]]>]]>";
    let rsp = finish_get_config(get_config_rsp(3), reply).unwrap();
    assert_eq!(
        rsp.data,
        Some("<users xmlns=\"ns:yang:test\"><name>Alice</name></users>".to_string())
    );
}

#[test]
fn discard_scenario() {
    let mut s = established(3);
    let _ = s.edit_config_request(
        DatastoreType::Candidate,
        r#"<users xmlns="ns:yang:test"><name>Lily</name></users>"#,
        None,
        None,
        None,
    );
    s.request_sent();
    assert!(make_return(ok_reply(edit_rsp, 1)).is_ok());
    assert_eq!(s.discard_changes_request(), "<rpc message-id=\"2\" xmlns=\"urn:ietf:params:xml:ns:netconf:base:1.0\"><discard-changes/></rpc>]]>]]>");
    s.request_sent();
    assert!(make_return(ok_reply(discard_rsp, 2)).is_ok());
    let _ = s.get_config_request(DatastoreType::Running, users_filter());
    let reply = b"<rpc-reply message-id=\"3\" xmlns=\"urn:ietf:params:xml:ns:netconf:base:1.0\"><data/></rpc-reply>]]>]]>";
    let rsp = finish_get_config(get_config_rsp(3), reply).unwrap();
    assert_eq!(rsp.data, Some("".to_string()));
}

#[test]
fn requests_read_back() {
    let cases: Vec<(fn(&Session) -> String, Operation)> = vec![
        (|s| s.lock_request(DatastoreType::Running), Operation::Lock(DatastoreType::Running)),
        (|s| s.unlock_request(DatastoreType::Candidate), Operation::Unlock(DatastoreType::Candidate)),
        (
            |s| s.delete_config_request(DatastoreType::Startup),
            Operation::DeleteConfig(DatastoreType::Startup),
        ),
        (|s| s.commit_request(), Operation::Commit),
        (|s| s.discard_changes_request(), Operation::DiscardChanges),
        (|s| s.close_session_request(), Operation::CloseSession),
        (|s| s.kill_session_request(9), Operation::KillSession(9)),
        (|s| s.get_request(users_filter()), Operation::Get),
        (|s| s.get_request(None), Operation::Get),
        (
            |s| s.get_config_request(DatastoreType::Startup, users_filter()),
            Operation::GetConfig(DatastoreType::Startup),
        ),
        (
            |s| s.edit_config_request(DatastoreType::Candidate, "<a/>", None, Some(TestOptionType::TestOnly), None),
            Operation::EditConfig(DatastoreType::Candidate, None, Some(TestOptionType::TestOnly), None),
        ),
        (
            |s| {
                s.edit_config_request(
                    DatastoreType::Running,
                    "<a/>",
                    Some(DefaultOperationType::Replace),
                    Some(TestOptionType::SetOnly),
                    Some(ErrorOptionType::ContinueOnError),
                )
            },
            Operation::EditConfig(
                DatastoreType::Running,
                Some(DefaultOperationType::Replace),
                Some(TestOptionType::SetOnly),
                Some(ErrorOptionType::ContinueOnError),
            ),
        ),
        (
            |s| s.edit_config_request(DatastoreType::Startup, "<a/>", None, None, Some(ErrorOptionType::StopOnError)),
            Operation::EditConfig(DatastoreType::Startup, None, None, Some(ErrorOptionType::StopOnError)),
        ),
        (
            |s| {
                s.copy_config_request(
                    DatastoreType::Running,
                    CopyConfigSourceType::Datastore { source: DatastoreType::Startup },
                )
            },
            Operation::CopyConfig(DatastoreType::Running, Some(DatastoreType::Startup)),
        ),
        (
            |s| {
                s.copy_config_request(
                    DatastoreType::Startup,
                    CopyConfigSourceType::Config {
                        config: Data { xmlns_xc: Some(XMLNS.to_string()), data: "<users/>".to_string() },
                    },
                )
            },
            Operation::CopyConfig(DatastoreType::Startup, None),
        ),
    ];
    let mut s = Session::new();
    for (i, (build, op)) in cases.into_iter().enumerate() {
        let wire = build(&s);
        assert_eq!(read_request(&wire), Some((i as u32 + 1, op)));
        s.request_sent();
    }
}

#[test]
fn reader_rejects_unknown_operation() {
    assert_eq!(read_request("<rpc message-id=\"3\" xmlns=\"x\"><reboot/></rpc>"), None);
    assert_eq!(read_request("<rpc message-id=\"3\" xmlns=\"x\"><lock><target><disk/></target></lock></rpc>"), None);
}

#[test]
fn namespace_reads_back() {
    let s = Session::new();
    assert_eq!(read_request_xmlns(&s.commit_request()), Some(XMLNS.to_string()));
    let odd = LockReq {
        message_id: 7,
        xmlns: "a&b\"<c>'".to_string(),
        lock: Lock { target: Target { target: DatastoreType::Running } },
    };
    assert_eq!(read_request_xmlns(&odd.to_xml()), Some("a&b\"<c>'".to_string()));
    let bare = LockReq {
        message_id: 7,
        xmlns: String::new(),
        lock: Lock { target: Target { target: DatastoreType::Running } },
    };
    assert_eq!(bare.to_xml(), "<rpc message-id=\"7\"><lock><target><running/></target></lock></rpc>");
    assert_eq!(read_request_xmlns(&bare.to_xml()), Some(String::new()));
    assert_eq!(read_request_xmlns("<rpc message-id=\"7\" xmlns=\"unterminated"), None);
}

#[test]
fn filter_reads_back() {
    let s = Session::new();
    assert_eq!(read_request_filter(&s.get_request(users_filter())), Some(FilterType::Subtree));
    assert_eq!(read_request_filter(&s.get_request(None)), None);
    assert_eq!(
        read_request_filter(&s.get_config_request(DatastoreType::Candidate, users_filter())),
        Some(FilterType::Subtree)
    );
    assert_eq!(read_request_filter(&s.get_config_request(DatastoreType::Running, None)), None);
    assert_eq!(read_request_filter(&s.commit_request()), None);
}

#[test]
fn config_namespace_reads_back() {
    let s = Session::new();
    let edit = s.edit_config_request(
        DatastoreType::Running,
        "<x/>",
        Some(DefaultOperationType::Merge),
        None,
        Some(ErrorOptionType::StopOnError),
    );
    assert_eq!(read_request_config_xc(&edit), Some(Some(XMLNS.to_string())));
    let inline = s.copy_config_request(
        DatastoreType::Startup,
        CopyConfigSourceType::Config {
            config: Data { xmlns_xc: Some("urn:a&b".to_string()), data: "<x/>".to_string() },
        },
    );
    assert_eq!(read_request_config_xc(&inline), Some(Some("urn:a&b".to_string())));
    let bare = s.copy_config_request(
        DatastoreType::Startup,
        CopyConfigSourceType::Config { config: Data { xmlns_xc: None, data: "<x/>".to_string() } },
    );
    assert_eq!(read_request_config_xc(&bare), Some(None));
    let datastore = s.copy_config_request(
        DatastoreType::Startup,
        CopyConfigSourceType::Datastore { source: DatastoreType::Running },
    );
    assert_eq!(read_request_config_xc(&datastore), None);
    assert_eq!(read_request_config_xc(&s.commit_request()), None);
}

#[test]
fn spliced_fragment_is_verbatim_even_with_closing_tag() {
    let s = Session::new();
    let data = "<a x=\"&amp;\"> </config></a>";
    let wire = s.edit_config_request(DatastoreType::Running, data, None, None, None);
    let expected = HEAD.to_string()
        + "<edit-config><target><running/></target><config xmlns:xc=\"urn:ietf:params:xml:ns:netconf:base:1.0\">"
        + data
        + " </config></edit-config></rpc>]]>]]>";
    assert_eq!(wire, expected);
}
