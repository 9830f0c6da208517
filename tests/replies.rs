use netconf_client::errors::{stream_exhausted, NetconfClientError};
use netconf_client::models::replies::{
    CapabilitiesServer, CommitRsp, ErrorInfo, ErrorSeverity, ErrorSeverityE, ErrorTag, ErrorTagE,
    ErrorType, ErrorTypeE, GetConfigRsp, GetRsp, HelloServer, LockRsp, RpcError, RpcRsp,
};
use netconf_client::reply::{finish_get, finish_get_config, get_data, make_return};

const NS: &str = "urn:ietf:params:xml:ns:netconf:base:1.0";

fn rpc_error(t: ErrorTypeE, tag: ErrorTagE, severity: ErrorSeverityE) -> RpcError {
    RpcError {
        error_type: ErrorType { value: t },
        error_tag: ErrorTag { value: tag },
        error_severity: ErrorSeverity { value: severity },
        error_app_tag: None,
        error_path: None,
        error_message: None,
        error_info: None,
    }
}

fn lock_rsp(ok: bool, errors: Option<Vec<RpcError>>) -> LockRsp {
    LockRsp {
        xmlns: NS.to_string(),
        message_id: 101,
        ok: if ok { Some(()) } else { None },
        rpc_error: errors,
    }
}

fn data_rsp(errors: Option<Vec<RpcError>>) -> GetConfigRsp {
    GetConfigRsp { xmlns: NS.to_string(), message_id: 7, rpc_error: errors, data: None }
}

#[test]
fn ok_reply_is_success() {
    let reply = lock_rsp(true, None);
    assert!(reply.is_ok());
    assert_eq!(reply.get_message_id(), Some(101));
    assert!(reply.get_error().is_none());
    assert_eq!(make_return(reply).unwrap(), lock_rsp(true, None));
}

#[test]
fn any_error_list_is_failure_with_that_list() {
    let mut warning = rpc_error(ErrorTypeE::Application, ErrorTagE::InUse, ErrorSeverityE::Warning);
    warning.error_message = Some("still in use".to_string());
    warning.error_path = Some("/users".to_string());
    let mut second = rpc_error(ErrorTypeE::Rpc, ErrorTagE::MissingAttribute, ErrorSeverityE::Error);
    second.error_app_tag = Some("app".to_string());
    second.error_info = Some(ErrorInfo {
        session_id: Some(3),
        bad_attribute: Some("message-id".to_string()),
        bad_element: Some("rpc".to_string()),
    });
    let errors = vec![warning, second];
    let reply = lock_rsp(true, Some(errors.clone()));
    assert!(!reply.is_ok());
    assert_eq!(reply.get_error(), Some(&errors));
    match make_return(reply) {
        Err(NetconfClientError::NetconfError { err }) => assert_eq!(err, errors),
        other => panic!("unexpected {:?}", other),
    }
}

#[test]
fn reply_without_outcome_is_decode_error() {
    match make_return(lock_rsp(false, None)) {
        Err(NetconfClientError::DecodeError { .. }) => {}
        other => panic!("unexpected {:?}", other),
    }
}

#[test]
fn stream_exhausted_error() {
    match stream_exhausted() {
        NetconfClientError::SSHClientError { err } => {
            assert_eq!(err, "Buffer is empty, SSH channel read terminated")
        }
        other => panic!("unexpected {:?}", other),
    }
}

#[test]
fn hello_has_no_message_id() {
    let hello = HelloServer {
        xmlns: NS.to_string(),
        capabilities: CapabilitiesServer { capabilities: vec!["urn:ietf:params:netconf:base:1.1".to_string()] },
        session_id: 4,
        rpc_error: None,
    };
    assert!(hello.is_ok());
    assert_eq!(hello.get_message_id(), None);
}

#[test]
fn commit_reply_message_id() {
    let reply = CommitRsp { xmlns: NS.to_string(), message_id: 9, ok: Some(()), rpc_error: None };
    assert_eq!(reply.get_message_id(), Some(9));
    assert!(reply.is_ok());
}

#[test]
fn data_payload_exact() {
    let text = b"<rpc-reply message-id=\"101\"><data><users xmlns=\"ns:yang:test\"><name>Harry</name></users></data></rpc-reply>]]>]]>";
    assert_eq!(
        get_data(text),
        Some(b"<users xmlns=\"ns:yang:test\"><name>Harry</name></users>".to_vec())
    );
}

#[test]
fn data_payload_with_attributes() {
    let text = b"<rpc-reply><data xmlns=\"urn:x\"> <a/> </data></rpc-reply>";
    assert_eq!(get_data(text), Some(b" <a/> ".to_vec()));
}

#[test]
fn data_payload_empty_element() {
    assert_eq!(get_data(b"<rpc-reply><data></data></rpc-reply>"), Some(Vec::new()));
}

#[test]
fn data_payload_self_closed_is_empty() {
    assert_eq!(get_data(b"<rpc-reply><data/></rpc-reply>"), Some(Vec::new()));
    assert_eq!(get_data(b"<rpc-reply><data xmlns=\"urn:x\"/></rpc-reply>"), Some(Vec::new()));
}

#[test]
fn data_payload_missing() {
    assert_eq!(get_data(b"<rpc-reply><ok/></rpc-reply>"), None);
}

#[test]
fn data_payload_crossed_bounds() {
    assert_eq!(get_data(b"</data><data>x"), None);
}

#[test]
fn get_config_self_closed_data_is_empty_text() {
    let r = finish_get_config(data_rsp(None), b"<rpc-reply message-id=\"7\"><data/></rpc-reply>]]>]]>");
    assert_eq!(r.unwrap().data, Some("".to_string()));
}

#[test]
fn get_config_payload_text() {
    let r = finish_get_config(
        data_rsp(None),
        "<rpc-reply><data><name>Zoë</name></data></rpc-reply>".as_bytes(),
    )
    .unwrap();
    assert_eq!(r.data, Some("<name>Zoë</name>".to_string()));
    assert_eq!(r.message_id, 7);
}

#[test]
fn get_config_errors_fail() {
    let errors = vec![rpc_error(ErrorTypeE::Protocol, ErrorTagE::AccessDenied, ErrorSeverityE::Error)];
    match finish_get_config(data_rsp(Some(errors.clone())), b"<rpc-reply><data/></rpc-reply>") {
        Err(NetconfClientError::NetconfError { err }) => assert_eq!(err, errors),
        other => panic!("unexpected {:?}", other),
    }
}

#[test]
fn get_self_closed_data_is_empty_text() {
    let rsp = GetRsp { xmlns: NS.to_string(), message_id: 3, rpc_error: None, data: None };
    let r = finish_get(rsp, b"<rpc-reply><data/></rpc-reply>").unwrap();
    assert_eq!(r.data, Some("".to_string()));
}

#[test]
fn get_without_data_has_none() {
    let rsp = GetRsp { xmlns: NS.to_string(), message_id: 3, rpc_error: None, data: None };
    let r = finish_get(rsp, b"<rpc-reply><ok/></rpc-reply>").unwrap();
    assert_eq!(r.data, None);
}

#[test]
fn get_with_data() {
    let rsp = GetRsp { xmlns: NS.to_string(), message_id: 3, rpc_error: None, data: None };
    let r = finish_get(rsp, b"<rpc-reply><data><top/></data></rpc-reply>").unwrap();
    assert_eq!(r.data, Some("<top/>".to_string()));
}
