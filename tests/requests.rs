use netconf_client::codec::XMLNS;
use netconf_client::models::requests::{
    Capability, CapabilitiesClient, CloseSessionReq, CommitReq, CopyConfig, CopyConfigReq,
    CopyConfigSourceType, Data, DatastoreType, DefaultOperation, DefaultOperationType,
    DeleteConfig, DeleteConfigReq, DiscardChangesReq, EditConfig, EditConfigReq, ErrorOption,
    ErrorOptionType, Filter, FilterType, Get, GetConfig, GetConfigReq, GetReq, HelloClient,
    KillSession, KillSessionReq, Lock, LockReq, SessionId, Target, TestOption, TestOptionType,
    Unlock, UnlockReq,
};

#[test]
fn lock_req() {
    let model = LockReq {
        xmlns: XMLNS.to_string(),
        message_id: 101,
        lock: Lock {
            target: Target {
                target: DatastoreType::Running,
            },
        },
    };
    let req = model.to_xml();
    let expected_req = r#"
<rpc message-id="101" xmlns="urn:ietf:params:xml:ns:netconf:base:1.0">
<lock>
<target>
<running/>
</target>
</lock>
</rpc>
"#
    .replace("\n", "");
    assert_eq!(req, expected_req);
}

#[test]
fn edit_config_req() {
    let model = EditConfigReq {
        xmlns: XMLNS.to_string(),
        message_id: 101,
        edit_config: EditConfig {
            target: Target {
                target: DatastoreType::Running,
            },
            default_operation: Some(DefaultOperation {
                value: DefaultOperationType::Merge,
            }),
            test_option: Some(TestOption {
                value: TestOptionType::TestThenSet,
            }),
            error_option: Some(ErrorOption {
                value: ErrorOptionType::StopOnError,
            }),
            config: Data {
                xmlns_xc: Some("urn:ietf:params:xml:ns:netconf:base:1.0".to_string()),
                data: " ".to_string(),
            },
        },
    };
    let req = model.to_xml();
    let expected_req = r#"
<rpc message-id="101" xmlns="urn:ietf:params:xml:ns:netconf:base:1.0">
<edit-config>
<target>
<running/>
</target>
<default-operation>merge</default-operation>
<test-option>test-then-set</test-option>
<error-option>stop-on-error</error-option>
<config xmlns:xc="urn:ietf:params:xml:ns:netconf:base:1.0"> </config>
</edit-config>
</rpc>
"#
    .replace("\n", "");
    assert_eq!(req, expected_req);
}

#[test]
fn delete_config_req() {
    let model = DeleteConfigReq {
        xmlns: XMLNS.to_string(),
        message_id: 101,
        delete_config: DeleteConfig {
            target: Target {
                target: DatastoreType::Startup,
            },
        },
    };
    let req = model.to_xml();
    let expected_req = r#"
<rpc message-id="101" xmlns="urn:ietf:params:xml:ns:netconf:base:1.0">
<delete-config>
<target>
<startup/>
</target>
</delete-config>
</rpc>
"#
    .replace("\n", "");
    assert_eq!(req, expected_req);
}

#[test]
fn hello_client() {
    let model = HelloClient {
        xmlns: XMLNS.to_string(),
        capabilities: CapabilitiesClient {
            capabilities: vec![Capability {
                capability: "urn:ietf:params:netconf:base:1.0".to_string(),
            }],
        },
    };
    let req = model.to_xml();
    let expected_req = r#"
<hello xmlns="urn:ietf:params:xml:ns:netconf:base:1.0">
<capabilities>
<capability>
urn:ietf:params:netconf:base:1.0
</capability>
</capabilities>
</hello>
"#
    .replace("\n", "");
    assert_eq!(req, expected_req);
}

#[test]
fn copy_config_datastore_req() {
    let model = CopyConfigReq {
        xmlns: XMLNS.to_string(),
        message_id: 101,
        copy_config: CopyConfig {
            target: Target {
                target: DatastoreType::Startup,
            },
            source: CopyConfigSourceType::Datastore {
                source: DatastoreType::Running,
            },
        },
    };
    let req = model.to_xml();
    let expected_req = r#"
<rpc message-id="101" xmlns="urn:ietf:params:xml:ns:netconf:base:1.0">
<copy-config>
<target>
<startup/>
</target>
<source>
<running/>
</source>
</copy-config>
</rpc>
"#
    .replace("\n", "");
    assert_eq!(req, expected_req);
}

#[test]
fn copy_config_config_req() {
    let model = CopyConfigReq {
        xmlns: XMLNS.to_string(),
        message_id: 101,
        copy_config: CopyConfig {
            target: Target {
                target: DatastoreType::Startup,
            },
            source: CopyConfigSourceType::Config {
                config: Data {
                    xmlns_xc: Some("urn:ietf:params:xml:ns:netconf:base:1.0".to_string()),
                    data: " ".to_string(),
                },
            },
        },
    };
    let req = model.to_xml();
    let expected_req = r#"
<rpc message-id="101" xmlns="urn:ietf:params:xml:ns:netconf:base:1.0">
<copy-config>
<target>
<startup/>
</target>
<source>
<config xmlns:xc="urn:ietf:params:xml:ns:netconf:base:1.0"> </config>
</source>
</copy-config>
</rpc>
"#
    .replace("\n", "");
    assert_eq!(req, expected_req);
}

#[test]
fn commit_req() {
    let model = CommitReq {
        xmlns: XMLNS.to_string(),
        message_id: 101,
        commit: Default::default(),
    };
    let req = model.to_xml();
    let expected_req = r#"
<rpc message-id="101" xmlns="urn:ietf:params:xml:ns:netconf:base:1.0">
<commit/>
</rpc>
"#
    .replace("\n", "");
    assert_eq!(req, expected_req);
}

#[test]
fn unlock_req() {
    let model = UnlockReq {
        xmlns: XMLNS.to_string(),
        message_id: 101,
        unlock: Unlock {
            target: Target {
                target: DatastoreType::Candidate,
            },
        },
    };
    let req = model.to_xml();
    let expected_req = r#"
<rpc message-id="101" xmlns="urn:ietf:params:xml:ns:netconf:base:1.0">
<unlock>
<target>
<candidate/>
</target>
</unlock>
</rpc>
"#
    .replace("\n", "");
    assert_eq!(req, expected_req);
}

#[test]
fn kill_session_req() {
    let model = KillSessionReq {
        xmlns: XMLNS.to_string(),
        message_id: 101,
        kill_session: KillSession {
            session_id: SessionId { value: 4 },
        },
    };
    let req = model.to_xml();
    let expected_req = r#"
<rpc message-id="101" xmlns="urn:ietf:params:xml:ns:netconf:base:1.0">
<kill-session>
<session-id>4</session-id>
</kill-session>
</rpc>
"#
    .replace("\n", "");
    assert_eq!(req, expected_req);
}

#[test]
fn close_session_req() {
    let model = CloseSessionReq {
        xmlns: XMLNS.to_string(),
        message_id: 101,
        close_session: Default::default(),
    };
    let req = model.to_xml();
    let expected_req = r#"
<rpc message-id="101" xmlns="urn:ietf:params:xml:ns:netconf:base:1.0">
<close-session/>
</rpc>
"#
    .replace("\n", "");
    assert_eq!(req, expected_req);
}

#[test]
fn get_config_req() {
    let model = GetConfigReq {
        xmlns: XMLNS.to_string(),
        message_id: 101,
        get_config: GetConfig {
            source: Target {
                target: DatastoreType::Running,
            },
            filter: Some(Filter {
                filter_type: FilterType::Subtree,
                data: " ".to_string(),
            }),
        },
    };
    let req = model.to_xml();
    let expected_req = r#"
<rpc message-id="101" xmlns="urn:ietf:params:xml:ns:netconf:base:1.0">
<get-config>
<source>
<running/>
</source>
<filter type="subtree"> </filter>
</get-config>
</rpc>
"#
    .replace("\n", "");
    assert_eq!(req, expected_req);
}

#[test]
fn get_req() {
    let model = GetReq {
        xmlns: XMLNS.to_string(),
        message_id: 101,
        get: Get {
            filter: Some(Filter {
                filter_type: FilterType::Subtree,
                data: " ".to_string(),
            }),
        },
    };
    let req = model.to_xml();
    let expected_req = r#"
<rpc message-id="101" xmlns="urn:ietf:params:xml:ns:netconf:base:1.0">
<get>
<filter type="subtree"> </filter>
</get>
</rpc>
"#
    .replace("\n", "");
    assert_eq!(req, expected_req);
}

#[test]
fn discard_changes_req() {
    let model = DiscardChangesReq {
        xmlns: XMLNS.to_string(),
        message_id: 101,
        discard_changes: Default::default(),
    };
    let req = model.to_xml();
    let expected_req = r#"
<rpc message-id="101" xmlns="urn:ietf:params:xml:ns:netconf:base:1.0">
<discard-changes/>
</rpc>
"#
    .replace("\n", "");
    assert_eq!(req, expected_req);
}
