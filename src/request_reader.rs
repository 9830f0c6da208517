//! Reading back what an encoded request declares: its message id, its
//! namespace, its operation with the datastores, session or directives that
//! the operation names, its filter kind and its `config` element's
//! namespace. Spliced payloads are not read back.
use crate::codec::{
    attribute, CopySourceView, commit_req_xml, close_session_req_xml, copy_config_req_xml,
    copy_source_view, copy_source_xml, data_view, data_xml, datastore_name, datastore_xml,
    delete_config_req_xml, discard_changes_req_xml, edit_config_req_xml, edit_options_xml, element,
    filter_view, get_config_req_xml, get_req_xml, kill_session_req_xml, lemma_message_id_round_trip,
    lemma_number_at, filter_type_name, lock_req_xml, number_at, opt_filter_xml, raw_attribute,
    read_message_id, read_number, request_message_id, rpc_prefix, rpc_xml, target_xml,
    unlock_req_xml, default_operation_name, default_operation_xml, error_option_name,
    error_option_xml, test_option_name, test_option_xml,
};
use crate::models::requests::{
    CloseSessionReq, CommitReq, CopyConfigReq, CopyConfigSourceType, DatastoreType, EditConfig,
    DefaultOperation, DefaultOperationType, ErrorOption, ErrorOptionType, TestOption,
    TestOptionType, Data, DeleteConfigReq, Filter, FilterType, DiscardChangesReq, EditConfigReq,
    GetConfigReq, GetReq, KillSessionReq, LockReq, UnlockReq,
};
use crate::text::{
    chars_match_at, decimal, find_str, first_from, is_name_char, lemma_decimal_digits,
    lemma_escape_no_close, lemma_first_from_at, lemma_first_from_occurs, lemma_name_run_of,
    name_end, name_run, occurs_at, text_end, text_run, xml_escape, is_digit, lemma_escape_plain,
    lemma_escape_no_quote, lemma_unescape_escape, starts_with, xml_unescape, lemma_text_run_of,
};
use vstd::prelude::*;

verus! {

/// What a request asks for, without its payloads.
#[derive(Debug, PartialEq, Eq, Structural, Clone, Copy)]
pub enum Operation {
    Lock(DatastoreType),
    Unlock(DatastoreType),
    DeleteConfig(DatastoreType),
    Commit,
    DiscardChanges,
    CloseSession,
    KillSession(u32),
    Get,
    GetConfig(DatastoreType),
    /// The target and the directives that the request carries.
    EditConfig(
        DatastoreType,
        Option<DefaultOperationType>,
        Option<TestOptionType>,
        Option<ErrorOptionType>,
    ),
    /// The target, and the source when the source is a datastore.
    CopyConfig(DatastoreType, Option<DatastoreType>),
}

/// Where the body of a request begins: just past the first `>` after the
/// opening up to the message id.
pub open spec fn body_start(t: Seq<char>) -> Option<nat> {
    match first_from(t, seq!['>'], rpc_prefix().len()) {
        Some(j) => Some(j + 1),
        None => None,
    }
}

/// The name of the element whose tag opens at `k`.
pub open spec fn tag_name(t: Seq<char>, k: nat) -> Option<Seq<char>> {
    if k < t.len() && t[k as int] == '<' {
        Some(t.subrange(k + 1 as int, (k + 1 + name_run(t, k + 1)) as int))
    } else {
        None
    }
}

pub open spec fn datastore_named(n: Seq<char>) -> Option<DatastoreType> {
    if n == "running"@ {
        Some(DatastoreType::Running)
    } else if n == "candidate"@ {
        Some(DatastoreType::Candidate)
    } else if n == "startup"@ {
        Some(DatastoreType::Startup)
    } else {
        None
    }
}

/// The datastore named inside the element that opens at `k`, as in
/// `<target><running/>`.
pub open spec fn nested_datastore(t: Seq<char>, k: nat) -> Option<DatastoreType> {
    match tag_name(t, k) {
        Some(w) => match tag_name(t, k + w.len() + 2) {
            Some(d) => datastore_named(d),
            None => None,
        },
        None => None,
    }
}

/// The number inside the element that opens at `k`, as in
/// `<session-id>4<`.
pub open spec fn nested_number(t: Seq<char>, k: nat) -> Option<u32> {
    match tag_name(t, k) {
        Some(w) => number_at(t, k + w.len() + 2, '<'),
        None => None,
    }
}

/// An operation named without a datastore.
pub open spec fn plain_operation(op: Seq<char>) -> Option<Operation> {
    if op == "commit"@ {
        Some(Operation::Commit)
    } else if op == "discard-changes"@ {
        Some(Operation::DiscardChanges)
    } else if op == "close-session"@ {
        Some(Operation::CloseSession)
    } else if op == "get"@ {
        Some(Operation::Get)
    } else {
        None
    }
}

/// An operation that names a datastore first.
pub open spec fn datastore_operation(op: Seq<char>, d: DatastoreType) -> Option<Operation> {
    if op == "lock"@ {
        Some(Operation::Lock(d))
    } else if op == "unlock"@ {
        Some(Operation::Unlock(d))
    } else if op == "delete-config"@ {
        Some(Operation::DeleteConfig(d))
    } else if op == "get-config"@ {
        Some(Operation::GetConfig(d))
    } else {
        None
    }
}

/// The text of the text-only element `name` that opens at `k`, and the index
/// just past its closing tag.
pub open spec fn text_element_at(t: Seq<char>, k: nat, name: Seq<char>) -> Option<
    (Seq<char>, nat),
> {
    let s = k + name.len() + 2;
    let e = s + text_run(t, s);
    if tag_name(t, k) == Some(name) && s <= t.len() {
        Some((t.subrange(s as int, e as int), e + name.len() + 3))
    } else {
        None
    }
}

pub open spec fn default_operation_named(x: Seq<char>) -> Option<DefaultOperationType> {
    if x == "merge"@ {
        Some(DefaultOperationType::Merge)
    } else if x == "replace"@ {
        Some(DefaultOperationType::Replace)
    } else if x == "none"@ {
        Some(DefaultOperationType::NoOperation)
    } else {
        None
    }
}

pub open spec fn test_option_named(x: Seq<char>) -> Option<TestOptionType> {
    if x == "test-then-set"@ {
        Some(TestOptionType::TestThenSet)
    } else if x == "set"@ {
        Some(TestOptionType::SetOnly)
    } else if x == "test-only"@ {
        Some(TestOptionType::TestOnly)
    } else {
        None
    }
}

pub open spec fn error_option_named(x: Seq<char>) -> Option<ErrorOptionType> {
    if x == "stop-on-error"@ {
        Some(ErrorOptionType::StopOnError)
    } else if x == "continue-on-error"@ {
        Some(ErrorOptionType::ContinueOnError)
    } else if x == "rollback-on-error"@ {
        Some(ErrorOptionType::RollbackOnError)
    } else {
        None
    }
}

/// The `edit-config` directives written from `k` on, each optional and in
/// their fixed order.
pub open spec fn edit_directives(t: Seq<char>, k: nat) -> (
    Option<DefaultOperationType>,
    Option<TestOptionType>,
    Option<ErrorOptionType>,
) {
    let (a, k1) = match text_element_at(t, k, "default-operation"@) {
        Some((x, next)) => (default_operation_named(x), next),
        None => (None, k),
    };
    let (b, k2) = match text_element_at(t, k1, "test-option"@) {
        Some((x, next)) => (test_option_named(x), next),
        None => (None, k1),
    };
    let c = match text_element_at(t, k2, "error-option"@) {
        Some((x, _)) => error_option_named(x),
        None => None,
    };
    (a, b, c)
}

/// The directives of an `edit-config` request whose target element, naming
/// `d`, opens at `k`.
pub open spec fn edit_directives_after(t: Seq<char>, k: nat, d: DatastoreType) -> (
    Option<DefaultOperationType>,
    Option<TestOptionType>,
    Option<ErrorOptionType>,
) {
    match tag_name(t, k) {
        Some(w) => edit_directives(t, k + 2 * w.len() + datastore_name(d).len() + 8),
        None => (None, None, None),
    }
}

/// Where the element that opens at `k` is `<w><ds/></w>`, naming `d`: the
/// datastore named inside the element that follows it.
pub open spec fn following_datastore(t: Seq<char>, k: nat, d: DatastoreType) -> Option<
    DatastoreType,
> {
    match tag_name(t, k) {
        Some(w) => nested_datastore(t, k + 2 * w.len() + datastore_name(d).len() + 8),
        None => None,
    }
}

/// The operation of an encoded request.
pub open spec fn read_operation(t: Seq<char>) -> Option<Operation> {
    match body_start(t) {
        None => None,
        Some(b) => match tag_name(t, b) {
            None => None,
            Some(op) => match plain_operation(op) {
                Some(o) => Some(o),
                None => if op == "kill-session"@ {
                    match nested_number(t, b + op.len() + 2) {
                        Some(v) => Some(Operation::KillSession(v)),
                        None => None,
                    }
                } else {
                    match nested_datastore(t, b + op.len() + 2) {
                        Some(d) => if op == "copy-config"@ {
                            Some(
                                Operation::CopyConfig(
                                    d,
                                    following_datastore(t, b + op.len() + 2, d),
                                ),
                            )
                        } else if op == "edit-config"@ {
                            let (x, y, z) = edit_directives_after(t, b + op.len() + 2, d);
                            Some(Operation::EditConfig(d, x, y, z))
                        } else {
                            datastore_operation(op, d)
                        },
                        None => None,
                    }
                },
            },
        },
    }
}

/// The end of the name in the tag that opens at `k`, if a tag opens there.
fn tag_end(t: &str, k: usize) -> (r: Option<usize>)
    ensures
        match r {
            Some(e) => k + 1 <= e <= t@.len() && tag_name(t@, k as nat) == Some(
                t@.subrange(k + 1 as int, e as int),
            ),
            None => tag_name(t@, k as nat) is None,
        },
{
    if k >= t.unicode_len() || t.get_char(k) != '<' {
        return None;
    }
    Some(name_end(t, k + 1))
}

/// Whether the characters of `t` in `[start, end)` spell `lit`.
fn spells(t: &str, start: usize, end: usize, lit: &str) -> (r: bool)
    requires
        start <= end <= t@.len(),
    ensures
        r == (t@.subrange(start as int, end as int) == lit@),
{
    if end - start != lit.unicode_len() {
        return false;
    }
    let m = chars_match_at(t, lit, start);
    assert(m ==> t@.subrange(start as int, end as int) =~= lit@);
    m
}

fn datastore_in(t: &str, start: usize, end: usize) -> (r: Option<DatastoreType>)
    requires
        start <= end <= t@.len(),
    ensures
        r == datastore_named(t@.subrange(start as int, end as int)),
{
    if spells(t, start, end, "running") {
        Some(DatastoreType::Running)
    } else if spells(t, start, end, "candidate") {
        Some(DatastoreType::Candidate)
    } else if spells(t, start, end, "startup") {
        Some(DatastoreType::Startup)
    } else {
        None
    }
}

fn plain_in(t: &str, start: usize, end: usize) -> (r: Option<Operation>)
    requires
        start <= end <= t@.len(),
    ensures
        r == plain_operation(t@.subrange(start as int, end as int)),
{
    if spells(t, start, end, "commit") {
        Some(Operation::Commit)
    } else if spells(t, start, end, "discard-changes") {
        Some(Operation::DiscardChanges)
    } else if spells(t, start, end, "close-session") {
        Some(Operation::CloseSession)
    } else if spells(t, start, end, "get") {
        Some(Operation::Get)
    } else {
        None
    }
}

fn datastore_operation_in(t: &str, start: usize, end: usize, d: DatastoreType) -> (r: Option<
    Operation,
>)
    requires
        start <= end <= t@.len(),
    ensures
        r == datastore_operation(t@.subrange(start as int, end as int), d),
{
    if spells(t, start, end, "lock") {
        Some(Operation::Lock(d))
    } else if spells(t, start, end, "unlock") {
        Some(Operation::Unlock(d))
    } else if spells(t, start, end, "delete-config") {
        Some(Operation::DeleteConfig(d))
    } else if spells(t, start, end, "get-config") {
        Some(Operation::GetConfig(d))
    } else {
        None
    }
}

fn nested_datastore_at(t: &str, k: usize) -> (r: Option<DatastoreType>)
    ensures
        r == nested_datastore(t@, k as nat),
{
    let w_end = match tag_end(t, k) {
        Some(e) => e,
        None => return None,
    };
    if w_end >= t.unicode_len() {
        return None;
    }
    let k2 = w_end + 1;
    assert(k2 == k + (w_end - (k + 1)) + 2);
    let d_end = match tag_end(t, k2) {
        Some(e) => e,
        None => return None,
    };
    datastore_in(t, k2 + 1, d_end)
}

fn following_datastore_at(t: &str, k: usize, d: DatastoreType) -> (r: Option<DatastoreType>)
    ensures
        r == following_datastore(t@, k as nat, d),
{
    let w_end = match tag_end(t, k) {
        Some(e) => e,
        None => return None,
    };
    let n = t.unicode_len();
    let w_len = w_end - (k + 1);
    let d_len: usize = match d {
        DatastoreType::Running => 7,
        DatastoreType::Candidate => 9,
        DatastoreType::Startup => 7,
    };
    proof {
        reveal_strlit("running");
        reveal_strlit("candidate");
        reveal_strlit("startup");
    }
    assert(d_len == datastore_name(d).len());
    if w_len > n || d_len > n || k > n {
        return None;
    }
    let skip: u128 = k as u128 + 2 * (w_len as u128) + d_len as u128 + 8;
    if skip > n as u128 {
        return None;
    }
    nested_datastore_at(t, skip as usize)
}

/// The text of the text-only element `name` opening at `k`: where it
/// begins and ends.
fn text_element_in(t: &str, k: usize, name: &str) -> (r: Option<(usize, usize)>)
    ensures
        match r {
            Some((s, e)) => s <= e <= t@.len() && s == k + name@.len() + 2 && text_element_at(
                t@,
                k as nat,
                name@,
            ) == Some((t@.subrange(s as int, e as int), (e + name@.len() + 3) as nat)),
            None => text_element_at(t@, k as nat, name@) is None,
        },
{
    let n = t.unicode_len();
    let m = name.unicode_len();
    let name_end_at = match tag_end(t, k) {
        Some(e) => e,
        None => return None,
    };
    if !spells(t, k + 1, name_end_at, name) {
        return None;
    }
    if name_end_at >= n {
        return None;
    }
    let s = name_end_at + 1;
    let e = text_end(t, s);
    Some((s, e))
}

fn default_operation_in(t: &str, s: usize, e: usize) -> (r: Option<DefaultOperationType>)
    requires
        s <= e <= t@.len(),
    ensures
        r == default_operation_named(t@.subrange(s as int, e as int)),
{
    if spells(t, s, e, "merge") {
        Some(DefaultOperationType::Merge)
    } else if spells(t, s, e, "replace") {
        Some(DefaultOperationType::Replace)
    } else if spells(t, s, e, "none") {
        Some(DefaultOperationType::NoOperation)
    } else {
        None
    }
}

fn test_option_in(t: &str, s: usize, e: usize) -> (r: Option<TestOptionType>)
    requires
        s <= e <= t@.len(),
    ensures
        r == test_option_named(t@.subrange(s as int, e as int)),
{
    if spells(t, s, e, "test-then-set") {
        Some(TestOptionType::TestThenSet)
    } else if spells(t, s, e, "set") {
        Some(TestOptionType::SetOnly)
    } else if spells(t, s, e, "test-only") {
        Some(TestOptionType::TestOnly)
    } else {
        None
    }
}

fn error_option_in(t: &str, s: usize, e: usize) -> (r: Option<ErrorOptionType>)
    requires
        s <= e <= t@.len(),
    ensures
        r == error_option_named(t@.subrange(s as int, e as int)),
{
    if spells(t, s, e, "stop-on-error") {
        Some(ErrorOptionType::StopOnError)
    } else if spells(t, s, e, "continue-on-error") {
        Some(ErrorOptionType::ContinueOnError)
    } else if spells(t, s, e, "rollback-on-error") {
        Some(ErrorOptionType::RollbackOnError)
    } else {
        None
    }
}

/// Where a text element closes: just past `</name>`, if that index fits.
fn past_close(e: usize, name: &str, n: usize) -> (r: Option<usize>)
    ensures
        match r {
            Some(k) => k == e + name@.len() + 3 && k <= n,
            None => e + name@.len() + 3 > n,
        },
{
    let m = name.unicode_len();
    if m > n || e > n - m || n - m - e < 3 {
        None
    } else {
        Some(e + m + 3)
    }
}

fn edit_directives_in(t: &str, k: usize) -> (r: (
    Option<DefaultOperationType>,
    Option<TestOptionType>,
    Option<ErrorOptionType>,
))
    ensures
        r == edit_directives(t@, k as nat),
{
    let n = t.unicode_len();
    proof {
        reveal_strlit("default-operation");
        reveal_strlit("test-option");
        reveal_strlit("error-option");
    }
    let (a, k1) = match text_element_in(t, k, "default-operation") {
        Some((s, e)) => (
            default_operation_in(t, s, e),
            past_close(e, "default-operation", n),
        ),
        None => (None, Some(k)),
    };
    let k1 = match k1 {
        Some(k1) => k1,
        None => {
            assert(edit_directives(t@, k as nat).1 is None);
            return (a, None, None);
        },
    };
    let (b, k2) = match text_element_in(t, k1, "test-option") {
        Some((s, e)) => (test_option_in(t, s, e), past_close(e, "test-option", n)),
        None => (None, Some(k1)),
    };
    let k2 = match k2 {
        Some(k2) => k2,
        None => {
            return (a, b, None);
        },
    };
    let c = match text_element_in(t, k2, "error-option") {
        Some((s, e)) => error_option_in(t, s, e),
        None => None,
    };
    (a, b, c)
}

fn edit_directives_after_at(t: &str, k: usize, d: DatastoreType) -> (r: (
    Option<DefaultOperationType>,
    Option<TestOptionType>,
    Option<ErrorOptionType>,
))
    ensures
        r == edit_directives_after(t@, k as nat, d),
{
    let w_end = match tag_end(t, k) {
        Some(e) => e,
        None => return (None, None, None),
    };
    let n = t.unicode_len();
    let w_len = w_end - (k + 1);
    let d_len: usize = match d {
        DatastoreType::Running => 7,
        DatastoreType::Candidate => 9,
        DatastoreType::Startup => 7,
    };
    proof {
        reveal_strlit("running");
        reveal_strlit("candidate");
        reveal_strlit("startup");
    }
    assert(d_len == datastore_name(d).len());
    let skip: u128 = k as u128 + 2 * (w_len as u128) + d_len as u128 + 8;
    if skip > n as u128 {
        proof {
            assert(tag_name(t@, (k + 2 * w_len + d_len + 8) as nat) is None);
        }
        return (None, None, None);
    }
    edit_directives_in(t, skip as usize)
}

fn nested_number_at(t: &str, k: usize) -> (r: Option<u32>)
    ensures
        r == nested_number(t@, k as nat),
{
    let w_end = match tag_end(t, k) {
        Some(e) => e,
        None => return None,
    };
    if w_end >= t.unicode_len() {
        return None;
    }
    let k2 = w_end + 1;
    assert(k2 == k + (w_end - (k + 1)) + 2);
    read_number(t, k2, '<')
}

/// Reads the message id and the operation of an encoded request.
pub fn read_request(text: &str) -> (r: Option<(u32, Operation)>)
    ensures
        r == match (read_message_id(text@), read_operation(text@)) {
            (Some(id), Some(op)) => Some((id, op)),
            _ => None,
        },
{
    let id = request_message_id(text);
    let n: usize = text.unicode_len();
    let prefix_len: usize = 17;
    proof {
        reveal_strlit("<rpc message-id=\"");
        reveal_strlit(">");
    }
    assert(">"@ =~= seq!['>']);
    let b = match find_str(text, ">", prefix_len) {
        Some(j) => {
            proof {
                lemma_first_from_occurs(text@, seq!['>'], prefix_len as nat);
            }
            j + 1
        },
        None => return None,
    };
    let op_end = match tag_end(text, b) {
        Some(e) => e,
        None => return None,
    };
    let op = match plain_in(text, b + 1, op_end) {
        Some(o) => o,
        None => {
            if op_end >= n {
                return None;
            }
            let k = op_end + 1;
            assert(k == b + (op_end - (b + 1)) + 2);
            if spells(text, b + 1, op_end, "kill-session") {
                match nested_number_at(text, k) {
                    Some(v) => Operation::KillSession(v),
                    None => return None,
                }
            } else {
                match nested_datastore_at(text, k) {
                    Some(d) => if spells(text, b + 1, op_end, "copy-config") {
                        Operation::CopyConfig(d, following_datastore_at(text, k, d))
                    } else if spells(text, b + 1, op_end, "edit-config") {
                        let (x, y, z) = edit_directives_after_at(text, k, d);
                        Operation::EditConfig(d, x, y, z)
                    } else {
                        match datastore_operation_in(text, b + 1, op_end, d) {
                            Some(o) => o,
                            None => return None,
                        }
                    },
                    None => return None,
                }
            }
        },
    };
    match id {
        Some(id) => Some((id, op)),
        None => None,
    }
}

/// No character of `s` is `>`.
pub open spec fn no_close(s: Seq<char>) -> bool {
    forall|i: int| 0 <= i < s.len() ==> s[i] != '>'
}

proof fn lemma_no_close_concat(a: Seq<char>, b: Seq<char>)
    requires
        no_close(a),
        no_close(b),
    ensures
        no_close(a + b),
{
    assert forall|i: int| 0 <= i < (a + b).len() implies (a + b)[i] != '>' by {
        if i < a.len() {
            assert((a + b)[i] == a[i]);
        } else {
            assert((a + b)[i] == b[i - a.len()]);
        }
    }
}

/// The opening of an `rpc` envelope up to and including its `>`.
pub open spec fn rpc_open(id: u32, xmlns: Seq<char>) -> Seq<char> {
    "<"@ + "rpc"@ + raw_attribute("message-id"@, decimal(id as nat)) + attribute("xmlns"@, xmlns)
        + ">"@
}

/// The body of a request envelope begins right after its opening.
#[verifier::rlimit(30)]
proof fn lemma_body_start(id: u32, xmlns: Seq<char>, body: Seq<char>, rest: Seq<char>)
    requires
        body.len() > 0,
    ensures
        body_start(rpc_xml(id, xmlns, body) + rest) == Some(rpc_open(id, xmlns).len()),
        (rpc_xml(id, xmlns, body) + rest).subrange(
            rpc_open(id, xmlns).len() as int,
            (rpc_open(id, xmlns).len() + body.len()) as int,
        ) == body,
        rpc_open(id, xmlns).len() + body.len() <= (rpc_xml(id, xmlns, body) + rest).len(),
{
    reveal_strlit("<rpc message-id=\"");
    reveal_strlit("<");
    reveal_strlit("rpc");
    reveal_strlit(" ");
    reveal_strlit("message-id");
    reveal_strlit("xmlns");
    reveal_strlit("=\"");
    reveal_strlit("\"");
    reveal_strlit(">");
    reveal_strlit("</");
    let d = decimal(id as nat);
    let a = attribute("xmlns"@, xmlns);
    let m = d + "\""@ + a;
    let open = rpc_open(id, xmlns);
    let t = rpc_xml(id, xmlns, body) + rest;
    assert(open =~= rpc_prefix() + m + ">"@);
    assert(t =~= open + body + ("</"@ + "rpc"@ + ">"@ + rest));
    lemma_decimal_digits(id as nat);
    assert(no_close(d)) by {
        assert forall|i: int| 0 <= i < d.len() implies d[i] != '>' by {
            assert(is_digit(d[i]));
        }
    }
    assert(no_close("\""@));
    lemma_escape_no_close(xmlns);
    if xml_escape(xmlns).len() > 0 {
        assert(no_close(" "@ + "xmlns"@ + "=\""@));
        assert(no_close(xml_escape(xmlns)));
        lemma_no_close_concat(" "@ + "xmlns"@ + "=\""@, xml_escape(xmlns));
        lemma_no_close_concat(" "@ + "xmlns"@ + "=\""@ + xml_escape(xmlns), "\""@);
        assert(a =~= " "@ + "xmlns"@ + "=\""@ + xml_escape(xmlns) + "\""@);
    }
    assert(no_close(a));
    lemma_no_close_concat(d, "\""@);
    lemma_no_close_concat(d + "\""@, a);
    let k = rpc_prefix().len();
    let j = k + m.len();
    assert(t.subrange(j as int, j + 1 as int) =~= seq!['>']);
    assert forall|i: int| k <= i < j implies !occurs_at(t, seq!['>'], i) by {
        assert(t[i] == m[i - k]);
        if occurs_at(t, seq!['>'], i) {
            assert(t.subrange(i, i + 1)[0] == t[i]);
        }
    }
    lemma_first_from_at(t, seq!['>'], k, j);
    assert(t.subrange(open.len() as int, (open.len() + body.len()) as int) =~= body);
}

/// A tag opening at `k` with `name` and then a character that cannot go on
/// with a name has that name.
proof fn lemma_tag_name(t: Seq<char>, k: nat, name: Seq<char>, c: char)
    requires
        k + name.len() + 2 <= t.len(),
        t.subrange(k as int, (k + name.len() + 2) as int) == seq!['<'] + name + seq![c],
        forall|i: int| 0 <= i < name.len() ==> is_name_char(#[trigger] name[i]),
        !is_name_char(c),
    ensures
        tag_name(t, k) == Some(name),
{
    let w = seq!['<'] + name + seq![c];
    assert(t[k as int] == w[0]);
    let sub = t.subrange(k as int, (k + name.len() + 2) as int);
    assert forall|i: int| 0 <= i < name.len() implies t[k + 1 + i] == name[i] by {
        assert(t[k + 1 + i] == sub[1 + i]);
        assert(w[1 + i] == name[i]);
    }
    assert(t.subrange(k + 1 as int, (k + 1 + name.len()) as int) =~= name);
    assert(t[(k + 1 + name.len()) as int] == w[name.len() + 1 as int]);
    lemma_name_run_of(t, k + 1, name);
}

/// The names of the datastores are names.
proof fn lemma_datastore_names(d: DatastoreType)
    ensures
        forall|i: int|
            0 <= i < datastore_name(d).len() ==> is_name_char(#[trigger] datastore_name(d)[i]),
        datastore_named(datastore_name(d)) == Some(d),
{
    reveal_strlit("running");
    reveal_strlit("candidate");
    reveal_strlit("startup");
    assert("running"@[0] != "startup"@[0]);
}

/// Where the body opens as `<op><w><ds/`, the operation's name and the
/// datastore read back.
#[verifier::rlimit(30)]
proof fn lemma_datastore_body(t: Seq<char>, b: nat, op: Seq<char>, w: Seq<char>, d: DatastoreType)
    requires
        forall|i: int| 0 <= i < op.len() ==> is_name_char(#[trigger] op[i]),
        forall|i: int| 0 <= i < w.len() ==> is_name_char(#[trigger] w[i]),
        b + op.len() + w.len() + datastore_name(d).len() + 6 <= t.len(),
        t.subrange(b as int, (b + op.len() + w.len() + datastore_name(d).len() + 6) as int)
            == seq!['<'] + op + seq!['>'] + seq!['<'] + w + seq!['>'] + seq!['<'] + datastore_name(d)
            + seq!['/'],
    ensures
        tag_name(t, b) == Some(op),
        tag_name(t, b + op.len() + 2) == Some(w),
        tag_name(t, b + op.len() + w.len() + 4) == Some(datastore_name(d)),
        nested_datastore(t, b + op.len() + 2) == Some(d),
{
    let n = datastore_name(d);
    let p = seq!['<'] + op + seq!['>'] + seq!['<'] + w + seq!['>'] + seq!['<'] + n + seq!['/'];
    let k1 = b + op.len() + 2;
    let k2 = k1 + w.len() + 2;
    assert(t.subrange(b as int, (b + op.len() + 2) as int) =~= p.subrange(0, op.len() + 2 as int));
    assert(p.subrange(0, op.len() + 2 as int) =~= seq!['<'] + op + seq!['>']);
    lemma_tag_name(t, b, op, '>');
    assert(t.subrange(k1 as int, (k1 + w.len() + 2) as int) =~= p.subrange(
        op.len() + 2 as int,
        (op.len() + w.len() + 4) as int,
    ));
    assert(p.subrange(op.len() + 2 as int, (op.len() + w.len() + 4) as int) =~= seq!['<'] + w
        + seq!['>']);
    lemma_tag_name(t, k1, w, '>');
    lemma_datastore_names(d);
    assert(t.subrange(k2 as int, (k2 + n.len() + 2) as int) =~= p.subrange(
        (op.len() + w.len() + 4) as int,
        (op.len() + w.len() + n.len() + 6) as int,
    ));
    assert(p.subrange((op.len() + w.len() + 4) as int, (op.len() + w.len() + n.len() + 6) as int)
        =~= seq!['<'] + n + seq!['/']);
    lemma_tag_name(t, k2, n, '/');
}

/// Every element name that a request opens with is made of name characters.
pub open spec fn name_chars(n: Seq<char>) -> bool {
    forall|i: int| 0 <= i < n.len() ==> is_name_char(#[trigger] n[i])
}

/// What the operation names read back as.
proof fn lemma_operation_names()
    ensures
        name_chars("lock"@),
        name_chars("unlock"@),
        name_chars("delete-config"@),
        name_chars("get-config"@),
        name_chars("edit-config"@),
        name_chars("copy-config"@),
        name_chars("commit"@),
        name_chars("discard-changes"@),
        name_chars("close-session"@),
        name_chars("kill-session"@),
        name_chars("get"@),
        name_chars("target"@),
        name_chars("source"@),
        plain_operation("commit"@) == Some(Operation::Commit),
        plain_operation("discard-changes"@) == Some(Operation::DiscardChanges),
        plain_operation("close-session"@) == Some(Operation::CloseSession),
        plain_operation("kill-session"@) is None,
        "lock"@ != "kill-session"@,
        "unlock"@ != "kill-session"@,
        "delete-config"@ != "kill-session"@,
        "get-config"@ != "kill-session"@,
        "edit-config"@ != "kill-session"@,
        "copy-config"@ != "kill-session"@,
        plain_operation("get"@) == Some(Operation::Get),
        plain_operation("lock"@) is None,
        plain_operation("unlock"@) is None,
        plain_operation("delete-config"@) is None,
        plain_operation("get-config"@) is None,
        plain_operation("edit-config"@) is None,
        plain_operation("copy-config"@) is None,
        forall|d: DatastoreType| datastore_operation("lock"@, d) == Some(Operation::Lock(d)),
        forall|d: DatastoreType| datastore_operation("unlock"@, d) == Some(Operation::Unlock(d)),
        forall|d: DatastoreType|
            datastore_operation("delete-config"@, d) == Some(Operation::DeleteConfig(d)),
        forall|d: DatastoreType|
            datastore_operation("get-config"@, d) == Some(Operation::GetConfig(d)),
        "lock"@ != "edit-config"@,
        "unlock"@ != "edit-config"@,
        "delete-config"@ != "edit-config"@,
        "get-config"@ != "edit-config"@,
        datastore_operation("copy-config"@, DatastoreType::Running) is None,
        "lock"@ != "copy-config"@,
        "unlock"@ != "copy-config"@,
        "delete-config"@ != "copy-config"@,
        "get-config"@ != "copy-config"@,
        "edit-config"@ != "copy-config"@,
{
    reveal_strlit("lock");
    reveal_strlit("unlock");
    reveal_strlit("delete-config");
    reveal_strlit("get-config");
    reveal_strlit("edit-config");
    reveal_strlit("copy-config");
    reveal_strlit("commit");
    reveal_strlit("discard-changes");
    reveal_strlit("close-session");
    reveal_strlit("kill-session");
    reveal_strlit("get");
    reveal_strlit("target");
    reveal_strlit("source");
    assert("get-config"@.len() != "lock"@.len());
    assert("get-config"@.len() != "unlock"@.len());
    assert("get-config"@.len() != "delete-config"@.len());
    assert("edit-config"@.len() != "get-config"@.len());
    assert("unlock"@[0] != "commit"@[0]);
    assert("delete-config"@[0] != "close-session"@[0]);
    assert("copy-config"@[0] != "edit-config"@[0]);
}

/// Where `body` stands at `b` and begins with `p`, so does `p`.
proof fn lemma_prefix_at(t: Seq<char>, b: nat, body: Seq<char>, p: Seq<char>, q: Seq<char>)
    requires
        b + body.len() <= t.len(),
        t.subrange(b as int, (b + body.len()) as int) == body,
        body == p + q,
    ensures
        t.subrange(b as int, (b + p.len()) as int) == p,
{
    assert forall|i: int| 0 <= i < p.len() implies t[b + i] == p[i] by {
        assert(t[b + i] == t.subrange(b as int, (b + body.len()) as int)[i]);
        assert(body[i] == (p + q)[i]);
    }
    assert(t.subrange(b as int, (b + p.len()) as int) =~= p);
}

proof fn lemma_datastore_body_shape(op: Seq<char>, w: Seq<char>, d: DatastoreType, more: Seq<char>)
    ensures
        element(op, seq![], element(w, seq![], datastore_xml(d)) + more) == seq!['<'] + op
            + seq!['>'] + seq!['<'] + w + seq!['>'] + seq!['<'] + datastore_name(d) + seq!['/']
            + (seq!['>'] + "</"@ + w + ">"@ + more + "</"@ + op + ">"@),
{
    reveal_strlit("<");
    reveal_strlit(">");
    reveal_strlit("/>");
    reveal_strlit("</");
    let n = datastore_name(d);
    let inner = element(w, seq![], datastore_xml(d));
    assert(datastore_xml(d) =~= "<"@ + n + "/>"@);
    assert(inner =~= "<"@ + w + ">"@ + datastore_xml(d) + "</"@ + w + ">"@);
    assert(element(op, seq![], inner + more) =~= "<"@ + op + ">"@ + (inner + more) + "</"@ + op
        + ">"@);
    assert(element(op, seq![], inner + more) =~= seq!['<'] + op + seq!['>'] + seq!['<'] + w
        + seq!['>'] + seq!['<'] + n + seq!['/'] + (seq!['>'] + "</"@ + w + ">"@ + more + "</"@
        + op + ">"@));
}

/// The reading of a request whose operation, named `op`, is followed by the
/// datastore `d` and nothing else that the reading looks at.
proof fn lemma_read_datastore_op(t: Seq<char>, b: nat, op: Seq<char>, d: DatastoreType)
    requires
        body_start(t) == Some(b),
        tag_name(t, b) == Some(op),
        nested_datastore(t, b + op.len() + 2) == Some(d),
        plain_operation(op) is None,
        op != "kill-session"@,
        op != "copy-config"@,
        op != "edit-config"@,
    ensures
        read_operation(t) == datastore_operation(op, d),
{
}

/// A request whose operation opens with a datastore inside the element `w`
/// reads back as that operation on that datastore.
#[verifier::rlimit(40)]
proof fn lemma_datastore_request(
    id: u32,
    xmlns: Seq<char>,
    op: Seq<char>,
    w: Seq<char>,
    d: DatastoreType,
    more: Seq<char>,
    rest: Seq<char>,
)
    requires
        name_chars(op),
        name_chars(w),
        plain_operation(op) is None,
        op != "kill-session"@,
        op != "copy-config"@,
        op != "edit-config"@,
    ensures
        read_operation(
            rpc_xml(id, xmlns, element(op, seq![], element(w, seq![], datastore_xml(d)) + more))
                + rest,
        ) == datastore_operation(op, d),
{
    reveal_strlit("<");
    reveal_strlit(">");
    reveal_strlit("/>");
    reveal_strlit("</");
    let n = datastore_name(d);
    let inner = element(w, seq![], datastore_xml(d));
    let body = element(op, seq![], inner + more);
    let t = rpc_xml(id, xmlns, body) + rest;
    let p = seq!['<'] + op + seq!['>'] + seq!['<'] + w + seq!['>'] + seq!['<'] + n + seq!['/'];
    let q = seq!['>'] + "</"@ + w + ">"@ + more + "</"@ + op + ">"@;
    lemma_datastore_body_shape(op, w, d, more);
    lemma_body_start(id, xmlns, body, rest);
    let b = rpc_open(id, xmlns).len();
    lemma_prefix_at(t, b, body, p, q);
    lemma_datastore_body(t, b, op, w, d);
    lemma_read_datastore_op(t, b, op, d);
}

/// A request whose operation names no datastore reads back as that
/// operation.
proof fn lemma_plain_request(
    id: u32,
    xmlns: Seq<char>,
    op: Seq<char>,
    content: Seq<char>,
    rest: Seq<char>,
)
    requires
        name_chars(op),
        plain_operation(op) is Some,
    ensures
        read_operation(rpc_xml(id, xmlns, element(op, seq![], content)) + rest) == plain_operation(
            op,
        ),
{
    reveal_strlit("<");
    reveal_strlit(">");
    reveal_strlit("/>");
    let body = element(op, seq![], content);
    let t = rpc_xml(id, xmlns, body) + rest;
    let c = if content.len() == 0 {
        '/'
    } else {
        '>'
    };
    let p = seq!['<'] + op + seq![c];
    let q = body.subrange(p.len() as int, body.len() as int);
    assert(body =~= p + q);
    lemma_body_start(id, xmlns, body, rest);
    let b = rpc_open(id, xmlns).len();
    lemma_prefix_at(t, b, body, p, q);
    lemma_tag_name(t, b, op, c);
}

/// Round trip of a `lock` request: whatever follows the envelope,
/// its message id, its operation and its datastore read back.
pub proof fn lemma_lock_req_round_trip(r: LockReq, rest: Seq<char>)
    ensures
        read_message_id(lock_req_xml(r) + rest) == Some(r.message_id),
        read_operation(lock_req_xml(r) + rest) == Some(Operation::Lock(r.lock.target.target)),
{
    lemma_operation_names();
    let d = r.lock.target.target;
    let target = element("target"@, seq![], datastore_xml(d));
    let more = seq![];
    let body = element("lock"@, seq![], target + more);
    assert(lock_req_xml(r) == rpc_xml(r.message_id, r.xmlns@, body)) by {
        assert(target + more =~= target_xml("target"@, r.lock.target));
    }
    lemma_message_id_round_trip(r.message_id, r.xmlns@, body, rest);
    lemma_datastore_request(r.message_id, r.xmlns@, "lock"@, "target"@, d, more, rest);
}

/// Round trip of an `unlock` request: whatever follows the envelope,
/// its message id, its operation and its datastore read back.
pub proof fn lemma_unlock_req_round_trip(r: UnlockReq, rest: Seq<char>)
    ensures
        read_message_id(unlock_req_xml(r) + rest) == Some(r.message_id),
        read_operation(unlock_req_xml(r) + rest) == Some(Operation::Unlock(r.unlock.target.target)),
{
    lemma_operation_names();
    let d = r.unlock.target.target;
    let target = element("target"@, seq![], datastore_xml(d));
    let more = seq![];
    let body = element("unlock"@, seq![], target + more);
    assert(unlock_req_xml(r) == rpc_xml(r.message_id, r.xmlns@, body)) by {
        assert(target + more =~= target_xml("target"@, r.unlock.target));
    }
    lemma_message_id_round_trip(r.message_id, r.xmlns@, body, rest);
    lemma_datastore_request(r.message_id, r.xmlns@, "unlock"@, "target"@, d, more, rest);
}

/// Round trip of a `delete-config` request: whatever follows the envelope,
/// its message id, its operation and its datastore read back.
pub proof fn lemma_delete_config_req_round_trip(r: DeleteConfigReq, rest: Seq<char>)
    ensures
        read_message_id(delete_config_req_xml(r) + rest) == Some(r.message_id),
        read_operation(delete_config_req_xml(r) + rest) == Some(
            Operation::DeleteConfig(r.delete_config.target.target),
        ),
{
    lemma_operation_names();
    let d = r.delete_config.target.target;
    let target = element("target"@, seq![], datastore_xml(d));
    let more = seq![];
    let body = element("delete-config"@, seq![], target + more);
    assert(delete_config_req_xml(r) == rpc_xml(r.message_id, r.xmlns@, body)) by {
        assert(target + more =~= target_xml("target"@, r.delete_config.target));
    }
    lemma_message_id_round_trip(r.message_id, r.xmlns@, body, rest);
    lemma_datastore_request(r.message_id, r.xmlns@, "delete-config"@, "target"@, d, more, rest);
}

/// Round trip of a `get-config` request: whatever follows the envelope,
/// its message id, its operation and its datastore read back.
pub proof fn lemma_get_config_req_round_trip(r: GetConfigReq, rest: Seq<char>)
    ensures
        read_message_id(get_config_req_xml(r) + rest) == Some(r.message_id),
        read_operation(get_config_req_xml(r) + rest) == Some(
            Operation::GetConfig(r.get_config.source.target),
        ),
{
    lemma_operation_names();
    let d = r.get_config.source.target;
    let target = element("source"@, seq![], datastore_xml(d));
    let more = opt_filter_xml(filter_view(r.get_config.filter));
    let body = element("get-config"@, seq![], target + more);
    assert(get_config_req_xml(r) == rpc_xml(r.message_id, r.xmlns@, body)) by {
        assert(target == target_xml("source"@, r.get_config.source));
    }
    lemma_message_id_round_trip(r.message_id, r.xmlns@, body, rest);
    lemma_datastore_request(r.message_id, r.xmlns@, "get-config"@, "source"@, d, more, rest);
}

/// A text-only element as the encoder writes it.
pub open spec fn text_xml(name: Seq<char>, v: Seq<char>) -> Seq<char> {
    seq!['<'] + name + seq!['>'] + v + seq!['<', '/'] + name + seq!['>']
}

/// A text-only element standing at offset `off` of a body at `b` reads back
/// as its text, and reading goes on just past it.
proof fn lemma_present_slot(
    t: Seq<char>,
    b: nat,
    body: Seq<char>,
    off: nat,
    name: Seq<char>,
    v: Seq<char>,
)
    requires
        b + body.len() <= t.len(),
        t.subrange(b as int, (b + body.len()) as int) == body,
        off + text_xml(name, v).len() <= body.len(),
        body.subrange(off as int, (off + text_xml(name, v).len()) as int) == text_xml(name, v),
        name_chars(name),
        forall|i: int| 0 <= i < v.len() ==> #[trigger] v[i] != '<',
    ensures
        text_element_at(t, b + off, name) == Some((v, b + off + text_xml(name, v).len())),
{
    let x = text_xml(name, v);
    assert(body.subrange(off as int, (off + name.len() + 2) as int) =~= seq!['<'] + name + seq![
        '>',
    ]) by {
        assert forall|i: int| 0 <= i < name.len() + 2 implies #[trigger] body[off + i] == x[i] by {
            assert(body[off + i] == body.subrange(off as int, (off + x.len()) as int)[i]);
        }
        assert(x.subrange(0, name.len() + 2 as int) =~= seq!['<'] + name + seq!['>']);
    }
    lemma_tag_at(t, b, body, off, name, '>');
    let s = b + off + name.len() + 2;
    let o = off + name.len() + 2;
    let inside = body.subrange(off as int, (off + x.len()) as int);
    assert forall|i: int| 0 <= i <= v.len() implies #[trigger] t[s + i] == x[name.len() + 2 + i] by {
        assert(t[s + i] == t.subrange(b as int, (b + body.len()) as int)[o + i]);
        assert(body[o + i] == inside[name.len() + 2 + i]);
    }
    assert(t.subrange(s as int, (s + v.len()) as int) =~= v) by {
        assert forall|i: int| 0 <= i < v.len() implies #[trigger] t.subrange(
            s as int,
            (s + v.len()) as int,
        )[i] == v[i] by {
            assert(t[s + i] == x[name.len() + 2 + i]);
        }
    }
    assert(t[(s + v.len()) as int] == '<') by {
        assert(t[(s + v.len()) as int] == x[(name.len() + 2 + v.len()) as int]);
    }
    lemma_text_run_of(t, s, v);
}

/// Where another tag stands at offset `off`, the element `name` is not there.
proof fn lemma_absent_slot(
    t: Seq<char>,
    b: nat,
    body: Seq<char>,
    off: nat,
    name: Seq<char>,
    other: Seq<char>,
    c: char,
)
    requires
        b + body.len() <= t.len(),
        t.subrange(b as int, (b + body.len()) as int) == body,
        off + other.len() + 2 <= body.len(),
        body.subrange(off as int, (off + other.len() + 2) as int) == seq!['<'] + other + seq![c],
        name_chars(other),
        !is_name_char(c),
        other != name,
    ensures
        text_element_at(t, b + off, name) is None,
{
    lemma_tag_at(t, b, body, off, other, c);
}

/// The part of `body` at the end of `pre`, when `body` is `pre + mid + post`.
proof fn lemma_middle(body: Seq<char>, pre: Seq<char>, mid: Seq<char>, post: Seq<char>)
    requires
        body == pre + mid + post,
    ensures
        body.subrange(pre.len() as int, (pre.len() + mid.len()) as int) == mid,
{
    assert(body.subrange(pre.len() as int, (pre.len() + mid.len()) as int) =~= mid);
}

pub open spec fn default_operation_text(v: DefaultOperationType) -> Seq<char> {
    match v {
        DefaultOperationType::Merge => "merge"@,
        DefaultOperationType::Replace => "replace"@,
        DefaultOperationType::NoOperation => "none"@,
    }
}

pub open spec fn test_option_text(v: TestOptionType) -> Seq<char> {
    match v {
        TestOptionType::TestThenSet => "test-then-set"@,
        TestOptionType::SetOnly => "set"@,
        TestOptionType::TestOnly => "test-only"@,
    }
}

pub open spec fn error_option_text(v: ErrorOptionType) -> Seq<char> {
    match v {
        ErrorOptionType::StopOnError => "stop-on-error"@,
        ErrorOptionType::ContinueOnError => "continue-on-error"@,
        ErrorOptionType::RollbackOnError => "rollback-on-error"@,
    }
}

/// Plain text: no markup characters at all.
pub open spec fn plain(v: Seq<char>) -> bool {
    forall|i: int|
        0 <= i < v.len() ==> #[trigger] v[i] != '<' && v[i] != '>' && v[i] != '&' && v[i] != '\''
            && v[i] != '"'
}

/// How each directive is written, and that its value reads back.
proof fn lemma_directive_texts()
    ensures
        forall|o: Option<DefaultOperation>|
            #![trigger default_operation_xml(o)]
            default_operation_xml(o) == match o {
                Some(x) => text_xml("default-operation"@, default_operation_text(x.value)),
                None => seq![],
            },
        forall|o: Option<TestOption>|
            #![trigger test_option_xml(o)]
            test_option_xml(o) == match o {
                Some(x) => text_xml("test-option"@, test_option_text(x.value)),
                None => seq![],
            },
        forall|o: Option<ErrorOption>|
            #![trigger error_option_xml(o)]
            error_option_xml(o) == match o {
                Some(x) => text_xml("error-option"@, error_option_text(x.value)),
                None => seq![],
            },
        forall|v: DefaultOperationType|
            #![trigger default_operation_text(v)]
            plain(default_operation_text(v)) && default_operation_named(default_operation_text(v))
                == Some(v),
        forall|v: TestOptionType|
            #![trigger test_option_text(v)]
            plain(test_option_text(v)) && test_option_named(test_option_text(v)) == Some(v),
        forall|v: ErrorOptionType|
            #![trigger error_option_text(v)]
            plain(error_option_text(v)) && error_option_named(error_option_text(v)) == Some(v),
        name_chars("default-operation"@),
        name_chars("test-option"@),
        name_chars("error-option"@),
        name_chars("config"@),
        "test-option"@ != "default-operation"@,
        "error-option"@ != "default-operation"@,
        "config"@ != "default-operation"@,
        "error-option"@ != "test-option"@,
        "config"@ != "test-option"@,
        "config"@ != "error-option"@,
{
    reveal_strlit("<");
    reveal_strlit(">");
    reveal_strlit("</");
    reveal_strlit("default-operation");
    reveal_strlit("test-option");
    reveal_strlit("error-option");
    reveal_strlit("config");
    reveal_strlit("merge");
    reveal_strlit("replace");
    reveal_strlit("none");
    reveal_strlit("test-then-set");
    reveal_strlit("set");
    reveal_strlit("test-only");
    reveal_strlit("stop-on-error");
    reveal_strlit("continue-on-error");
    reveal_strlit("rollback-on-error");
    assert("continue-on-error"@[0] != "rollback-on-error"@[0]);
    assert("replace"@.len() != "merge"@.len());
    assert("none"@.len() != "merge"@.len());
    assert("none"@.len() != "replace"@.len());
    assert("set"@.len() != "test-then-set"@.len());
    assert("test-only"@.len() != "test-then-set"@.len());
    assert("test-only"@.len() != "set"@.len());
    assert forall|v: DefaultOperationType| #![trigger default_operation_text(v)] plain(
        default_operation_text(v),
    ) && default_operation_named(default_operation_text(v)) == Some(v) by {
        match v {
            DefaultOperationType::Merge => {},
            DefaultOperationType::Replace => {},
            DefaultOperationType::NoOperation => {},
        }
    }
    assert forall|v: TestOptionType| #![trigger test_option_text(v)] plain(test_option_text(v))
        && test_option_named(test_option_text(v)) == Some(v) by {
        match v {
            TestOptionType::TestThenSet => {},
            TestOptionType::SetOnly => {},
            TestOptionType::TestOnly => {},
        }
    }
    assert forall|v: ErrorOptionType| #![trigger error_option_text(v)] plain(
        error_option_text(v),
    ) by {}
    assert forall|o: Option<DefaultOperation>| #![trigger default_operation_xml(o)]
        default_operation_xml(o) == match o {
            Some(x) => text_xml("default-operation"@, default_operation_text(x.value)),
            None => seq![],
        } by {
        if let Some(x) = o {
            let v = default_operation_text(x.value);
            lemma_escape_plain(v);
            assert(default_operation_name(x.value) == v);
            assert(default_operation_xml(o) =~= text_xml("default-operation"@, v));
        }
    }
    assert forall|o: Option<TestOption>| #![trigger test_option_xml(o)] test_option_xml(o)
        == match o {
            Some(x) => text_xml("test-option"@, test_option_text(x.value)),
            None => seq![],
        } by {
        if let Some(x) = o {
            let v = test_option_text(x.value);
            lemma_escape_plain(v);
            assert(test_option_name(x.value) == v);
            assert(test_option_xml(o) =~= text_xml("test-option"@, v));
        }
    }
    assert forall|o: Option<ErrorOption>| #![trigger error_option_xml(o)] error_option_xml(o)
        == match o {
            Some(x) => text_xml("error-option"@, error_option_text(x.value)),
            None => seq![],
        } by {
        if let Some(x) = o {
            let v = error_option_text(x.value);
            lemma_escape_plain(v);
            assert(error_option_name(x.value) == v);
            assert(error_option_xml(o) =~= text_xml("error-option"@, v));
        }
    }
}

pub open spec fn default_value(o: Option<DefaultOperation>) -> Option<DefaultOperationType> {
    match o {
        Some(x) => Some(x.value),
        None => None,
    }
}

pub open spec fn test_value(o: Option<TestOption>) -> Option<TestOptionType> {
    match o {
        Some(x) => Some(x.value),
        None => None,
    }
}

pub open spec fn error_value(o: Option<ErrorOption>) -> Option<ErrorOptionType> {
    match o {
        Some(x) => Some(x.value),
        None => None,
    }
}

/// A text element `name` at the end of `pre` reads back.
proof fn lemma_slot_present(
    t: Seq<char>,
    b: nat,
    body: Seq<char>,
    pre: Seq<char>,
    name: Seq<char>,
    v: Seq<char>,
    post: Seq<char>,
)
    requires
        b + body.len() <= t.len(),
        t.subrange(b as int, (b + body.len()) as int) == body,
        body == pre + text_xml(name, v) + post,
        name_chars(name),
        plain(v),
    ensures
        text_element_at(t, b + pre.len(), name) == Some(
            (v, b + pre.len() + text_xml(name, v).len()),
        ),
{
    lemma_middle(body, pre, text_xml(name, v), post);
    assert forall|i: int| 0 <= i < v.len() implies #[trigger] v[i] != '<' by {}
    lemma_present_slot(t, b, body, pre.len(), name, v);
}

/// No element `name` at the end of `pre` when another tag opens there.
proof fn lemma_slot_absent(
    t: Seq<char>,
    b: nat,
    body: Seq<char>,
    pre: Seq<char>,
    post: Seq<char>,
    name: Seq<char>,
    other: Seq<char>,
    c: char,
)
    requires
        b + body.len() <= t.len(),
        t.subrange(b as int, (b + body.len()) as int) == body,
        body == pre + post,
        post.len() >= other.len() + 2,
        post.subrange(0, other.len() + 2 as int) == seq!['<'] + other + seq![c],
        name_chars(other),
        !is_name_char(c),
        other != name,
    ensures
        text_element_at(t, b + pre.len(), name) is None,
{
    assert(body.subrange(pre.len() as int, (pre.len() + other.len() + 2) as int) =~= seq!['<']
        + other + seq![c]) by {
        assert forall|i: int| 0 <= i < other.len() + 2 implies #[trigger] body[pre.len() + i]
            == post[i] by {}
        assert forall|i: int| 0 <= i < other.len() + 2 implies #[trigger] post[i] == post.subrange(
            0,
            other.len() + 2 as int,
        )[i] by {}
    }
    lemma_absent_slot(t, b, body, pre.len(), name, other, c);
}

/// The first tag of what follows a directive slot: the next directive
/// present, or the `config` element.
proof fn lemma_next_tag(
    top: Option<TestOption>,
    eop: Option<ErrorOption>,
    cv: (Option<Seq<char>>, Seq<char>),
    z: Seq<char>,
) -> (r: (Seq<char>, char))
    ensures
        ({
            let post = test_option_xml(top) + error_option_xml(eop) + data_xml(cv) + z;
            &&& post.len() >= r.0.len() + 2
            &&& post.subrange(0, r.0.len() + 2 as int) == seq!['<'] + r.0 + seq![r.1]
            &&& name_chars(r.0)
            &&& !is_name_char(r.1)
            &&& r.0 != "default-operation"@
            &&& (top is None ==> r.0 != "test-option"@)
        }),
        ({
            let post = error_option_xml(eop) + data_xml(cv) + z;
            &&& top is None ==> post.len() >= r.0.len() + 2 && post.subrange(
                0,
                r.0.len() + 2 as int,
            ) == seq!['<'] + r.0 + seq![r.1]
        }),
{
    lemma_directive_texts();
    let (nm, c) = lemma_copy_source_start(CopySourceView::Config(cv));
    let post = test_option_xml(top) + error_option_xml(eop) + data_xml(cv) + z;
    match top {
        Some(x) => {
            let v = test_option_text(x.value);
            let head = text_xml("test-option"@, v);
            assert(post.subrange(0, "test-option"@.len() + 2 as int) =~= seq!['<'] + "test-option"@
                + seq!['>']) by {
                assert forall|i: int| 0 <= i < "test-option"@.len() + 2 implies #[trigger] post[i]
                    == head[i] by {}
            }
            ("test-option"@, '>')
        },
        None => match eop {
            Some(x) => {
                let v = error_option_text(x.value);
                let head = text_xml("error-option"@, v);
                assert(post =~= head + data_xml(cv) + z);
                assert(post.subrange(0, "error-option"@.len() + 2 as int) =~= seq!['<']
                    + "error-option"@ + seq!['>']) by {
                    assert forall|i: int| 0 <= i < "error-option"@.len() + 2 implies #[trigger]
                        post[i] == head[i] by {}
                }
                ("error-option"@, '>')
            },
            None => {
                assert(post =~= data_xml(cv) + z);
                assert(post.subrange(0, nm.len() + 2 as int) =~= seq!['<'] + nm + seq![c]) by {
                    assert forall|i: int| 0 <= i < nm.len() + 2 implies #[trigger] post[i]
                        == data_xml(cv)[i] by {}
                    assert forall|i: int| 0 <= i < nm.len() + 2 implies #[trigger] data_xml(cv)[i]
                        == copy_inner(CopySourceView::Config(cv)).subrange(
                        0,
                        nm.len() + 2 as int,
                    )[i] by {}
                }
                (nm, c)
            },
        },
    }
}

/// An `edit-config` body up to its directives.
pub open spec fn edit_head(d: DatastoreType) -> Seq<char> {
    seq!['<'] + "edit-config"@ + seq!['>'] + seq!['<'] + "target"@ + seq!['>'] + seq!['<']
        + datastore_name(d) + seq!['/', '>'] + seq!['<', '/'] + "target"@ + seq!['>']
}

/// The closing tag of an `edit-config` body.
pub open spec fn edit_tail() -> Seq<char> {
    seq!['<', '/'] + "edit-config"@ + seq!['>']
}

#[verifier::rlimit(40)]
proof fn lemma_edit_body_shape(d: DatastoreType, x: Seq<char>)
    ensures
        element("edit-config"@, seq![], element("target"@, seq![], datastore_xml(d)) + x)
            == edit_head(d) + x + edit_tail(),
        element("edit-config"@, seq![], element("target"@, seq![], datastore_xml(d)) + x)
            == seq!['<'] + "edit-config"@ + seq!['>'] + seq!['<'] + "target"@ + seq!['>']
            + seq!['<'] + datastore_name(d) + seq!['/'] + (seq!['>'] + seq!['<', '/'] + "target"@
            + seq!['>'] + x + edit_tail()),
        edit_head(d).len() == "edit-config"@.len() + 2 + 2 * "target"@.len()
            + datastore_name(d).len() + 8,
{
    reveal_strlit("<");
    reveal_strlit(">");
    reveal_strlit("/>");
    reveal_strlit("</");
    assert("<"@ =~= seq!['<']);
    assert(">"@ =~= seq!['>']);
    assert("/>"@ =~= seq!['/', '>']);
    assert("</"@ =~= seq!['<', '/']);
    let n = datastore_name(d);
    assert(datastore_xml(d) =~= seq!['<'] + n + seq!['/', '>']);
    let target = element("target"@, seq![], datastore_xml(d));
    assert(target =~= seq!['<'] + "target"@ + seq!['>'] + datastore_xml(d) + seq!['<', '/']
        + "target"@ + seq!['>']);
    assert(element("edit-config"@, seq![], target + x) =~= seq!['<'] + "edit-config"@ + seq!['>']
        + (target + x) + seq!['<', '/'] + "edit-config"@ + seq!['>']);
    assert(element("edit-config"@, seq![], target + x) =~= edit_head(d) + x + edit_tail());
    assert(element("edit-config"@, seq![], target + x) =~= seq!['<'] + "edit-config"@ + seq!['>']
        + seq!['<'] + "target"@ + seq!['>'] + seq!['<'] + n + seq!['/'] + (seq!['>'] + seq![
        '<',
        '/',
    ] + "target"@ + seq!['>'] + x + edit_tail()));
}

proof fn lemma_edit_names()
    ensures
        name_chars("edit-config"@),
        name_chars("target"@),
        plain_operation("edit-config"@) is None,
        "edit-config"@ != "kill-session"@,
        "edit-config"@ != "copy-config"@,
{
    reveal_strlit("edit-config");
    reveal_strlit("copy-config");
    reveal_strlit("target");
    reveal_strlit("commit");
    reveal_strlit("discard-changes");
    reveal_strlit("close-session");
    reveal_strlit("get");
    reveal_strlit("kill-session");
    assert("edit-config"@.len() != "commit"@.len());
    assert("edit-config"@.len() != "discard-changes"@.len());
    assert("edit-config"@.len() != "close-session"@.len());
    assert("edit-config"@.len() != "get"@.len());
    assert("edit-config"@.len() != "kill-session"@.len());
    assert("edit-config"@[0] != "copy-config"@[0]);
}

/// The reading of an `edit-config` request whose tags stand where its
/// encoding puts them.
proof fn lemma_read_edit(
    t: Seq<char>,
    b: nat,
    d: DatastoreType,
    x: Option<DefaultOperationType>,
    y: Option<TestOptionType>,
    z: Option<ErrorOptionType>,
)
    requires
        body_start(t) == Some(b),
        tag_name(t, b) == Some("edit-config"@),
        tag_name(t, b + "edit-config"@.len() + 2) == Some("target"@),
        nested_datastore(t, b + "edit-config"@.len() + 2) == Some(d),
        plain_operation("edit-config"@) is None,
        "edit-config"@ != "kill-session"@,
        "edit-config"@ != "copy-config"@,
        edit_directives(
            t,
            b + "edit-config"@.len() + 2 + 2 * "target"@.len() + datastore_name(d).len() + 8,
        ) == (x, y, z),
    ensures
        read_operation(t) == Some(Operation::EditConfig(d, x, y, z)),
{
}

/// The `default-operation` slot of an `edit-config` body reads back.
proof fn lemma_default_slot(
    t: Seq<char>,
    b: nat,
    body: Seq<char>,
    pre: Seq<char>,
    o: Option<DefaultOperation>,
    post: Seq<char>,
    other: Seq<char>,
    c: char,
)
    requires
        b + body.len() <= t.len(),
        t.subrange(b as int, (b + body.len()) as int) == body,
        body == pre + default_operation_xml(o) + post,
        post.len() >= other.len() + 2,
        post.subrange(0, other.len() + 2 as int) == seq!['<'] + other + seq![c],
        name_chars(other),
        !is_name_char(c),
        other != "default-operation"@,
    ensures
        match text_element_at(t, b + pre.len(), "default-operation"@) {
            Some((x, next)) => (default_operation_named(x), next),
            None => (None, b + pre.len()),
        } == (default_value(o), b + pre.len() + default_operation_xml(o).len()),
{
    lemma_directive_texts();
    match o {
        Some(v) => {
            lemma_slot_present(
                t,
                b,
                body,
                pre,
                "default-operation"@,
                default_operation_text(v.value),
                post,
            );
        },
        None => {
            assert(body =~= pre + post);
            lemma_slot_absent(t, b, body, pre, post, "default-operation"@, other, c);
        },
    }
}

/// The `test-option` slot of an `edit-config` body reads back.
proof fn lemma_test_slot(
    t: Seq<char>,
    b: nat,
    body: Seq<char>,
    pre: Seq<char>,
    o: Option<TestOption>,
    post: Seq<char>,
    other: Seq<char>,
    c: char,
)
    requires
        b + body.len() <= t.len(),
        t.subrange(b as int, (b + body.len()) as int) == body,
        body == pre + test_option_xml(o) + post,
        o is None ==> post.len() >= other.len() + 2 && post.subrange(0, other.len() + 2 as int)
            == seq!['<'] + other + seq![c],
        name_chars(other),
        !is_name_char(c),
        o is None ==> other != "test-option"@,
    ensures
        match text_element_at(t, b + pre.len(), "test-option"@) {
            Some((x, next)) => (test_option_named(x), next),
            None => (None, b + pre.len()),
        } == (test_value(o), b + pre.len() + test_option_xml(o).len()),
{
    lemma_directive_texts();
    match o {
        Some(v) => {
            lemma_slot_present(t, b, body, pre, "test-option"@, test_option_text(v.value), post);
        },
        None => {
            assert(body =~= pre + post);
            lemma_slot_absent(t, b, body, pre, post, "test-option"@, other, c);
        },
    }
}

/// The `error-option` slot of an `edit-config` body reads back.
proof fn lemma_error_slot(
    t: Seq<char>,
    b: nat,
    body: Seq<char>,
    pre: Seq<char>,
    o: Option<ErrorOption>,
    post: Seq<char>,
    other: Seq<char>,
    c: char,
)
    requires
        b + body.len() <= t.len(),
        t.subrange(b as int, (b + body.len()) as int) == body,
        body == pre + error_option_xml(o) + post,
        o is None ==> post.len() >= other.len() + 2 && post.subrange(0, other.len() + 2 as int)
            == seq!['<'] + other + seq![c],
        name_chars(other),
        !is_name_char(c),
        o is None ==> other != "error-option"@,
    ensures
        match text_element_at(t, b + pre.len(), "error-option"@) {
            Some((x, next)) => (error_option_named(x), next),
            None => (None, b + pre.len()),
        } == (error_value(o), b + pre.len() + error_option_xml(o).len()),
{
    lemma_directive_texts();
    match o {
        Some(v) => {
            lemma_slot_present(t, b, body, pre, "error-option"@, error_option_text(v.value), post);
        },
        None => {
            assert(body =~= pre + post);
            lemma_slot_absent(t, b, body, pre, post, "error-option"@, other, c);
        },
    }
}

proof fn lemma_regroup(
    h: Seq<char>,
    a: Seq<char>,
    b: Seq<char>,
    c: Seq<char>,
    d: Seq<char>,
    z: Seq<char>,
)
    ensures
        h + (a + b + c + d) + z == h + a + (b + c + d + z),
        h + (a + b + c + d) + z == (h + a) + b + (c + d + z),
        h + (a + b + c + d) + z == (h + a + b) + c + (d + z),
{
    assert(h + (a + b + c + d) + z =~= h + a + (b + c + d + z));
    assert(h + (a + b + c + d) + z =~= (h + a) + b + (c + d + z));
    assert(h + (a + b + c + d) + z =~= (h + a + b) + c + (d + z));
}

/// The directives of an `edit-config` body read back.
#[verifier::rlimit(40)]
proof fn lemma_edit_slots(t: Seq<char>, b: nat, body: Seq<char>, h: Seq<char>, e: EditConfig)
    requires
        b + body.len() <= t.len(),
        t.subrange(b as int, (b + body.len()) as int) == body,
        body == h + (default_operation_xml(e.default_operation) + test_option_xml(e.test_option)
            + error_option_xml(e.error_option) + data_xml(data_view(e.config))) + edit_tail(),
    ensures
        edit_directives(t, b + h.len()) == (
            default_value(e.default_operation),
            test_value(e.test_option),
            error_value(e.error_option),
        ),
        after_directives(t, b + h.len()) == b + h.len() + default_operation_xml(
            e.default_operation,
        ).len() + test_option_xml(e.test_option).len() + error_option_xml(e.error_option).len(),
{
    lemma_directive_texts();
    let dd = default_operation_xml(e.default_operation);
    let tt = test_option_xml(e.test_option);
    let ee = error_option_xml(e.error_option);
    let cc = data_xml(data_view(e.config));
    let z = edit_tail();
    let (other, c) = lemma_next_tag(e.test_option, e.error_option, data_view(e.config), z);
    lemma_regroup(h, dd, tt, ee, cc, z);
    lemma_default_slot(t, b, body, h, e.default_operation, tt + ee + cc + z, other, c);
    lemma_test_slot(t, b, body, h + dd, e.test_option, ee + cc + z, other, c);
    let (nm, c2) = lemma_copy_source_start(CopySourceView::Config(data_view(e.config)));
    assert((cc + z).subrange(0, nm.len() + 2 as int) =~= seq!['<'] + nm + seq![c2]) by {
        assert forall|i: int| 0 <= i < nm.len() + 2 implies #[trigger] (cc + z)[i] == cc[i] by {}
        assert forall|i: int| 0 <= i < nm.len() + 2 implies #[trigger] cc[i] == copy_inner(
            CopySourceView::Config(data_view(e.config)),
        ).subrange(0, nm.len() + 2 as int)[i] by {}
    }
    lemma_error_slot(t, b, body, h + dd + tt, e.error_option, cc + z, nm, c2);
}

/// An `edit-config` envelope around its body.
proof fn lemma_edit_envelope(r: EditConfigReq)
    ensures
        edit_config_req_xml(r) == rpc_xml(
            r.message_id,
            r.xmlns@,
            element(
                "edit-config"@,
                seq![],
                element("target"@, seq![], datastore_xml(r.edit_config.target.target)) + (
                default_operation_xml(r.edit_config.default_operation) + test_option_xml(
                    r.edit_config.test_option,
                ) + error_option_xml(r.edit_config.error_option) + data_xml(
                    data_view(r.edit_config.config),
                )),
            ),
        ),
{
    let e = r.edit_config;
    assert(target_xml("target"@, e.target) + edit_options_xml(
        e.default_operation,
        e.test_option,
        e.error_option,
    ) + data_xml(data_view(e.config)) =~= element(
        "target"@,
        seq![],
        datastore_xml(e.target.target),
    ) + (default_operation_xml(e.default_operation) + test_option_xml(e.test_option)
        + error_option_xml(e.error_option) + data_xml(data_view(e.config))));
}

/// The reading of an `edit-config` body that stands at `b`, just after the
/// envelope's opening.
#[verifier::rlimit(60)]
proof fn lemma_edit_reading(t: Seq<char>, b: nat, e: EditConfig)
    requires
        ({
            let x = default_operation_xml(e.default_operation) + test_option_xml(e.test_option)
                + error_option_xml(e.error_option) + data_xml(data_view(e.config));
            let body = element(
                "edit-config"@,
                seq![],
                element("target"@, seq![], datastore_xml(e.target.target)) + x,
            );
            &&& b + body.len() <= t.len()
            &&& t.subrange(b as int, (b + body.len()) as int) == body
        }),
        body_start(t) == Some(b),
    ensures
        read_operation(t) == Some(
            Operation::EditConfig(
                e.target.target,
                default_value(e.default_operation),
                test_value(e.test_option),
                error_value(e.error_option),
            ),
        ),
{
    lemma_edit_names();
    let d = e.target.target;
    let n = datastore_name(d);
    lemma_datastore_names(d);
    let op = "edit-config"@;
    let w = "target"@;
    let x = default_operation_xml(e.default_operation) + test_option_xml(e.test_option)
        + error_option_xml(e.error_option) + data_xml(data_view(e.config));
    let body = element(op, seq![], element(w, seq![], datastore_xml(d)) + x);
    lemma_edit_body_shape(d, x);
    let h = edit_head(d);
    let p = seq!['<'] + op + seq!['>'] + seq!['<'] + w + seq!['>'] + seq!['<'] + n + seq!['/'];
    let q = seq!['>'] + seq!['<', '/'] + w + seq!['>'] + x + edit_tail();
    lemma_prefix_at(t, b, body, p, q);
    lemma_datastore_body(t, b, op, w, d);
    lemma_edit_slots(t, b, body, h, e);
    lemma_read_edit(
        t,
        b,
        d,
        default_value(e.default_operation),
        test_value(e.test_option),
        error_value(e.error_option),
    );
}

/// Round trip of an `edit-config` request: whatever follows the envelope,
/// its message id, its operation, its target and its directives read back.
pub proof fn lemma_edit_config_req_round_trip(r: EditConfigReq, rest: Seq<char>)
    ensures
        read_message_id(edit_config_req_xml(r) + rest) == Some(r.message_id),
        read_operation(edit_config_req_xml(r) + rest) == Some(
            Operation::EditConfig(
                r.edit_config.target.target,
                default_value(r.edit_config.default_operation),
                test_value(r.edit_config.test_option),
                error_value(r.edit_config.error_option),
            ),
        ),
{
    let e = r.edit_config;
    let x = default_operation_xml(e.default_operation) + test_option_xml(e.test_option)
        + error_option_xml(e.error_option) + data_xml(data_view(e.config));
    let body = element(
        "edit-config"@,
        seq![],
        element("target"@, seq![], datastore_xml(e.target.target)) + x,
    );
    lemma_edit_envelope(r);
    lemma_edit_body_shape(e.target.target, x);
    lemma_message_id_round_trip(r.message_id, r.xmlns@, body, rest);
    lemma_body_start(r.message_id, r.xmlns@, body, rest);
    let t = edit_config_req_xml(r) + rest;
    let b = rpc_open(r.message_id, r.xmlns@).len();
    lemma_edit_reading(t, b, e);
}

/// ` xmlns="`
pub open spec fn xmlns_open() -> Seq<char> {
    seq![' ', 'x', 'm', 'l', 'n', 's', '=', '"']
}

/// The namespace of a request envelope: the `xmlns` attribute that follows
/// the message id, unescaped; empty when the envelope's tag closes without
/// one.
pub open spec fn read_xmlns(t: Seq<char>) -> Option<Seq<char>> {
    match first_from(t, seq!['"'], rpc_prefix().len()) {
        None => None,
        Some(q) => {
            let k = q + 1;
            if occurs_at(t, xmlns_open(), k as int) {
                match first_from(t, seq!['"'], k + 8) {
                    Some(e) => Some(xml_unescape(t.subrange(k + 8 as int, e as int))),
                    None => None,
                }
            } else if k < t.len() && t[k as int] == '>' {
                Some(Seq::<char>::empty())
            } else {
                None
            }
        }
    }
}

/// Whether the characters of `t` in `[i, e)` begin with `lit`.
fn begins_with_at(t: &str, i: usize, e: usize, lit: &str) -> (r: bool)
    requires
        i <= e <= t@.len(),
    ensures
        r == starts_with(t@.subrange(i as int, e as int), lit@),
{
    let m = lit.unicode_len();
    if m > e - i {
        return false;
    }
    let r = chars_match_at(t, lit, i);
    assert(t@.subrange(i as int, e as int).subrange(0, m as int) =~= t@.subrange(
        i as int,
        i + m,
    ));
    r
}

/// Unescapes the characters of `t` in `[s, e)`.
pub fn unescape_range(t: &str, s: usize, e: usize) -> (r: String)
    requires
        s <= e <= t@.len(),
    ensures
        r@ == xml_unescape(t@.subrange(s as int, e as int)),
{
    proof {
        reveal_strlit("&lt;");
        reveal_strlit("&gt;");
        reveal_strlit("&apos;");
        reveal_strlit("&amp;");
        reveal_strlit("&quot;");
        reveal_strlit("<");
        reveal_strlit(">");
        reveal_strlit("'");
        reveal_strlit("&");
        reveal_strlit("\"");
    }
    assert("&lt;"@ =~= seq!['&', 'l', 't', ';']);
    assert("&gt;"@ =~= seq!['&', 'g', 't', ';']);
    assert("&apos;"@ =~= seq!['&', 'a', 'p', 'o', 's', ';']);
    assert("&amp;"@ =~= seq!['&', 'a', 'm', 'p', ';']);
    assert("&quot;"@ =~= seq!['&', 'q', 'u', 'o', 't', ';']);
    assert("<"@ =~= seq!['<']);
    assert(">"@ =~= seq!['>']);
    assert("'"@ =~= seq!['\'']);
    assert("&"@ =~= seq!['&']);
    assert("\""@ =~= seq!['"']);
    let mut out = String::new();
    let mut i: usize = s;
    while i < e
        invariant
            s <= i <= e,
            e <= t@.len(),
            "&lt;"@ == seq!['&', 'l', 't', ';'],
            "&gt;"@ == seq!['&', 'g', 't', ';'],
            "&apos;"@ == seq!['&', 'a', 'p', 'o', 's', ';'],
            "&amp;"@ == seq!['&', 'a', 'm', 'p', ';'],
            "&quot;"@ == seq!['&', 'q', 'u', 'o', 't', ';'],
            "<"@ == seq!['<'],
            ">"@ == seq!['>'],
            "'"@ == seq!['\''],
            "&"@ == seq!['&'],
            "\""@ == seq!['"'],
            xml_unescape(t@.subrange(s as int, e as int)) == out@ + xml_unescape(
                t@.subrange(i as int, e as int),
            ),
        decreases e - i,
    {
        let ghost rest = t@.subrange(i as int, e as int);
        if begins_with_at(t, i, e, "&lt;") {
            out.append("<");
            assert(rest.subrange(4, rest.len() as int) =~= t@.subrange(i + 4, e as int));
            i = i + 4;
        } else if begins_with_at(t, i, e, "&gt;") {
            out.append(">");
            assert(rest.subrange(4, rest.len() as int) =~= t@.subrange(i + 4, e as int));
            i = i + 4;
        } else if begins_with_at(t, i, e, "&apos;") {
            out.append("'");
            assert(rest.subrange(6, rest.len() as int) =~= t@.subrange(i + 6, e as int));
            i = i + 6;
        } else if begins_with_at(t, i, e, "&amp;") {
            out.append("&");
            assert(rest.subrange(5, rest.len() as int) =~= t@.subrange(i + 5, e as int));
            i = i + 5;
        } else if begins_with_at(t, i, e, "&quot;") {
            out.append("\"");
            assert(rest.subrange(6, rest.len() as int) =~= t@.subrange(i + 6, e as int));
            i = i + 6;
        } else {
            out.append(t.substring_char(i, i + 1));
            assert(t@.subrange(i as int, i + 1) =~= seq![rest[0]]);
            assert(rest.drop_first() =~= t@.subrange(i + 1, e as int));
            i = i + 1;
        }
        assert(out@ + xml_unescape(t@.subrange(i as int, e as int)) =~= xml_unescape(
            t@.subrange(s as int, e as int),
        ));
    }
    assert(t@.subrange(e as int, e as int) =~= Seq::<char>::empty());
    assert(out@ + Seq::<char>::empty() =~= out@);
    out
}

/// Reads the namespace of an encoded request.
pub fn read_request_xmlns(text: &str) -> (r: Option<String>)
    ensures
        match r {
            Some(x) => read_xmlns(text@) == Some(x@),
            None => read_xmlns(text@) is None,
        },
{
    proof {
        reveal_strlit("\"");
        reveal_strlit(" xmlns=\"");
        reveal_strlit("<rpc message-id=\"");
    }
    assert(rpc_prefix().len() == 17);
    assert("\""@ =~= seq!['"']);
    assert(" xmlns=\""@ =~= xmlns_open());
    let n = text.unicode_len();
    let q = match find_str(text, "\"", 17) {
        Some(q) => q,
        None => return None,
    };
    proof {
        lemma_first_from_occurs(text@, seq!['"'], 17);
    }
    let k = q + 1;
    if chars_match_at(text, " xmlns=\"", k) {
        let e = match find_str(text, "\"", k + 8) {
            Some(e) => e,
            None => return None,
        };
        proof {
            lemma_first_from_occurs(text@, seq!['"'], (k + 8) as nat);
        }
        Some(unescape_range(text, k + 8, e))
    } else if k < n && text.get_char(k) == '>' {
        Some(String::new())
    } else {
        None
    }
}

/// Round trip of the namespace: every request envelope with a body, whatever
/// follows it, reads back the namespace it was encoded with.
#[verifier::rlimit(40)]
pub proof fn lemma_xmlns_round_trip(id: u32, xmlns: Seq<char>, body: Seq<char>, rest: Seq<char>)
    requires
        body.len() > 0,
    ensures
        read_xmlns(rpc_xml(id, xmlns, body) + rest) == Some(xmlns),
{
    reveal_strlit("<rpc message-id=\"");
    reveal_strlit("<");
    reveal_strlit("rpc");
    reveal_strlit(" ");
    reveal_strlit("message-id");
    reveal_strlit("xmlns");
    reveal_strlit("=\"");
    reveal_strlit("\"");
    reveal_strlit(">");
    reveal_strlit("</");
    let d = decimal(id as nat);
    let esc = xml_escape(xmlns);
    let a = attribute("xmlns"@, xmlns);
    let t = rpc_xml(id, xmlns, body) + rest;
    let tail = ">"@ + body + "</"@ + "rpc"@ + ">"@ + rest;
    assert(t =~= rpc_prefix() + d + seq!['"'] + a + tail);
    lemma_decimal_digits(id as nat);
    lemma_escape_no_quote(xmlns);
    let k0 = rpc_prefix().len();
    let q = k0 + d.len();
    assert(t.subrange(q as int, q + 1 as int) =~= seq!['"']);
    assert forall|i: int| k0 <= i < q implies !occurs_at(t, seq!['"'], i) by {
        assert(t[i] == d[i - k0]);
        assert(is_digit(d[i - k0]));
        if occurs_at(t, seq!['"'], i) {
            assert(t.subrange(i, i + 1)[0] == t[i]);
        }
    }
    lemma_first_from_at(t, seq!['"'], k0, q);
    let k = q + 1;
    if esc.len() == 0 {
        assert(xmlns.len() == 0);
        assert(xmlns =~= Seq::<char>::empty());
        assert(t =~= rpc_prefix() + d + seq!['"'] + tail);
        assert(t[k as int] == '>');
        assert(!occurs_at(t, xmlns_open(), k as int)) by {
            if occurs_at(t, xmlns_open(), k as int) {
                assert(t.subrange(k as int, k + 8 as int)[0] == t[k as int]);
            }
        }
    } else {
        assert(a =~= xmlns_open() + esc + seq!['"']);
        assert(t =~= rpc_prefix() + d + seq!['"'] + xmlns_open() + esc + seq!['"'] + tail);
        assert(t.subrange(k as int, k + 8 as int) =~= xmlns_open());
        let s = k + 8;
        let e = s + esc.len();
        assert(t.subrange(e as int, e + 1 as int) =~= seq!['"']);
        assert forall|i: int| s <= i < e implies !occurs_at(t, seq!['"'], i) by {
            assert(t[i] == esc[i - s]);
            if occurs_at(t, seq!['"'], i) {
                assert(t.subrange(i, i + 1)[0] == t[i]);
            }
        }
        lemma_first_from_at(t, seq!['"'], s, e);
        assert(t.subrange(s as int, e as int) =~= esc);
        lemma_unescape_escape(xmlns);
    }
}

/// ` type="subtree"`
pub open spec fn subtree_attr() -> Seq<char> {
    seq![' ', 't', 'y', 'p', 'e', '=', '"', 's', 'u', 'b', 't', 'r', 'e', 'e', '"']
}

/// The kind of the filter element that opens at `k`, if one does.
pub open spec fn filter_at(t: Seq<char>, k: nat) -> Option<FilterType> {
    if tag_name(t, k) == Some("filter"@) && occurs_at(t, subtree_attr(), k + 7 as int) {
        Some(FilterType::Subtree)
    } else {
        None
    }
}

/// The filter of a `get` or `get-config` request: its kind when the request
/// has one.
pub open spec fn read_filter(t: Seq<char>) -> Option<FilterType> {
    match body_start(t) {
        None => None,
        Some(b) => match tag_name(t, b) {
            None => None,
            Some(op) => {
                let k = b + op.len() + 2;
                if op == "get"@ {
                    filter_at(t, k)
                } else if op == "get-config"@ {
                    match tag_name(t, k) {
                        Some(w) => match tag_name(t, k + w.len() + 2) {
                            Some(n) => filter_at(t, k + 2 * w.len() + n.len() + 8),
                            None => None,
                        },
                        None => None,
                    }
                } else {
                    None
                }
            },
        },
    }
}

/// The kind of a request's filter, when it has one.
pub open spec fn filter_kind(f: Option<Filter>) -> Option<FilterType> {
    match f {
        Some(f) => Some(f.filter_type),
        None => None,
    }
}

fn filter_in(t: &str, k: usize) -> (r: Option<FilterType>)
    ensures
        r == filter_at(t@, k as nat),
{
    proof {
        reveal_strlit("filter");
        reveal_strlit(" type=\"subtree\"");
    }
    assert(" type=\"subtree\""@ =~= subtree_attr());
    assert("filter"@ =~= seq!['f', 'i', 'l', 't', 'e', 'r']);
    let e = match tag_end(t, k) {
        Some(e) => e,
        None => return None,
    };
    if !spells(t, k + 1, e, "filter") {
        return None;
    }
    assert(e == k + 7);
    if chars_match_at(t, " type=\"subtree\"", e) {
        Some(FilterType::Subtree)
    } else {
        None
    }
}

/// Reads the filter kind of an encoded `get` or `get-config` request.
pub fn read_request_filter(text: &str) -> (r: Option<FilterType>)
    ensures
        r == read_filter(text@),
{
    let n: usize = text.unicode_len();
    proof {
        reveal_strlit(">");
        reveal_strlit("get");
        reveal_strlit("get-config");
    }
    assert(">"@ =~= seq!['>']);
    let b = match find_str(text, ">", 17) {
        Some(j) => {
            proof {
                lemma_first_from_occurs(text@, seq!['>'], 17);
                reveal_strlit("<rpc message-id=\"");
            }
            j + 1
        },
        None => {
            proof {
                reveal_strlit("<rpc message-id=\"");
            }
            return None;
        },
    };
    proof {
        reveal_strlit("<rpc message-id=\"");
    }
    assert(rpc_prefix().len() == 17);
    let op_end = match tag_end(text, b) {
        Some(e) => e,
        None => return None,
    };
    if op_end >= n {
        return None;
    }
    let k = op_end + 1;
    assert(k == b + (op_end - (b + 1)) + 2);
    if spells(text, b + 1, op_end, "get") {
        filter_in(text, k)
    } else if spells(text, b + 1, op_end, "get-config") {
        let w_end = match tag_end(text, k) {
            Some(e) => e,
            None => return None,
        };
        if w_end >= n {
            return None;
        }
        let k2 = w_end + 1;
        let d_end = match tag_end(text, k2) {
            Some(e) => e,
            None => return None,
        };
        let w_len = w_end - (k + 1);
        let d_len = d_end - (k2 + 1);
        let skip: u128 = k as u128 + 2 * (w_len as u128) + d_len as u128 + 8;
        if skip > n as u128 {
            return None;
        }
        filter_in(text, skip as usize)
    } else {
        None
    }
}

/// How a filter element begins.
proof fn lemma_filter_start(kind: FilterType, body: Seq<char>)
    ensures
        opt_filter_xml(Some((kind, body))).len() >= 22,
        opt_filter_xml(Some((kind, body))).subrange(0, 22) == seq!['<'] + "filter"@ + subtree_attr(),
{
    reveal_strlit("<");
    reveal_strlit("filter");
    reveal_strlit("type");
    reveal_strlit("subtree");
    reveal_strlit(" ");
    reveal_strlit("=\"");
    reveal_strlit("\"");
    lemma_escape_plain("subtree"@);
    let a = attribute("type"@, filter_type_name(kind));
    assert(a =~= subtree_attr());
    let x = opt_filter_xml(Some((kind, body)));
    assert(x.subrange(0, 22) =~= seq!['<'] + "filter"@ + subtree_attr());
}

/// A filter element at the end of `pre` reads back as its kind.
proof fn lemma_filter_present(
    t: Seq<char>,
    b: nat,
    whole: Seq<char>,
    pre: Seq<char>,
    kind: FilterType,
    body: Seq<char>,
    post: Seq<char>,
)
    requires
        b + whole.len() <= t.len(),
        t.subrange(b as int, (b + whole.len()) as int) == whole,
        whole == pre + opt_filter_xml(Some((kind, body))) + post,
    ensures
        filter_at(t, b + pre.len()) == Some(kind),
{
    reveal_strlit("filter");
    lemma_filter_start(kind, body);
    let f = opt_filter_xml(Some((kind, body)));
    let k = b + pre.len();
    assert forall|i: int| 0 <= i < 22 implies #[trigger] t[k + i] == f.subrange(0, 22)[i] by {
        assert(t[k + i] == t.subrange(b as int, (b + whole.len()) as int)[pre.len() + i]);
        assert(whole[pre.len() + i] == f[i]);
    }
    let g = seq!['<'] + "filter"@ + subtree_attr();
    assert(t.subrange(k as int, k + 8 as int) =~= seq!['<'] + "filter"@ + seq![' ']) by {
        assert forall|i: int| 0 <= i < 8 implies #[trigger] t.subrange(k as int, k + 8 as int)[i] == g[i] by {
            assert(t[k + i] == f.subrange(0, 22)[i]);
        }
    }
    assert(name_chars("filter"@));
    lemma_tag_name(t, k, "filter"@, ' ');
    assert(t.subrange(k + 7 as int, k + 22 as int) =~= subtree_attr()) by {
        assert forall|i: int| 0 <= i < 15 implies #[trigger] t.subrange(k + 7 as int, k + 22 as int)[i] == g[7 + i] by {
            assert(t[k + (7 + i)] == f.subrange(0, 22)[7 + i]);
            assert(t[k + 7 + i] == f.subrange(0, 22)[7 + i]);
        }
    }
    match kind {
        FilterType::Subtree => {},
    }
}

/// A closing tag at the end of `pre` is no filter.
proof fn lemma_filter_absent(t: Seq<char>, b: nat, whole: Seq<char>, pre: Seq<char>, c: char)
    requires
        b + whole.len() <= t.len(),
        t.subrange(b as int, (b + whole.len()) as int) == whole,
        pre.len() + 2 <= whole.len(),
        whole[pre.len() as int] == '<',
        whole[pre.len() + 1 as int] == c,
        !is_name_char(c),
    ensures
        filter_at(t, b + pre.len()) is None,
{
    reveal_strlit("filter");
    let k = b + pre.len();
    assert(whole.subrange(pre.len() as int, pre.len() + 2 as int) =~= seq!['<'] + Seq::<char>::empty()
        + seq![c]);
    assert(name_chars(Seq::<char>::empty()));
    lemma_tag_at(t, b, whole, pre.len(), Seq::<char>::empty(), c);
    assert(Seq::<char>::empty() != "filter"@) by {
        assert("filter"@.len() == 6);
    }
}

/// Round trip of the filter of a `get` request: whatever follows the
/// envelope, the kind of its filter reads back, and no filter reads back as
/// none.
#[verifier::rlimit(40)]
pub proof fn lemma_get_filter_round_trip(r: GetReq, rest: Seq<char>)
    ensures
        read_filter(get_req_xml(r) + rest) == filter_kind(r.get.filter),
{
    lemma_operation_names();
    reveal_strlit("<");
    reveal_strlit(">");
    reveal_strlit("/>");
    reveal_strlit("</");
    reveal_strlit("get");
    assert("get"@ =~= seq!['g', 'e', 't']);
    let f = opt_filter_xml(filter_view(r.get.filter));
    let op = "get"@;
    let body = element(op, seq![], f);
    let t = get_req_xml(r) + rest;
    assert(body.len() > 0);
    lemma_body_start(r.message_id, r.xmlns@, body, rest);
    let b = rpc_open(r.message_id, r.xmlns@).len();
    match r.get.filter {
        Some(x) => {
            lemma_filter_start(x.filter_type, x.data@);
            let pre = seq!['<'] + op + seq!['>'];
            let post = seq!['<', '/'] + op + seq!['>'];
            assert(body =~= pre + f + post);
            assert(body.subrange(0, 5) =~= seq!['<'] + op + seq!['>']);
            lemma_tag_at(t, b, body, 0, op, '>');
            lemma_filter_present(t, b, body, pre, x.filter_type, x.data@, post);
        },
        None => {
            assert(body =~= seq!['<'] + op + seq!['/', '>']);
            assert(body.subrange(0, 5) =~= seq!['<'] + op + seq!['/']);
            lemma_tag_at(t, b, body, 0, op, '/');
            assert(t[b + 5 as int] == body[5]);
            assert(tag_name(t, b + 5) is None);
        },
    }
}

/// A `get-config` body up to its filter.
pub open spec fn get_config_head(d: DatastoreType) -> Seq<char> {
    seq!['<'] + "get-config"@ + seq!['>'] + seq!['<'] + "source"@ + seq!['>'] + seq!['<']
        + datastore_name(d) + seq!['/', '>'] + seq!['<', '/'] + "source"@ + seq!['>']
}

#[verifier::rlimit(40)]
proof fn lemma_get_config_shape(d: DatastoreType, f: Seq<char>)
    ensures
        element("get-config"@, seq![], element("source"@, seq![], datastore_xml(d)) + f)
            == get_config_head(d) + f + (seq!['<', '/'] + "get-config"@ + seq!['>']),
        element("get-config"@, seq![], element("source"@, seq![], datastore_xml(d)) + f)
            == seq!['<'] + "get-config"@ + seq!['>'] + seq!['<'] + "source"@ + seq!['>']
            + seq!['<'] + datastore_name(d) + seq!['/'] + (seq!['>'] + seq!['<', '/'] + "source"@
            + seq!['>'] + f + (seq!['<', '/'] + "get-config"@ + seq!['>'])),
        get_config_head(d).len() == "get-config"@.len() + 2 + 2 * "source"@.len()
            + datastore_name(d).len() + 8,
{
    reveal_strlit("<");
    reveal_strlit(">");
    reveal_strlit("/>");
    reveal_strlit("</");
    assert("<"@ =~= seq!['<']);
    assert(">"@ =~= seq!['>']);
    assert("/>"@ =~= seq!['/', '>']);
    assert("</"@ =~= seq!['<', '/']);
    let n = datastore_name(d);
    assert(datastore_xml(d) =~= seq!['<'] + n + seq!['/', '>']);
    let src = element("source"@, seq![], datastore_xml(d));
    assert(src =~= seq!['<'] + "source"@ + seq!['>'] + datastore_xml(d) + seq!['<', '/']
        + "source"@ + seq!['>']);
    let body = element("get-config"@, seq![], src + f);
    assert(body =~= seq!['<'] + "get-config"@ + seq!['>'] + (src + f) + seq!['<', '/']
        + "get-config"@ + seq!['>']);
    assert(body =~= get_config_head(d) + f + (seq!['<', '/'] + "get-config"@ + seq!['>']));
    assert(body =~= seq!['<'] + "get-config"@ + seq!['>'] + seq!['<'] + "source"@ + seq!['>']
        + seq!['<'] + n + seq!['/'] + (seq!['>'] + seq!['<', '/'] + "source"@ + seq!['>'] + f + (
    seq!['<', '/'] + "get-config"@ + seq!['>'])));
}

/// The reading of the filter of a `get-config` body standing at `b`.
#[verifier::rlimit(60)]
proof fn lemma_get_config_filter_reading(
    t: Seq<char>,
    b: nat,
    d: DatastoreType,
    filter: Option<Filter>,
)
    requires
        ({
            let f = opt_filter_xml(filter_view(filter));
            let body = element(
                "get-config"@,
                seq![],
                element("source"@, seq![], datastore_xml(d)) + f,
            );
            &&& b + body.len() <= t.len()
            &&& t.subrange(b as int, (b + body.len()) as int) == body
        }),
        body_start(t) == Some(b),
    ensures
        read_filter(t) == filter_kind(filter),
{
    reveal_strlit("get-config");
    reveal_strlit("source");
    reveal_strlit("get");
    assert(name_chars("get-config"@));
    assert(name_chars("source"@));
    assert("get-config"@ != "get"@) by {
        assert("get-config"@.len() != "get"@.len());
    }
    let op = "get-config"@;
    let w = "source"@;
    let n = datastore_name(d);
    lemma_datastore_names(d);
    let f = opt_filter_xml(filter_view(filter));
    let body = element(op, seq![], element(w, seq![], datastore_xml(d)) + f);
    lemma_get_config_shape(d, f);
    let head = get_config_head(d);
    let post = seq!['<', '/'] + op + seq!['>'];
    let p = seq!['<'] + op + seq!['>'] + seq!['<'] + w + seq!['>'] + seq!['<'] + n + seq!['/'];
    let q = seq!['>'] + seq!['<', '/'] + w + seq!['>'] + f + post;
    lemma_prefix_at(t, b, body, p, q);
    lemma_datastore_body(t, b, op, w, d);
    let k = b + op.len() + 2;
    assert(tag_name(t, k + w.len() + 2) == Some(n));
    match filter {
        Some(x) => {
            lemma_filter_present(t, b, body, head, x.filter_type, x.data@, post);
        },
        None => {
            assert(f =~= Seq::<char>::empty());
            assert(body =~= head + post);
            assert(body[head.len() as int] == '<');
            assert(body[head.len() + 1 as int] == '/');
            lemma_filter_absent(t, b, body, head, '/');
        },
    }
}

/// Round trip of the filter of a `get-config` request: whatever follows the
/// envelope, the kind of its filter reads back, and no filter reads back as
/// none.
pub proof fn lemma_get_config_filter_round_trip(r: GetConfigReq, rest: Seq<char>)
    ensures
        read_filter(get_config_req_xml(r) + rest) == filter_kind(r.get_config.filter),
{
    let d = r.get_config.source.target;
    let f = opt_filter_xml(filter_view(r.get_config.filter));
    let body = element("get-config"@, seq![], element("source"@, seq![], datastore_xml(d)) + f);
    assert(get_config_req_xml(r) == rpc_xml(r.message_id, r.xmlns@, body));
    lemma_get_config_shape(d, f);
    lemma_body_start(r.message_id, r.xmlns@, body, rest);
    let t = get_config_req_xml(r) + rest;
    let b = rpc_open(r.message_id, r.xmlns@).len();
    lemma_get_config_filter_reading(t, b, d, r.get_config.filter);
}

/// The index just past the `edit-config` directives written from `k` on.
pub open spec fn after_directives(t: Seq<char>, k: nat) -> nat {
    let k1 = match text_element_at(t, k, "default-operation"@) {
        Some((_, next)) => next,
        None => k,
    };
    let k2 = match text_element_at(t, k1, "test-option"@) {
        Some((_, next)) => next,
        None => k1,
    };
    match text_element_at(t, k2, "error-option"@) {
        Some((_, next)) => next,
        None => k2,
    }
}

/// ` xmlns:xc="`
pub open spec fn xc_open() -> Seq<char> {
    seq![' ', 'x', 'm', 'l', 'n', 's', ':', 'x', 'c', '=', '"']
}

/// The `xmlns:xc` attribute of the `config` element that opens at `k`,
/// unescaped: `Some(None)` when the element has none, `None` when no
/// `config` element opens there.
pub open spec fn config_xc_at(t: Seq<char>, k: nat) -> Option<Option<Seq<char>>> {
    if tag_name(t, k) == Some("config"@) {
        if occurs_at(t, xc_open(), k + 7 as int) {
            match first_from(t, seq!['"'], k + 18) {
                Some(e) => Some(Some(xml_unescape(t.subrange(k + 18 as int, e as int)))),
                None => None,
            }
        } else {
            Some(None)
        }
    } else {
        None
    }
}

/// The `xmlns:xc` attribute of the `config` element of an `edit-config`
/// request, or of a `copy-config` request whose source is inline.
pub open spec fn read_config_xc(t: Seq<char>) -> Option<Option<Seq<char>>> {
    match body_start(t) {
        None => None,
        Some(b) => match tag_name(t, b) {
            None => None,
            Some(op) => {
                let k = b + op.len() + 2;
                match tag_name(t, k) {
                    None => None,
                    Some(w) => match tag_name(t, k + w.len() + 2) {
                        None => None,
                        Some(n) => {
                            let p = k + 2 * w.len() + n.len() + 8;
                            if op == "edit-config"@ {
                                config_xc_at(t, after_directives(t, p))
                            } else if op == "copy-config"@ {
                                match tag_name(t, p) {
                                    Some(sw) => config_xc_at(t, p + sw.len() + 2),
                                    None => None,
                                }
                            } else {
                                None
                            }
                        },
                    },
                }
            },
        },
    }
}

/// The view of a `config` element's `xmlns:xc` attribute.
pub open spec fn xc_view(d: Data) -> Option<Seq<char>> {
    data_view(d).0
}

/// A `config` element at the end of `pre` reads back its `xmlns:xc`, unless
/// that attribute is present but empty, which the encoding leaves out.
#[verifier::rlimit(40)]
proof fn lemma_config_xc(
    t: Seq<char>,
    b: nat,
    whole: Seq<char>,
    pre: Seq<char>,
    cv: (Option<Seq<char>>, Seq<char>),
    post: Seq<char>,
)
    requires
        b + whole.len() <= t.len(),
        t.subrange(b as int, (b + whole.len()) as int) == whole,
        whole == pre + data_xml(cv) + post,
        cv.0 matches Some(x) ==> x.len() > 0,
    ensures
        config_xc_at(t, b + pre.len()) == Some(cv.0),
{
    reveal_strlit("<");
    reveal_strlit(">");
    reveal_strlit("/>");
    reveal_strlit("</");
    reveal_strlit("config");
    reveal_strlit("xmlns:xc");
    reveal_strlit(" ");
    reveal_strlit("=\"");
    reveal_strlit("\"");
    let x = data_xml(cv);
    let k = b + pre.len();
    assert(name_chars("config"@));
    assert forall|i: int| 0 <= i < x.len() implies #[trigger] t[k + i] == x[i] by {
        assert(t[k + i] == t.subrange(b as int, (b + whole.len()) as int)[pre.len() + i]);
        assert(whole[pre.len() + i] == x[i]);
    }
    match cv.0 {
        None => {
            let c = x[7];
            assert(c == '/' || c == '>');
            assert(x.subrange(0, 8) =~= seq!['<'] + "config"@ + seq![c]);
            assert(t.subrange(k as int, k + 8 as int) =~= seq!['<'] + "config"@ + seq![c]) by {
                assert forall|i: int| 0 <= i < 8 implies #[trigger] t.subrange(k as int, k + 8 as int)[i]
                    == x[i] by {
                    assert(t[k + i] == x[i]);
                }
            }
            lemma_tag_name(t, k, "config"@, c);
            assert(!occurs_at(t, xc_open(), k + 7 as int)) by {
                if occurs_at(t, xc_open(), k + 7 as int) {
                    assert(t.subrange(k + 7 as int, k + 18 as int)[0] == t[k + 7 as int]);
                    assert(t[k + 7 as int] == x[7]);
                }
            }
        },
        Some(v) => {
            let esc = xml_escape(v);
            lemma_escape_no_quote(v);
            assert(esc.len() > 0);
            assert(attribute("xmlns:xc"@, v) =~= xc_open() + esc + seq!['"']);
            let head = seq!['<'] + "config"@ + xc_open() + esc + seq!['"'];
            assert(x.subrange(0, head.len() as int) =~= head);
            assert forall|i: int| 0 <= i < head.len() implies #[trigger] t[k + i] == head[i] by {
                assert(t[k + i] == x[i]);
                assert(x[i] == x.subrange(0, head.len() as int)[i]);
            }
            assert(t.subrange(k as int, k + 8 as int) =~= seq!['<'] + "config"@ + seq![' ']) by {
                assert forall|i: int| 0 <= i < 8 implies #[trigger] t.subrange(k as int, k + 8 as int)[i]
                    == head[i] by {
                    assert(t[k + i] == head[i]);
                }
            }
            lemma_tag_name(t, k, "config"@, ' ');
            assert(t.subrange(k + 7 as int, k + 18 as int) =~= xc_open()) by {
                assert forall|i: int| 0 <= i < 11 implies #[trigger] t.subrange(k + 7 as int, k + 18 as int)[i]
                    == head[7 + i] by {
                    assert(t[k + (7 + i)] == head[7 + i]);
                }
            }
            let s = k + 18;
            let e = s + esc.len();
            assert(t.subrange(s as int, e as int) =~= esc) by {
                assert forall|i: int| 0 <= i < esc.len() implies #[trigger] t.subrange(s as int, e as int)[i]
                    == esc[i] by {
                    assert(t[k + (18 + i)] == head[18 + i]);
                }
            }
            assert(t[e as int] == '"') by {
                assert(t[k + (18 + esc.len()) as int] == head[18 + esc.len() as int]);
            }
            assert(t.subrange(e as int, e + 1 as int) =~= seq!['"']);
            assert forall|i: int| s <= i < e implies !occurs_at(t, seq!['"'], i) by {
                assert(t[i] == t.subrange(s as int, e as int)[i - s]);
                if occurs_at(t, seq!['"'], i) {
                    assert(t.subrange(i, i + 1)[0] == t[i]);
                }
            }
            lemma_first_from_at(t, seq!['"'], s, e);
            lemma_unescape_escape(v);
        },
    }
}

/// The reading of the `xmlns:xc` of an `edit-config` body standing at `b`.
#[verifier::rlimit(60)]
proof fn lemma_edit_xc_reading(t: Seq<char>, b: nat, e: EditConfig)
    requires
        ({
            let x = default_operation_xml(e.default_operation) + test_option_xml(e.test_option)
                + error_option_xml(e.error_option) + data_xml(data_view(e.config));
            let body = element(
                "edit-config"@,
                seq![],
                element("target"@, seq![], datastore_xml(e.target.target)) + x,
            );
            &&& b + body.len() <= t.len()
            &&& t.subrange(b as int, (b + body.len()) as int) == body
        }),
        body_start(t) == Some(b),
        xc_view(e.config) matches Some(x) ==> x.len() > 0,
    ensures
        read_config_xc(t) == Some(xc_view(e.config)),
{
    lemma_edit_names();
    let d = e.target.target;
    let n = datastore_name(d);
    lemma_datastore_names(d);
    let op = "edit-config"@;
    let w = "target"@;
    let dd = default_operation_xml(e.default_operation);
    let tt = test_option_xml(e.test_option);
    let ee = error_option_xml(e.error_option);
    let cc = data_xml(data_view(e.config));
    let x = dd + tt + ee + cc;
    let body = element(op, seq![], element(w, seq![], datastore_xml(d)) + x);
    lemma_edit_body_shape(d, x);
    let h = edit_head(d);
    let p = seq!['<'] + op + seq!['>'] + seq!['<'] + w + seq!['>'] + seq!['<'] + n + seq!['/'];
    let q = seq!['>'] + seq!['<', '/'] + w + seq!['>'] + x + edit_tail();
    lemma_prefix_at(t, b, body, p, q);
    lemma_datastore_body(t, b, op, w, d);
    lemma_edit_slots(t, b, body, h, e);
    assert(body =~= (h + dd + tt + ee) + cc + edit_tail());
    lemma_config_xc(t, b, body, h + dd + tt + ee, data_view(e.config), edit_tail());
    assert(b + op.len() + 2 + 2 * w.len() + n.len() + 8 == b + h.len());
}

/// Round trip of the `xmlns:xc` attribute of an `edit-config` request's
/// `config` element: it reads back, whatever follows the envelope, unless it
/// is present but empty (the encoding leaves an empty attribute out).
pub proof fn lemma_edit_config_xc_round_trip(r: EditConfigReq, rest: Seq<char>)
    requires
        xc_view(r.edit_config.config) matches Some(x) ==> x.len() > 0,
    ensures
        read_config_xc(edit_config_req_xml(r) + rest) == Some(xc_view(r.edit_config.config)),
{
    let e = r.edit_config;
    let x = default_operation_xml(e.default_operation) + test_option_xml(e.test_option)
        + error_option_xml(e.error_option) + data_xml(data_view(e.config));
    let body = element(
        "edit-config"@,
        seq![],
        element("target"@, seq![], datastore_xml(e.target.target)) + x,
    );
    lemma_edit_envelope(r);
    lemma_edit_body_shape(e.target.target, x);
    lemma_body_start(r.message_id, r.xmlns@, body, rest);
    let t = edit_config_req_xml(r) + rest;
    let b = rpc_open(r.message_id, r.xmlns@).len();
    lemma_edit_xc_reading(t, b, e);
}

/// The reading of the `xmlns:xc` of an inline `copy-config` source, the body
/// standing at `b`.
#[verifier::rlimit(60)]
proof fn lemma_copy_xc_reading(t: Seq<char>, b: nat, d: DatastoreType, config: Data)
    requires
        ({
            let body = copy_head(d) + data_xml(data_view(config)) + copy_tail();
            &&& b + body.len() <= t.len()
            &&& t.subrange(b as int, (b + body.len()) as int) == body
        }),
        body_start(t) == Some(b),
        xc_view(config) matches Some(x) ==> x.len() > 0,
    ensures
        read_config_xc(t) == Some(xc_view(config)),
{
    lemma_copy_names();
    lemma_edit_names();
    let n = datastore_name(d);
    lemma_datastore_names(d);
    let view = CopySourceView::Config(data_view(config));
    let (nm, c) = lemma_copy_source_start(view);
    let body = copy_head(d) + data_xml(data_view(config)) + copy_tail();
    lemma_copy_tags(
        t,
        b,
        body,
        copy_head(d),
        copy_inner(view),
        copy_tail(),
        "copy-config"@,
        "target"@,
        n,
        "source"@,
        nm,
        c,
    );
    lemma_config_xc(t, b, body, copy_head(d), data_view(config), copy_tail());
    assert(copy_head(d).len() == "copy-config"@.len() + 2 * "target"@.len() + n.len()
        + "source"@.len() + 12);
    lemma_read_copy_xc(t, b, n, xc_view(config));
}

/// Round trip of the `xmlns:xc` attribute of an inline `copy-config` source:
/// it reads back, whatever follows the envelope, unless it is present but
/// empty.
pub proof fn lemma_copy_config_xc_round_trip(r: CopyConfigReq, rest: Seq<char>)
    requires
        r.copy_config.source matches CopyConfigSourceType::Config { config } ==> (xc_view(
            config,
        ) matches Some(x) ==> x.len() > 0),
    ensures
        r.copy_config.source matches CopyConfigSourceType::Config { config } ==> read_config_xc(
            copy_config_req_xml(r) + rest,
        ) == Some(xc_view(config)),
{
    if let CopyConfigSourceType::Config { config } = r.copy_config.source {
        let d = r.copy_config.target.target;
        let view = copy_source_view(r.copy_config.source);
        let body = element(
            "copy-config"@,
            seq![],
            element("target"@, seq![], datastore_xml(d)) + copy_source_xml(view),
        );
        lemma_copy_body_shape(d, view);
        assert(copy_config_req_xml(r) == rpc_xml(r.message_id, r.xmlns@, body));
        lemma_body_start(r.message_id, r.xmlns@, body, rest);
        lemma_copy_xc_reading(
            copy_config_req_xml(r) + rest,
            rpc_open(r.message_id, r.xmlns@).len(),
            d,
            config,
        );
    }
}

/// The reading of the `xmlns:xc` of a `copy-config` request whose tags stand
/// where its encoding puts them.
proof fn lemma_read_copy_xc(t: Seq<char>, b: nat, n: Seq<char>, v: Option<Seq<char>>)
    requires
        body_start(t) == Some(b),
        tag_name(t, b) == Some("copy-config"@),
        tag_name(t, b + "copy-config"@.len() + 2) == Some("target"@),
        tag_name(t, b + "copy-config"@.len() + "target"@.len() + 4) == Some(n),
        tag_name(t, b + "copy-config"@.len() + 2 * "target"@.len() + n.len() + 10)
            == Some("source"@),
        config_xc_at(
            t,
            b + "copy-config"@.len() + 2 * "target"@.len() + n.len() + "source"@.len() + 12,
        ) == Some(v),
        "copy-config"@ != "edit-config"@,
    ensures
        read_config_xc(t) == Some(v),
{
}

/// The view of an optional optional string.
pub open spec fn opt_opt_view(r: Option<Option<String>>) -> Option<Option<Seq<char>>> {
    match r {
        Some(Some(x)) => Some(Some(x@)),
        Some(None) => Some(None),
        None => None,
    }
}

fn after_directives_in(t: &str, k: usize) -> (r: Option<usize>)
    ensures
        match r {
            Some(v) => v == after_directives(t@, k as nat),
            None => after_directives(t@, k as nat) > t@.len(),
        },
{
    let n = t.unicode_len();
    proof {
        reveal_strlit("default-operation");
        reveal_strlit("test-option");
        reveal_strlit("error-option");
    }
    let k1 = match text_element_in(t, k, "default-operation") {
        Some((_, e)) => match past_close(e, "default-operation", n) {
            Some(v) => v,
            None => {
                assert(tag_name(t@, (e + "default-operation"@.len() + 3) as nat) is None);
                return None;
            },
        },
        None => k,
    };
    if k1 > n {
        assert(tag_name(t@, k1 as nat) is None);
        return None;
    }
    let k2 = match text_element_in(t, k1, "test-option") {
        Some((_, e)) => match past_close(e, "test-option", n) {
            Some(v) => v,
            None => {
                assert(tag_name(t@, (e + "test-option"@.len() + 3) as nat) is None);
                return None;
            },
        },
        None => k1,
    };
    match text_element_in(t, k2, "error-option") {
        Some((_, e)) => past_close(e, "error-option", n),
        None => Some(k2),
    }
}

fn config_xc_in(t: &str, k: usize) -> (r: Option<Option<String>>)
    ensures
        opt_opt_view(r) == config_xc_at(t@, k as nat),
{
    proof {
        reveal_strlit("config");
        reveal_strlit(" xmlns:xc=\"");
        reveal_strlit("\"");
    }
    assert("config"@ =~= seq!['c', 'o', 'n', 'f', 'i', 'g']);
    assert(" xmlns:xc=\""@ =~= xc_open());
    assert("\""@ =~= seq!['"']);
    let e = match tag_end(t, k) {
        Some(e) => e,
        None => return None,
    };
    if !spells(t, k + 1, e, "config") {
        return None;
    }
    assert(e == k + 7);
    let n = t.unicode_len();
    if e <= n && chars_match_at(t, " xmlns:xc=\"", e) {
        let q = match find_str(t, "\"", e + 11) {
            Some(q) => q,
            None => return None,
        };
        proof {
            lemma_first_from_occurs(t@, seq!['"'], (e + 11) as nat);
        }
        Some(Some(unescape_range(t, e + 11, q)))
    } else {
        Some(None)
    }
}

/// Reads the `xmlns:xc` attribute of the `config` element of an encoded
/// `edit-config` request, or of a `copy-config` request with an inline
/// source.
pub fn read_request_config_xc(text: &str) -> (r: Option<Option<String>>)
    ensures
        opt_opt_view(r) == read_config_xc(text@),
{
    let n: usize = text.unicode_len();
    proof {
        reveal_strlit(">");
        reveal_strlit("<rpc message-id=\"");
    }
    assert(">"@ =~= seq!['>']);
    assert(rpc_prefix().len() == 17);
    let b = match find_str(text, ">", 17) {
        Some(j) => {
            proof {
                lemma_first_from_occurs(text@, seq!['>'], 17);
            }
            j + 1
        },
        None => return None,
    };
    let op_end = match tag_end(text, b) {
        Some(e) => e,
        None => return None,
    };
    if op_end >= n {
        return None;
    }
    let k = op_end + 1;
    assert(k == b + (op_end - (b + 1)) + 2);
    let w_end = match tag_end(text, k) {
        Some(e) => e,
        None => return None,
    };
    if w_end >= n {
        return None;
    }
    let k2 = w_end + 1;
    let d_end = match tag_end(text, k2) {
        Some(e) => e,
        None => return None,
    };
    let w_len = w_end - (k + 1);
    let d_len = d_end - (k2 + 1);
    let skip: u128 = k as u128 + 2 * (w_len as u128) + d_len as u128 + 8;
    if skip > n as u128 {
        proof {
            assert(tag_name(text@, (k + 2 * w_len + d_len + 8) as nat) is None);
        }
        if spells(text, b + 1, op_end, "edit-config") {
            proof {
                assert(after_directives(text@, (k + 2 * w_len + d_len + 8) as nat) == (k + 2 * w_len
                    + d_len + 8) as nat) by {
                    reveal_strlit("default-operation");
                    reveal_strlit("test-option");
                    reveal_strlit("error-option");
                }
            }
        }
        return None;
    }
    let p = skip as usize;
    if spells(text, b + 1, op_end, "edit-config") {
        match after_directives_in(text, p) {
            Some(q) => config_xc_in(text, q),
            None => None,
        }
    } else if spells(text, b + 1, op_end, "copy-config") {
        let s_end = match tag_end(text, p) {
            Some(e) => e,
            None => return None,
        };
        if s_end >= n {
            return None;
        }
        config_xc_in(text, s_end + 1)
    } else {
        None
    }
}

/// The source datastore of a `copy-config` request, when it names one.
pub open spec fn copy_source_datastore(s: CopyConfigSourceType) -> Option<DatastoreType> {
    match s {
        CopyConfigSourceType::Datastore { source } => Some(source),
        CopyConfigSourceType::Config { .. } => None,
    }
}

/// A tag written at offset `off` of a text that stands at `b` reads back.
proof fn lemma_tag_at(t: Seq<char>, b: nat, body: Seq<char>, off: nat, name: Seq<char>, c: char)
    requires
        b + body.len() <= t.len(),
        t.subrange(b as int, (b + body.len()) as int) == body,
        off + name.len() + 2 <= body.len(),
        body.subrange(off as int, (off + name.len() + 2) as int) == seq!['<'] + name + seq![c],
        name_chars(name),
        !is_name_char(c),
    ensures
        tag_name(t, b + off) == Some(name),
{
    let k = b + off;
    assert(t.subrange(k as int, (k + name.len() + 2) as int) =~= seq!['<'] + name + seq![c]) by {
        assert forall|i: int| 0 <= i < name.len() + 2 implies #[trigger] t[k + i] == (seq!['<']
            + name + seq![c])[i] by {
            assert(t[k + i] == t.subrange(b as int, (b + body.len()) as int)[off + i]);
            assert(body[off + i] == body.subrange(off as int, (off + name.len() + 2) as int)[i]);
        }
    }
    lemma_tag_name(t, k, name, c);
}

/// How the content of a `copy-config` source begins: a tag whose name is
/// the datastore's or `config`, then a character that ends the name.
proof fn lemma_copy_source_start(s: CopySourceView) -> (r: (Seq<char>, char))
    ensures
        ({
            let inner = copy_inner(s);
            &&& inner.len() >= r.0.len() + 2
            &&& inner.subrange(0, r.0.len() + 2 as int) == seq!['<'] + r.0 + seq![r.1]
            &&& name_chars(r.0)
            &&& !is_name_char(r.1)
            &&& datastore_named(r.0) == match s {
                CopySourceView::Datastore(d) => Some(d),
                CopySourceView::Config(_) => None,
            }
            &&& s is Config ==> r.0 == "config"@
        }),
{
    reveal_strlit("<");
    reveal_strlit("/>");
    reveal_strlit(">");
    reveal_strlit(" ");
    reveal_strlit("config");
    reveal_strlit("running");
    reveal_strlit("candidate");
    reveal_strlit("startup");
    match s {
        CopySourceView::Datastore(d) => {
            lemma_datastore_names(d);
            let n = datastore_name(d);
            assert(datastore_xml(d) =~= seq!['<'] + n + seq!['/'] + seq!['>']);
            assert(datastore_xml(d).subrange(0, n.len() + 2 as int) =~= seq!['<'] + n + seq!['/']);
            (n, '/')
        },
        CopySourceView::Config(cv) => {
            let x = data_xml(cv);
            let attrs = match cv.0 {
                Some(v) => attribute("xmlns:xc"@, v),
                None => seq![],
            };
            let c = x[7];
            assert(x.subrange(0, 8) =~= seq!['<'] + "config"@ + seq![c]);
            assert(c == ' ' || c == '/' || c == '>') by {
                if attrs.len() > 0 {
                    assert(x[7] == attrs[0]);
                }
            }
            (("config"@), c)
        },
    }
}

/// The five tags of a `copy-config` body read back where they stand.
#[verifier::rlimit(60)]
proof fn lemma_copy_tags(
    t: Seq<char>,
    b: nat,
    body: Seq<char>,
    a: Seq<char>,
    inner: Seq<char>,
    z: Seq<char>,
    op: Seq<char>,
    w: Seq<char>,
    n: Seq<char>,
    sw: Seq<char>,
    nm: Seq<char>,
    c: char,
)
    requires
        b + body.len() <= t.len(),
        t.subrange(b as int, (b + body.len()) as int) == body,
        body == a + inner + z,
        a == seq!['<'] + op + seq!['>'] + seq!['<'] + w + seq!['>'] + seq!['<'] + n + seq!['/', '>']
            + seq!['<', '/'] + w + seq!['>'] + seq!['<'] + sw + seq!['>'],
        inner.len() >= nm.len() + 2,
        inner.subrange(0, nm.len() + 2 as int) == seq!['<'] + nm + seq![c],
        name_chars(op),
        name_chars(w),
        name_chars(n),
        name_chars(sw),
        name_chars(nm),
        !is_name_char(c),
    ensures
        tag_name(t, b) == Some(op),
        tag_name(t, b + op.len() + 2) == Some(w),
        tag_name(t, b + op.len() + w.len() + 4) == Some(n),
        tag_name(t, b + op.len() + 2 * w.len() + n.len() + 10) == Some(sw),
        tag_name(t, b + op.len() + 2 * w.len() + n.len() + sw.len() + 12) == Some(nm),
{
    let o1 = op.len() + 2;
    let o2 = o1 + w.len() + 2;
    let o3 = o1 + 2 * w.len() + n.len() + 8;
    let o4 = o3 + sw.len() + 2;
    assert(body.subrange(0, (op.len() + 2) as int) =~= seq!['<'] + op + seq!['>']);
    lemma_tag_at(t, b, body, 0, op, '>');
    assert(body.subrange(o1 as int, (o1 + w.len() + 2) as int) =~= seq!['<'] + w + seq!['>']);
    lemma_tag_at(t, b, body, o1, w, '>');
    assert(body.subrange(o2 as int, (o2 + n.len() + 2) as int) =~= seq!['<'] + n + seq!['/']);
    lemma_tag_at(t, b, body, o2, n, '/');
    assert(body.subrange(o3 as int, (o3 + sw.len() + 2) as int) =~= seq!['<'] + sw + seq!['>']);
    lemma_tag_at(t, b, body, o3, sw, '>');
    assert(o4 == a.len());
    assert(body.subrange(o4 as int, (o4 + nm.len() + 2) as int) =~= seq!['<'] + nm + seq![c]) by {
        assert forall|i: int| 0 <= i < nm.len() + 2 implies #[trigger] body[o4 + i] == inner[i] by {
            assert((a + inner + z)[a.len() + i] == inner[i]);
        }
        assert(inner.subrange(0, nm.len() + 2 as int) == seq!['<'] + nm + seq![c]);
    }
    lemma_tag_at(t, b, body, o4, nm, c);
}

/// The content of the `source` element of a `copy-config` request.
pub open spec fn copy_inner(v: CopySourceView) -> Seq<char> {
    match v {
        CopySourceView::Datastore(d) => datastore_xml(d),
        CopySourceView::Config(c) => data_xml(c),
    }
}

/// A `copy-config` body up to the content of its `source` element.
pub open spec fn copy_head(d: DatastoreType) -> Seq<char> {
    seq!['<'] + "copy-config"@ + seq!['>'] + seq!['<'] + "target"@ + seq!['>'] + seq!['<']
        + datastore_name(d) + seq!['/', '>'] + seq!['<', '/'] + "target"@ + seq!['>'] + seq!['<']
        + "source"@ + seq!['>']
}

/// A `copy-config` body after the content of its `source` element.
pub open spec fn copy_tail() -> Seq<char> {
    seq!['<', '/'] + "source"@ + seq!['>'] + seq!['<', '/'] + "copy-config"@ + seq!['>']
}

proof fn lemma_copy_names()
    ensures
        name_chars("copy-config"@),
        name_chars("target"@),
        name_chars("source"@),
        plain_operation("copy-config"@) is None,
        "copy-config"@ != "kill-session"@,
{
    reveal_strlit("copy-config");
    reveal_strlit("target");
    reveal_strlit("source");
    reveal_strlit("commit");
    reveal_strlit("discard-changes");
    reveal_strlit("close-session");
    reveal_strlit("get");
    reveal_strlit("kill-session");
    assert("copy-config"@.len() != "commit"@.len());
    assert("copy-config"@.len() != "discard-changes"@.len());
    assert("copy-config"@.len() != "close-session"@.len());
    assert("copy-config"@.len() != "get"@.len());
    assert("copy-config"@.len() != "kill-session"@.len());
}

/// The reading of a `copy-config` request whose tags stand where its
/// encoding puts them.
proof fn lemma_read_copy(t: Seq<char>, b: nat, d: DatastoreType, nm: Seq<char>)
    requires
        body_start(t) == Some(b),
        tag_name(t, b) == Some("copy-config"@),
        tag_name(t, b + "copy-config"@.len() + 2) == Some("target"@),
        tag_name(t, b + "copy-config"@.len() + "target"@.len() + 4) == Some(datastore_name(d)),
        tag_name(t, b + "copy-config"@.len() + 2 * "target"@.len() + datastore_name(d).len() + 10)
            == Some("source"@),
        tag_name(
            t,
            b + "copy-config"@.len() + 2 * "target"@.len() + datastore_name(d).len()
                + "source"@.len() + 12,
        ) == Some(nm),
        datastore_named(datastore_name(d)) == Some(d),
        plain_operation("copy-config"@) is None,
        "copy-config"@ != "kill-session"@,
    ensures
        read_operation(t) == Some(Operation::CopyConfig(d, datastore_named(nm))),
{
    let k = b + "copy-config"@.len() + 2;
    assert(nested_datastore(t, k) == Some(d));
    assert(following_datastore(t, k, d) == datastore_named(nm));
}

proof fn lemma_copy_inner_nonempty(v: CopySourceView)
    ensures
        copy_inner(v).len() > 0,
{
    reveal_strlit("<");
}

#[verifier::rlimit(40)]
proof fn lemma_copy_body_shape(d: DatastoreType, v: CopySourceView)
    ensures
        element(
            "copy-config"@,
            seq![],
            element("target"@, seq![], datastore_xml(d)) + copy_source_xml(v),
        ) == copy_head(d) + copy_inner(v) + copy_tail(),
{
    reveal_strlit("<");
    reveal_strlit(">");
    reveal_strlit("/>");
    reveal_strlit("</");
    assert("<"@ =~= seq!['<']);
    assert(">"@ =~= seq!['>']);
    assert("/>"@ =~= seq!['/', '>']);
    assert("</"@ =~= seq!['<', '/']);
    let n = datastore_name(d);
    assert(datastore_xml(d) =~= seq!['<'] + n + seq!['/', '>']);
    assert(element("target"@, seq![], datastore_xml(d)) =~= seq!['<'] + "target"@ + seq!['>']
        + datastore_xml(d) + seq!['<', '/'] + "target"@ + seq!['>']);
    lemma_copy_inner_nonempty(v);
    assert(copy_source_xml(v) =~= seq!['<'] + "source"@ + seq!['>'] + copy_inner(v) + seq!['<', '/']
        + "source"@ + seq!['>']);
    assert(element(
        "copy-config"@,
        seq![],
        element("target"@, seq![], datastore_xml(d)) + copy_source_xml(v),
    ) =~= copy_head(d) + copy_inner(v) + copy_tail());
}

/// Round trip of a `copy-config` request: whatever follows the envelope, its
/// message id, its operation, its target and, when the source is a
/// datastore, its source read back.
#[verifier::rlimit(60)]
pub proof fn lemma_copy_config_req_round_trip(r: CopyConfigReq, rest: Seq<char>)
    ensures
        read_message_id(copy_config_req_xml(r) + rest) == Some(r.message_id),
        read_operation(copy_config_req_xml(r) + rest) == Some(
            Operation::CopyConfig(
                r.copy_config.target.target,
                copy_source_datastore(r.copy_config.source),
            ),
        ),
{
    lemma_copy_names();
    let d = r.copy_config.target.target;
    let n = datastore_name(d);
    lemma_datastore_names(d);
    let view = copy_source_view(r.copy_config.source);
    let (nm, c) = lemma_copy_source_start(view);
    let body = element(
        "copy-config"@,
        seq![],
        element("target"@, seq![], datastore_xml(d)) + copy_source_xml(view),
    );
    lemma_copy_body_shape(d, view);
    assert(copy_config_req_xml(r) == rpc_xml(r.message_id, r.xmlns@, body));
    lemma_message_id_round_trip(r.message_id, r.xmlns@, body, rest);
    lemma_body_start(r.message_id, r.xmlns@, body, rest);
    let t = copy_config_req_xml(r) + rest;
    let b = rpc_open(r.message_id, r.xmlns@).len();
    lemma_copy_tags(
        t,
        b,
        body,
        copy_head(d),
        copy_inner(view),
        copy_tail(),
        "copy-config"@,
        "target"@,
        n,
        "source"@,
        nm,
        c,
    );
    lemma_read_copy(t, b, d, nm);
}

/// Round trip of a `commit` request: whatever follows the envelope, its
/// message id and its operation read back.
pub proof fn lemma_commit_req_round_trip(r: CommitReq, rest: Seq<char>)
    ensures
        read_message_id(commit_req_xml(r) + rest) == Some(r.message_id),
        read_operation(commit_req_xml(r) + rest) == Some(Operation::Commit),
{
    lemma_operation_names();
    let body = element("commit"@, seq![], seq![]);
    lemma_message_id_round_trip(r.message_id, r.xmlns@, body, rest);
    lemma_plain_request(r.message_id, r.xmlns@, "commit"@, seq![], rest);
}

/// Round trip of a `discard-changes` request: whatever follows the envelope, its
/// message id and its operation read back.
pub proof fn lemma_discard_changes_req_round_trip(r: DiscardChangesReq, rest: Seq<char>)
    ensures
        read_message_id(discard_changes_req_xml(r) + rest) == Some(r.message_id),
        read_operation(discard_changes_req_xml(r) + rest) == Some(Operation::DiscardChanges),
{
    lemma_operation_names();
    let body = element("discard-changes"@, seq![], seq![]);
    lemma_message_id_round_trip(r.message_id, r.xmlns@, body, rest);
    lemma_plain_request(r.message_id, r.xmlns@, "discard-changes"@, seq![], rest);
}

/// Round trip of a `close-session` request: whatever follows the envelope, its
/// message id and its operation read back.
pub proof fn lemma_close_session_req_round_trip(r: CloseSessionReq, rest: Seq<char>)
    ensures
        read_message_id(close_session_req_xml(r) + rest) == Some(r.message_id),
        read_operation(close_session_req_xml(r) + rest) == Some(Operation::CloseSession),
{
    lemma_operation_names();
    let body = element("close-session"@, seq![], seq![]);
    lemma_message_id_round_trip(r.message_id, r.xmlns@, body, rest);
    lemma_plain_request(r.message_id, r.xmlns@, "close-session"@, seq![], rest);
}

proof fn lemma_number_body_shape(op: Seq<char>, w: Seq<char>, v: u32)
    ensures
        element(op, seq![], element(w, seq![], decimal(v as nat))) == seq!['<'] + op + seq!['>']
            + seq!['<'] + w + seq!['>'] + decimal(v as nat) + seq!['<'] + (seq!['/'] + w + ">"@
            + "</"@ + op + ">"@),
{
    reveal_strlit("<");
    reveal_strlit(">");
    reveal_strlit("</");
    let dec = decimal(v as nat);
    lemma_decimal_digits(v as nat);
    assert(element(w, seq![], dec) =~= "<"@ + w + ">"@ + dec + "</"@ + w + ">"@);
    assert(element(op, seq![], element(w, seq![], dec)) =~= "<"@ + op + ">"@ + element(
        w,
        seq![],
        dec,
    ) + "</"@ + op + ">"@);
    assert(element(op, seq![], element(w, seq![], dec)) =~= seq!['<'] + op + seq!['>'] + seq!['<']
        + w + seq!['>'] + dec + seq!['<'] + (seq!['/'] + w + ">"@ + "</"@ + op + ">"@));
}

/// Where the body opens as `<op><w>` and a number closed by `<`, the
/// operation's name and the number read back.
#[verifier::rlimit(30)]
proof fn lemma_number_body(t: Seq<char>, b: nat, op: Seq<char>, w: Seq<char>, v: u32)
    requires
        name_chars(op),
        name_chars(w),
        b + op.len() + w.len() + decimal(v as nat).len() + 5 <= t.len(),
        t.subrange(b as int, (b + op.len() + w.len() + decimal(v as nat).len() + 5) as int)
            == seq!['<'] + op + seq!['>'] + seq!['<'] + w + seq!['>'] + decimal(v as nat)
            + seq!['<'],
    ensures
        tag_name(t, b) == Some(op),
        nested_number(t, b + op.len() + 2) == Some(v),
{
    let dec = decimal(v as nat);
    let p = seq!['<'] + op + seq!['>'] + seq!['<'] + w + seq!['>'] + dec + seq!['<'];
    let whole = t.subrange(b as int, (b + p.len()) as int);
    let k1 = b + op.len() + 2;
    let k2 = k1 + w.len() + 2;
    assert(t.subrange(b as int, (b + op.len() + 2) as int) =~= seq!['<'] + op + seq!['>']) by {
        assert forall|i: int| 0 <= i < op.len() + 2 implies #[trigger] t[b + i] == p[i] by {
            assert(t[b + i] == whole[i]);
        }
    }
    lemma_tag_name(t, b, op, '>');
    let s1 = seq!['<'] + w + seq!['>'];
    let o1: int = (op.len() + 2) as int;
    assert(p.subrange(o1, o1 + s1.len()) =~= s1);
    assert(t.subrange(k1 as int, (k1 + w.len() + 2) as int) =~= s1) by {
        assert forall|i: int| 0 <= i < s1.len() implies #[trigger] t[k1 + i] == s1[i] by {
            assert(t[k1 + i] == whole[o1 + i]);
            assert(p[o1 + i] == p.subrange(o1, o1 + s1.len())[i]);
        }
    }
    lemma_tag_name(t, k1, w, '>');
    let o2: int = (op.len() + w.len() + 4) as int;
    assert(p.subrange(o2, o2 + dec.len()) =~= dec);
    assert(t.subrange(k2 as int, (k2 + dec.len()) as int) =~= dec) by {
        assert forall|i: int| 0 <= i < dec.len() implies #[trigger] t[k2 + i] == dec[i] by {
            assert(t[k2 + i] == whole[o2 + i]);
            assert(p[o2 + i] == p.subrange(o2, o2 + dec.len())[i]);
        }
    }
    assert(t[(k2 + dec.len()) as int] == whole[p.len() - 1]);
    lemma_number_at(t, k2, v, '<');
}

/// Round trip of a `kill-session` request: whatever follows the envelope,
/// its message id, its operation and the session it names read back.
#[verifier::rlimit(30)]
pub proof fn lemma_kill_session_req_round_trip(r: KillSessionReq, rest: Seq<char>)
    ensures
        read_message_id(kill_session_req_xml(r) + rest) == Some(r.message_id),
        read_operation(kill_session_req_xml(r) + rest) == Some(
            Operation::KillSession(r.kill_session.session_id.value),
        ),
{
    lemma_operation_names();
    reveal_strlit("session-id");
    let v = r.kill_session.session_id.value;
    let op = "kill-session"@;
    let w = "session-id"@;
    assert(name_chars(w));
    let body = element(op, seq![], element(w, seq![], decimal(v as nat)));
    lemma_message_id_round_trip(r.message_id, r.xmlns@, body, rest);
    let p = seq!['<'] + op + seq!['>'] + seq!['<'] + w + seq!['>'] + decimal(v as nat) + seq!['<'];
    let q = seq!['/'] + w + ">"@ + "</"@ + op + ">"@;
    lemma_number_body_shape(op, w, v);
    lemma_body_start(r.message_id, r.xmlns@, body, rest);
    let t = kill_session_req_xml(r) + rest;
    let b = rpc_open(r.message_id, r.xmlns@).len();
    lemma_prefix_at(t, b, body, p, q);
    lemma_number_body(t, b, op, w, v);
}

/// Round trip of a `get` request: whatever follows the envelope, its
/// message id and its operation read back.
pub proof fn lemma_get_req_round_trip(r: GetReq, rest: Seq<char>)
    ensures
        read_message_id(get_req_xml(r) + rest) == Some(r.message_id),
        read_operation(get_req_xml(r) + rest) == Some(Operation::Get),
{
    lemma_operation_names();
    let body = element("get"@, seq![], opt_filter_xml(filter_view(r.get.filter)));
    lemma_message_id_round_trip(r.message_id, r.xmlns@, body, rest);
    lemma_plain_request(
        r.message_id,
        r.xmlns@,
        "get"@,
        opt_filter_xml(filter_view(r.get.filter)),
        rest,
    );
}

} // verus!
