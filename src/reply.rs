//! What the engine makes of a reply: success or the remote errors, and the
//! verbatim `data` payload of read replies.
use crate::errors::NetconfClientError;
use crate::models::replies::{GetConfigRsp, GetRsp, RpcError, RpcRsp};
use crate::text::{
    find_bytes, first_from, lemma_first_from_at, lemma_first_from_occurs, occurs_at,
    text_of_bytes, utf8_lossy,
};
use vstd::prelude::*;

verus! {

/// A reply that parsed but holds neither a success marker nor an error list.
pub const MISSING_OUTCOME: &'static str = "reply carries neither ok nor rpc-error";

/// `r` is the failure that carries exactly the remote errors `errs`.
pub open spec fn failed_with<T>(r: Result<T, NetconfClientError>, errs: Seq<RpcError>) -> bool {
    match r {
        Err(NetconfClientError::NetconfError { err }) => err@ == errs,
        _ => false,
    }
}

/// The reply reports success: its marker is there and no error list is.
pub open spec fn succeeded<T: RpcRsp>(rsp: &T) -> bool {
    rsp.has_ok_marker() && rsp.error_list() is None
}

/// Classifies a reply: any error list makes it a failure carrying that list;
/// otherwise it succeeds when it carries its success marker.
pub fn make_return<T: RpcRsp>(rsp: T) -> (r: Result<T, NetconfClientError>)
    ensures
        rsp.error_list() matches Some(errs) ==> failed_with(r, errs),
        rsp.error_list() is None && rsp.has_ok_marker() ==> r == Ok::<T, NetconfClientError>(rsp),
        rsp.error_list() is None && !rsp.has_ok_marker() ==> r matches Err(
            NetconfClientError::DecodeError { .. },
        ),
{
    if rsp.is_ok() {
        Ok(rsp)
    } else {
        match rsp.into_error() {
            Some(err) => Err(NetconfClientError::NetconfError { err }),
            None => Err(NetconfClientError::DecodeError { err: String::from_str(MISSING_OUTCOME) }),
        }
    }
}

/// `<data`
pub open spec fn data_open() -> Seq<u8> {
    seq![60u8, 100u8, 97u8, 116u8, 97u8]
}

/// `>`
pub open spec fn tag_close() -> Seq<u8> {
    seq![62u8]
}

/// `</data>`
pub open spec fn data_close() -> Seq<u8> {
    seq![60u8, 47u8, 100u8, 97u8, 116u8, 97u8, 62u8]
}

/// The payload of a reply: what lies between the `>` that ends the first
/// `<data` tag and the first `</data>`; empty when that tag closes itself
/// (`<data/>`); nothing when a tag is missing or the bounds cross.
pub open spec fn data_payload(t: Seq<u8>) -> Option<Seq<u8>> {
    match first_from(t, data_open(), 0) {
        None => None,
        Some(b) => match first_from(t, tag_close(), b) {
            None => None,
            Some(e) => if e > 0 && t[e - 1] == 47u8 {
                Some(Seq::<u8>::empty())
            } else {
                match first_from(t, data_close(), 0) {
                None => None,
                Some(c) => if e + 1 > c {
                    None
                } else {
                    Some(t.subrange(e + 1 as int, c as int))
                },
                }
            },
        },
    }
}

/// The view of an optional byte vector.
pub open spec fn opt_bytes(r: Option<Vec<u8>>) -> Option<Seq<u8>> {
    match r {
        Some(v) => Some(v@),
        None => None,
    }
}

/// Extracts the `data` payload of a reply byte for byte.
pub fn get_data(text: &[u8]) -> (r: Option<Vec<u8>>)
    ensures
        opt_bytes(r) == data_payload(text@),
{
    let open: [u8; 5] = [60u8, 100u8, 97u8, 116u8, 97u8];
    let close_tag: [u8; 1] = [62u8];
    let close: [u8; 7] = [60u8, 47u8, 100u8, 97u8, 116u8, 97u8, 62u8];
    assert(open@ =~= data_open());
    assert(close_tag@ =~= tag_close());
    assert(close@ =~= data_close());
    let b = match find_bytes(text, open.as_slice(), 0) {
        Some(b) => b,
        None => return None,
    };
    proof {
        lemma_first_from_occurs(text@, data_open(), 0);
    }
    let e = match find_bytes(text, close_tag.as_slice(), b) {
        Some(e) => e,
        None => return None,
    };
    proof {
        lemma_first_from_occurs(text@, tag_close(), b as nat);
    }
    if e > 0 && text[e - 1] == 47u8 {
        return Some(Vec::new());
    }
    let c = match find_bytes(text, close.as_slice(), 0) {
        Some(c) => c,
        None => return None,
    };
    proof {
        lemma_first_from_occurs(text@, data_close(), 0);
    }
    if e >= c {
        return None;
    }
    let mut out: Vec<u8> = Vec::new();
    let mut i: usize = e + 1;
    while i < c
        invariant
            e + 1 <= i <= c,
            c <= text@.len(),
            out@ == text@.subrange(e + 1, i as int),
        decreases c - i,
    {
        out.push(text[i]);
        i = i + 1;
        assert(out@ =~= text@.subrange(e + 1, i as int));
    }
    Some(out)
}

/// A reply holding `<data>` + `x` + `</data>`, with no `<data` before that
/// tag and no `</data>` before its close, yields exactly `x`.
pub proof fn lemma_data_payload_exact(pre: Seq<u8>, x: Seq<u8>, post: Seq<u8>)
    requires
        forall|i: int|
            0 <= i < pre.len() ==> !occurs_at(
                pre + data_open() + tag_close() + x + data_close() + post,
                data_open(),
                i,
            ),
        forall|i: int|
            0 <= i < pre.len() + 6 + x.len() ==> !occurs_at(
                pre + data_open() + tag_close() + x + data_close() + post,
                data_close(),
                i,
            ),
    ensures
        data_payload(pre + data_open() + tag_close() + x + data_close() + post) == Some(x),
{
    let t = pre + data_open() + tag_close() + x + data_close() + post;
    let b: int = pre.len() as int;
    let e: int = b + 5;
    let c: int = b + 6 + x.len();
    assert(t.subrange(b, b + 5) =~= data_open());
    lemma_first_from_at(t, data_open(), 0, b as nat);
    assert(t.subrange(e, e + 1) =~= tag_close());
    assert forall|i: int| b <= i < e implies !occurs_at(t, tag_close(), i) by {
        assert(t.subrange(i, i + 1)[0] == t[i]);
        assert(t[i] == data_open()[i - b]);
    }
    lemma_first_from_at(t, tag_close(), b as nat, e as nat);
    assert(t.subrange(c, c + 7) =~= data_close());
    lemma_first_from_at(t, data_close(), 0, c as nat);
    assert(t.subrange(e + 1, c) =~= x);
}

/// A reply whose first `<data` tag closes itself, as in `<data/>`, yields the
/// empty payload: present, not absent.
pub proof fn lemma_data_payload_self_closed(pre: Seq<u8>, post: Seq<u8>)
    requires
        forall|i: int|
            0 <= i < pre.len() ==> !occurs_at(
                pre + data_open() + seq![47u8] + tag_close() + post,
                data_open(),
                i,
            ),
    ensures
        data_payload(pre + data_open() + seq![47u8] + tag_close() + post) == Some(
            Seq::<u8>::empty(),
        ),
{
    let t = pre + data_open() + seq![47u8] + tag_close() + post;
    let b: int = pre.len() as int;
    let e: int = b + 6;
    assert(t.subrange(b, b + 5) =~= data_open());
    lemma_first_from_at(t, data_open(), 0, b as nat);
    assert(t.subrange(e, e + 1) =~= tag_close());
    assert forall|i: int| b <= i < e implies !occurs_at(t, tag_close(), i) by {
        assert(t.subrange(i, i + 1)[0] == t[i]);
        if i < b + 5 {
            assert(t[i] == data_open()[i - b]);
        } else {
            assert(t[i] == 47u8);
        }
    }
    lemma_first_from_at(t, tag_close(), b as nat, e as nat);
    assert(t[e - 1] == 47u8);
}

/// Fills a `get-config` reply's `data` from the reply text: the payload when
/// there is one, the empty text otherwise; then classifies it.
pub fn finish_get_config(rsp: GetConfigRsp, text: &[u8]) -> (r: Result<
    GetConfigRsp,
    NetconfClientError,
>)
    ensures
        ({
            let data = match data_payload(text@) {
                Some(p) => utf8_lossy(p),
                None => utf8_lossy(Seq::<u8>::empty()),
            };
            &&& rsp.rpc_error matches Some(errs) ==> failed_with(r, errs@)
            &&& rsp.rpc_error is None ==> (r matches Ok(g) && g.message_id == rsp.message_id
                && g.xmlns == rsp.xmlns && g.rpc_error is None && (g.data matches Some(d)
                && d@ == data))
        }),
{
    let mut rsp = rsp;
    let payload = match get_data(text) {
        Some(p) => p,
        None => Vec::new(),
    };
    rsp.data = Some(text_of_bytes(payload.as_slice()));
    make_return(rsp)
}

/// Fills a `get` reply's `data` from the reply text: the payload, or nothing
/// when the reply holds none; then classifies it.
pub fn finish_get(rsp: GetRsp, text: &[u8]) -> (r: Result<GetRsp, NetconfClientError>)
    ensures
        rsp.rpc_error matches Some(errs) ==> failed_with(r, errs@),
        rsp.rpc_error is None ==> (r matches Ok(g) && g.message_id == rsp.message_id && g.xmlns
            == rsp.xmlns && g.rpc_error is None && match data_payload(text@) {
            Some(p) => (g.data matches Some(d) && d@ == utf8_lossy(p)),
            None => g.data is None,
        }),
{
    let mut rsp = rsp;
    rsp.data = match get_data(text) {
        Some(p) => Some(text_of_bytes(p.as_slice())),
        None => None,
    };
    make_return(rsp)
}

} // verus!
