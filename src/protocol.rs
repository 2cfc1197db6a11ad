//! The request and response records of the node's two calls, and the
//! error kinds a call can end in.

use vstd::prelude::*;

verus! {

/// The verbs a request can carry.
#[derive(PartialEq, Eq, Structural, Debug, Clone, Copy)]
pub enum RedisCommand {
    Ping,
    Get,
    SetKey,
    Del,
    Publish,
    Subscribe,
    Fetch,
    Multi,
    Watch,
    Exec,
    Replicaof,
    Sync,
    SyncGot,
    ClusterMeet,
    ClusterAddSlots,
    ClusterCreate,
}

/// A request: a verb, its arguments, the id of the primary that forwards
/// it (if any) and the transaction it belongs to (if any).
pub struct GetItemRequest {
    pub cmd: RedisCommand,
    pub args: Option<Vec<String>>,
    pub client_id: Option<String>,
    pub transaction_id: Option<String>,
}

/// A reply to one request.
pub struct GetItemResponse {
    pub ok: bool,
    pub data: Option<String>,
}

/// The reply to EXEC: one reply per buffered request.
pub struct MultiGetItemResponse {
    pub ok: bool,
    pub data: Option<Vec<GetItemResponse>>,
}

/// Why a request failed.
#[derive(PartialEq, Eq, Structural, Debug, Clone, Copy)]
pub enum CmdError {
    /// The number of arguments does not fit the verb.
    ArgCount,
    /// The expiry unit is neither EX nor PX, or its number is unusable.
    BadExpiry,
    /// FETCH names no subscriber of this node.
    UnknownHandle,
    /// The request names no open transaction.
    TransactionUnknown,
    /// WATCH names a key the transaction already watches.
    AlreadyWatched,
    /// EXEC found a watched key changed since WATCH.
    TransactionConflict,
    /// The node's role forbids the request.
    RoleForbidden,
    /// The node is shutting down.
    Shutting,
    /// The node does not implement the verb.
    Unsupported,
    /// A host/port pair or a follower id is unusable, or SYNC drew no id
    /// that is free.
    BadAddress,
    /// A snapshot payload does not decode.
    BadSnapshot,
}

/// A request as plain values.
pub ghost struct RequestView {
    pub cmd: RedisCommand,
    pub args: Option<Seq<Seq<char>>>,
    pub client_id: Option<Seq<char>>,
    pub transaction_id: Option<Seq<char>>,
}

/// A reply as plain values.
pub ghost struct ResponseView {
    pub ok: bool,
    pub data: Option<Seq<char>>,
}

pub open spec fn strings_view(v: Seq<String>) -> Seq<Seq<char>> {
    v.map_values(|s: String| s@)
}

pub open spec fn opt_str(o: Option<String>) -> Option<Seq<char>> {
    match o {
        Some(s) => Some(s@),
        None => None,
    }
}

impl View for GetItemRequest {
    type V = RequestView;

    open spec fn view(&self) -> RequestView {
        RequestView {
            cmd: self.cmd,
            args: match self.args {
                Some(a) => Some(strings_view(a@)),
                None => None,
            },
            client_id: opt_str(self.client_id),
            transaction_id: opt_str(self.transaction_id),
        }
    }
}

impl View for GetItemResponse {
    type V = ResponseView;

    open spec fn view(&self) -> ResponseView {
        ResponseView { ok: self.ok, data: opt_str(self.data) }
    }
}

pub open spec fn responses_view(v: Seq<GetItemResponse>) -> Seq<ResponseView> {
    v.map_values(|r: GetItemResponse| r@)
}

/// A copy of a list of strings.
pub fn copy_strings(v: &Vec<String>) -> (r: Vec<String>)
    ensures
        strings_view(r@) == strings_view(v@),
{
    let mut out: Vec<String> = Vec::new();
    let mut i: usize = 0;
    while i < v.len()
        invariant
            i <= v@.len(),
            strings_view(out@) == strings_view(v@.take(i as int)),
        decreases v@.len() - i,
    {
        let ghost before = out@;
        let c = v[i].clone();
        out.push(c);
        assert(out@ == before.push(c));
        assert(c@ == v@[i as int]@);
        assert(v@.take(i + 1) =~= v@.take(i as int).push(v@[i as int]));
        assert(strings_view(out@) =~= strings_view(before).push(c@));
        assert(strings_view(v@.take(i + 1)) =~= strings_view(v@.take(i as int)).push(v@[i as int]@));
        i += 1;
    }
    assert(v@.take(i as int) =~= v@);
    out
}

fn copy_opt(o: &Option<String>) -> (r: Option<String>)
    ensures
        opt_str(r) == opt_str(*o),
{
    match o {
        Some(s) => Some(s.clone()),
        None => None,
    }
}

impl GetItemRequest {
    /// A copy of this request.
    pub fn duplicate(&self) -> (r: GetItemRequest)
        ensures
            r@ == self@,
    {
        GetItemRequest {
            cmd: self.cmd,
            args: match &self.args {
                Some(a) => Some(copy_strings(a)),
                None => None,
            },
            client_id: copy_opt(&self.client_id),
            transaction_id: copy_opt(&self.transaction_id),
        }
    }
}

} // verus!
