//! The node: its role in replication, its followers, its open
//! transactions, and the dispatcher that turns each request into a reply
//! and the outside work (log lines, forwarded writes, snapshot transfers)
//! that the caller performs.

use crate::aof::{aof_del_line, aof_set_line, del_line, replay_lines, set_line, skipped_count, split};
use crate::clock::wall_clock_ms;
use crate::codec::{dec_str, decimal, hex_decode, hex_encode, hex_of, is_hex_text, parse_unsigned, parse_unsigned_max};
use crate::command::{ping_reply, ping_text, set_ttl, set_ttl_ms};
use crate::protocol::{
    copy_strings, opt_str, responses_view, strings_view, CmdError, GetItemRequest, GetItemResponse,
    MultiGetItemResponse, RedisCommand, RequestView, ResponseView,
};
use crate::redis::{deadline_after, is_snapshot_of, restores_to, subscriber_count, FetchError, Redis, RedisView};
use vstd::prelude::*;

verus! {

broadcast use vstd::string::group_string_axioms;

/// The replication role of a node.
pub enum RedisState {
    /// Neither primary nor replica.
    Single,
    /// A primary with followers.
    Master,
    /// A replica of the primary at this host and port.
    SlaveOf(String, u16),
}

pub ghost enum RoleView {
    Single,
    Master,
    SlaveOf(Seq<char>, u16),
}

impl View for RedisState {
    type V = RoleView;

    open spec fn view(&self) -> RoleView {
        match self {
            RedisState::Single => RoleView::Single,
            RedisState::Master => RoleView::Master,
            RedisState::SlaveOf(h, p) => RoleView::SlaveOf(h@, *p),
        }
    }
}

impl RedisState {
    /// A readable name of the role.
    pub fn describe(&self) -> (r: String)
        ensures
            r@ == match self {
                RedisState::Single => "Single"@,
                RedisState::Master => "Master"@,
                RedisState::SlaveOf(h, p) => "Slave of "@ + h@ + ":"@ + dec_str(*p as nat),
            },
    {
        match self {
            RedisState::Single => "Single".to_owned(),
            RedisState::Master => "Master".to_owned(),
            RedisState::SlaveOf(h, p) => {
                let mut s = "Slave of ".to_owned();
                s.append(h.as_str());
                s.append(":");
                s.append(decimal(*p as u128).as_str());
                assert(s@ =~= "Slave of "@ + h@ + ":"@ + dec_str(*p as nat));
                s
            },
        }
    }
}

/// A follower of a primary: its id and public address.
pub struct Follower {
    pub id: String,
    pub host: String,
    pub port: u16,
}

pub ghost struct FollowerView {
    pub id: Seq<char>,
    pub host: Seq<char>,
    pub port: u16,
}

impl View for Follower {
    type V = FollowerView;

    open spec fn view(&self) -> FollowerView {
        FollowerView { id: self.id@, host: self.host@, port: self.port }
    }
}

/// An open transaction: the requests buffered for EXEC, the keys watched
/// with the values they had then, and whether EXEC found a conflict.
pub struct Transaction {
    pub commands: Vec<GetItemRequest>,
    pub is_wrong: bool,
    pub watched: Vec<(String, Option<String>)>,
}

pub ghost struct TxnView {
    pub commands: Seq<RequestView>,
    pub watched: Seq<(Seq<char>, Option<Seq<char>>)>,
    pub aborted: bool,
}

pub open spec fn requests_view(v: Seq<GetItemRequest>) -> Seq<RequestView> {
    v.map_values(|r: GetItemRequest| r@)
}

pub open spec fn watched_view(v: Seq<(String, Option<String>)>) -> Seq<(Seq<char>, Option<Seq<char>>)> {
    v.map_values(|p: (String, Option<String>)| (p.0@, opt_str(p.1)))
}

impl View for Transaction {
    type V = TxnView;

    open spec fn view(&self) -> TxnView {
        TxnView {
            commands: requests_view(self.commands@),
            watched: watched_view(self.watched@),
            aborted: self.is_wrong,
        }
    }
}

/// Outside work that a request asks of the caller, in order.
pub enum Effect {
    /// Send this line to the append-only file writer.
    AppendAof(String),
    /// Send this request to the follower at this address.
    Forward { host: String, port: u16, request: GetItemRequest },
    /// Send this SYNC request, which announces this node, to the primary
    /// at this address, and hand the reply to `on_sync_reply`.
    SendSync { host: String, port: u16, request: GetItemRequest },
    /// Send the current keyspace snapshot (`snapshot_text`) with SYNCGOT to
    /// this address.
    DeliverSnapshot { host: String, port: u16 },
}

pub ghost enum EffectView {
    AppendAof(Seq<char>),
    Forward(Seq<char>, u16, RequestView),
    SendSync(Seq<char>, u16, RequestView),
    DeliverSnapshot(Seq<char>, u16),
}

impl View for Effect {
    type V = EffectView;

    open spec fn view(&self) -> EffectView {
        match self {
            Effect::AppendAof(l) => EffectView::AppendAof(l@),
            Effect::Forward { host, port, request } => EffectView::Forward(host@, *port, request@),
            Effect::SendSync { host, port, request } => EffectView::SendSync(host@, *port, request@),
            Effect::DeliverSnapshot { host, port } => EffectView::DeliverSnapshot(host@, *port),
        }
    }
}

pub open spec fn effects_view(v: Seq<Effect>) -> Seq<EffectView> {
    v.map_values(|e: Effect| e@)
}

/// The state of a node.
pub ghost struct NodeView {
    pub engine: RedisView,
    pub role: RoleView,
    pub self_id: Seq<char>,
    pub followers: Seq<FollowerView>,
    pub txns: Map<Seq<char>, TxnView>,
    pub shutting_down: bool,
    pub public_host: Seq<char>,
    pub public_port: u16,
}

/// A node: the keyspace engine, the replication state and the open
/// transactions.
pub struct S {
    redis: Redis,
    state: RedisState,
    uuid: String,
    client_addrs: Vec<Follower>,
    txns: Vec<(String, Transaction)>,
    txn_index: Ghost<Map<Seq<char>, TxnView>>,
    shutting_down: bool,
    public_host: String,
    public_port: u16,
}

impl View for S {
    type V = NodeView;

    closed spec fn view(&self) -> NodeView {
        NodeView {
            engine: self.redis@,
            role: self.state@,
            self_id: self.uuid@,
            followers: self.client_addrs@.map_values(|f: Follower| f@),
            txns: self.txn_index@,
            shutting_down: self.shutting_down,
            public_host: self.public_host@,
            public_port: self.public_port,
        }
    }
}

/// A version-4 id in the hyphenated form: 36 characters with the version
/// digit `4` at position 14 (the nil id has `0` there).
pub open spec fn is_v4_id(s: Seq<char>) -> bool {
    s.len() == 36 && s[14] == '4'
}

/// How many ids SYNC draws before it gives up on finding one no follower has.
pub const SYNC_ID_DRAWS: usize = 16;

/// Relies on `uuid::Uuid::new_v4` and its `Display`: a random version-4 id
/// in the hyphenated form, whose version digit `new_v4` sets to 4.
#[verifier::external_body]
fn fresh_uuid() -> (r: String)
    ensures
        is_v4_id(r@),
{
    uuid::Uuid::new_v4().to_string()
}

/// What `uuid::Uuid::parse_str` makes of a text, in the hyphenated form.
pub uninterp spec fn parsed_uuid(s: Seq<char>) -> Option<Seq<char>>;

/// Relies on `uuid::Uuid::parse_str` and the id's `Display`: the id that the
/// text spells, in the hyphenated form; `None` for text that is no id.
#[verifier::external_body]
fn canonical_uuid(s: &str) -> (r: Option<String>)
    ensures
        opt_str(r) == parsed_uuid(s@),
{
    match uuid::Uuid::parse_str(s) {
        Ok(u) => Some(u.to_string()),
        Err(_) => None,
    }
}

/// A character of nanoid's `SAFE` alphabet: a letter, a digit, `_` or `-`.
pub open spec fn is_token_char(c: char) -> bool {
    c == '_' || c == '-' || ('0' <= c && c <= '9') || ('a' <= c && c <= 'z') || ('A' <= c && c <= 'Z')
}

/// Relies on `nanoid::format` with the default random source and the
/// `SAFE` alphabet: five characters, each drawn from that alphabet.
#[verifier::external_body]
fn random_token() -> (r: String)
    ensures
        r@.len() == 5,
        forall|i: int| 0 <= i < r@.len() ==> is_token_char(#[trigger] r@[i]),
{
    nanoid::format(nanoid::rngs::default, &nanoid::alphabet::SAFE, 5)
}

/// A request EXEC can replay: a GET of one key, or a SET with valid options.
pub open spec fn queued_ok(r: RequestView) -> bool {
    match r.args {
        Some(a) => (r.cmd == RedisCommand::Get && a.len() == 1) || (r.cmd == RedisCommand::SetKey
            && set_ttl(a) is Ok),
        None => false,
    }
}

/// A transaction holds only replayable requests, and watches each key once.
pub open spec fn txn_ok(t: TxnView) -> bool {
    &&& forall|i: int| 0 <= i < t.commands.len() ==> queued_ok(#[trigger] t.commands[i])
    &&& forall|i: int, j: int|
        0 <= i < j < t.watched.len() ==> #[trigger] t.watched[i].0 != #[trigger] t.watched[j].0
}

impl S {
    /// The internal consistency of the node.
    pub closed spec fn wf(&self) -> bool {
        &&& self.redis.wf()
        &&& forall|i: int, j: int|
            0 <= i < j < self.txns@.len() ==> #[trigger] self.txns@[i].0@ != #[trigger] self.txns@[j].0@
        &&& forall|i: int|
            0 <= i < self.txns@.len() ==> {
                &&& self.txn_index@.contains_key(#[trigger] self.txns@[i].0@)
                &&& self.txn_index@[self.txns@[i].0@] == self.txns@[i].1@
            }
        &&& forall|k: Seq<char>|
            #[trigger] self.txn_index@.contains_key(k) ==> exists|i: int|
                0 <= i < self.txns@.len() && #[trigger] self.txns@[i].0@ == k
        &&& forall|k: Seq<char>| #[trigger] self.txn_index@.contains_key(k) ==> txn_ok(self.txn_index@[k])
    }

    /// A fresh node reachable at `ip:port`: single, no followers, no
    /// transactions, an empty keyspace and a random id of its own.
    pub fn new(ip: String, port: u16) -> (r: S)
        ensures
            r.wf(),
            is_v4_id(r@.self_id),
            r@.public_host == ip@,
            r@.public_port == port,
            r@.engine.kvs == Map::<Seq<char>, crate::redis::RecordView>::empty(),
            r@.engine.subs.len() == 0,
            r@.role == RoleView::Single,
            r@.followers.len() == 0,
            r@.txns == Map::<Seq<char>, TxnView>::empty(),
            !r@.shutting_down,
    {
        S {
            redis: Redis::new(),
            state: RedisState::Single,
            uuid: fresh_uuid(),
            client_addrs: Vec::new(),
            txns: Vec::new(),
            txn_index: Ghost(Map::empty()),
            shutting_down: false,
            public_host: ip,
            public_port: port,
        }
    }

    fn find_txn(&self, token: &str) -> (r: Option<usize>)
        requires
            self.wf(),
        ensures
            match r {
                Some(i) => i < self.txns@.len() && self.txns@[i as int].0@ == token@
                    && self@.txns.contains_key(token@),
                None => !self@.txns.contains_key(token@),
            },
    {
        let k = token.to_owned();
        let mut i: usize = 0;
        while i < self.txns.len()
            invariant
                self.wf(),
                k@ == token@,
                i <= self.txns@.len(),
                forall|j: int| 0 <= j < i ==> #[trigger] self.txns@[j].0@ != token@,
            decreases self.txns@.len() - i,
        {
            if self.txns[i].0 == k {
                return Some(i);
            }
            i += 1;
        }
        None
    }

    /// Takes the transaction at position `i` out of the table.
    fn take_txn(&mut self, i: usize) -> (r: (String, Transaction))
        requires
            old(self).wf(),
            i < old(self).txns@.len(),
        ensures
            final(self).wf(),
            old(self)@.txns.contains_key(r.0@),
            r.1@ == old(self)@.txns[r.0@],
            r.0@ == old(self).txns@[i as int].0@,
            txn_ok(r.1@),
            final(self)@ == (NodeView { txns: old(self)@.txns.remove(r.0@), ..old(self)@ }),
    {
        let ghost old_t = self.txns@;
        let r = self.txns.remove(i);
        let ghost k = r.0@;
        self.txn_index = Ghost(self.txn_index@.remove(k));
        assert forall|j: int| 0 <= j < self.txns@.len() implies {
            &&& self.txn_index@.contains_key(#[trigger] self.txns@[j].0@)
            &&& self.txn_index@[self.txns@[j].0@] == self.txns@[j].1@
        } by {
            if j < i {
                assert(self.txns@[j] == old_t[j]);
            } else {
                assert(self.txns@[j] == old_t[j + 1]);
            }
        }
        assert forall|x: Seq<char>| #[trigger] self.txn_index@.contains_key(x) implies exists|j: int|
            0 <= j < self.txns@.len() && #[trigger] self.txns@[j].0@ == x by {
            let j = choose|j: int| 0 <= j < old_t.len() && #[trigger] old_t[j].0@ == x;
            if j < i {
                assert(self.txns@[j] == old_t[j]);
            } else {
                assert(self.txns@[j - 1] == old_t[j]);
            }
        }
        assert forall|a: int, b: int|
            0 <= a < b < self.txns@.len() implies #[trigger] self.txns@[a].0@
            != #[trigger] self.txns@[b].0@ by {
            let a0 = if a < i { a } else { a + 1 };
            let b0 = if b < i { b } else { b + 1 };
            assert(self.txns@[a] == old_t[a0]);
            assert(self.txns@[b] == old_t[b0]);
        }
        r
    }

    /// Adds a transaction under a token that no open transaction has.
    fn put_txn(&mut self, token: String, t: Transaction)
        requires
            old(self).wf(),
            !old(self)@.txns.contains_key(token@),
            txn_ok(t@),
        ensures
            final(self).wf(),
            final(self)@ == (NodeView { txns: old(self)@.txns.insert(token@, t@), ..old(self)@ }),
    {
        let ghost old_t = self.txns@;
        let ghost k = token@;
        let ghost tv = t@;
        self.txns.push((token, t));
        self.txn_index = Ghost(self.txn_index@.insert(k, tv));
        let ghost n = old_t.len() as int;
        assert forall|j: int| 0 <= j < self.txns@.len() implies {
            &&& self.txn_index@.contains_key(#[trigger] self.txns@[j].0@)
            &&& self.txn_index@[self.txns@[j].0@] == self.txns@[j].1@
        } by {
            if j < n {
                assert(self.txns@[j] == old_t[j]);
                assert(old(self).txn_index@.contains_key(old_t[j].0@));
            }
        }
        assert forall|x: Seq<char>| #[trigger] self.txn_index@.contains_key(x) implies exists|j: int|
            0 <= j < self.txns@.len() && #[trigger] self.txns@[j].0@ == x by {
            if x != k {
                let j = choose|j: int| 0 <= j < old_t.len() && #[trigger] old_t[j].0@ == x;
                assert(self.txns@[j] == old_t[j]);
            } else {
                assert(self.txns@[n].0@ == x);
            }
        }
        assert forall|a: int, b: int|
            0 <= a < b < self.txns@.len() implies #[trigger] self.txns@[a].0@
            != #[trigger] self.txns@[b].0@ by {
            assert(self.txns@[a] == old_t[a]);
            if b < n {
                assert(self.txns@[b] == old_t[b]);
            } else {
                assert(old(self).txn_index@.contains_key(old_t[a].0@));
            }
        }
    }
}

/// What a request does: the node's next state, the reply and the outside
/// work asked of the caller.
pub ghost struct Outcome {
    pub state: NodeView,
    pub reply: Result<ResponseView, CmdError>,
    pub effects: Seq<EffectView>,
}

pub open spec fn reply_view(r: Result<GetItemResponse, CmdError>) -> Result<ResponseView, CmdError> {
    match r {
        Ok(x) => Ok(x@),
        Err(e) => Err(e),
    }
}

/// The outcome that a returned reply and effects make with the new state.
pub open spec fn outcome_of(
    state: NodeView,
    r: (Result<GetItemResponse, CmdError>, Vec<Effect>),
) -> Outcome {
    Outcome { state, reply: reply_view(r.0), effects: effects_view(r.1@) }
}

pub open spec fn ok_text() -> Seq<char> {
    seq!['O', 'K']
}

/// A successful reply carrying `data`.
pub open spec fn ok_with(data: Option<Seq<char>>) -> Result<ResponseView, CmdError> {
    Ok(ResponseView { ok: true, data })
}

/// The reply to a read that observed `v`.
pub open spec fn read_reply(v: Option<Seq<char>>) -> Result<ResponseView, CmdError> {
    Ok(ResponseView { ok: v is Some, data: v })
}

/// The request failed with `e` and changed nothing.
pub open spec fn failed(s: NodeView, e: CmdError) -> Outcome {
    Outcome { state: s, reply: Err(e), effects: Seq::empty() }
}

/// The copy of a write that a primary sends its followers: marked with the
/// primary's id, outside any transaction.
pub open spec fn forwarded(req: RequestView, id: Seq<char>) -> RequestView {
    RequestView { client_id: Some(id), transaction_id: None, ..req }
}

/// One forward of `req` to each follower, in table order.
pub open spec fn forwards(fs: Seq<FollowerView>, req: RequestView) -> Seq<EffectView> {
    fs.map_values(|f: FollowerView| EffectView::Forward(f.host, f.port, req))
}

/// A replica accepts writes only from its primary.
pub open spec fn write_forbidden(s: NodeView, req: RequestView) -> bool {
    s.role is SlaveOf && req.client_id is None
}

/// The node with `req` appended to the requests of transaction `t`.
pub open spec fn with_queued(s: NodeView, t: Seq<char>, req: RequestView) -> NodeView {
    NodeView {
        txns: s.txns.insert(t, TxnView { commands: s.txns[t].commands.push(req), ..s.txns[t] }),
        ..s
    }
}

/// Buffering `req` into the transaction it names.
pub open spec fn queue_outcome(s: NodeView, t: Seq<char>, req: RequestView) -> Outcome {
    if !s.txns.contains_key(t) {
        failed(s, CmdError::TransactionUnknown)
    } else {
        Outcome { state: with_queued(s, t, req), reply: ok_with(Some(ok_text())), effects: Seq::empty() }
    }
}

pub open spec fn with_engine(s: NodeView, e: RedisView) -> NodeView {
    NodeView { engine: e, ..s }
}

pub open spec fn ping_outcome(s: NodeView, req: RequestView) -> Outcome {
    Outcome { state: s, reply: ok_with(Some(ping_reply(req.args))), effects: Seq::empty() }
}

pub open spec fn get_outcome(s: NodeView, req: RequestView, now: u128) -> Outcome {
    match req.args {
        Some(a) if a.len() == 1 => match req.transaction_id {
            Some(t) => queue_outcome(s, t, req),
            None => Outcome {
                state: with_engine(s, s.engine.after_read(a[0], now)),
                reply: read_reply(s.engine.live(a[0], now)),
                effects: Seq::empty(),
            },
        },
        _ => failed(s, CmdError::ArgCount),
    }
}

/// The outside work of a store: its log line, then its forwards.
pub open spec fn set_effects(s: NodeView, req: RequestView, a: Seq<Seq<char>>, exp: u128) -> Seq<EffectView> {
    seq![EffectView::AppendAof(set_line(a[0], a[1], exp as nat))] + forwards(
        s.followers,
        forwarded(req, s.self_id),
    )
}

pub open spec fn set_outcome(s: NodeView, req: RequestView, now: u128) -> Outcome {
    if write_forbidden(s, req) {
        failed(s, CmdError::RoleForbidden)
    } else {
        match req.args {
            None => failed(s, CmdError::ArgCount),
            Some(a) => match set_ttl(a) {
                Err(e) => failed(s, e),
                Ok(ttl) => match req.transaction_id {
                    Some(t) => queue_outcome(s, t, req),
                    None => {
                        let exp = deadline_after(ttl, now);
                        Outcome {
                            state: with_engine(s, s.engine.after_set(a[0], a[1], exp)),
                            reply: ok_with(Some(ok_text())),
                            effects: set_effects(s, req, a, exp),
                        }
                    },
                },
            },
        }
    }
}

/// The engine after removing `keys` in order, and how many were present.
pub open spec fn del_all(v: RedisView, keys: Seq<Seq<char>>) -> (RedisView, nat)
    decreases keys.len(),
{
    if keys.len() == 0 {
        (v, 0)
    } else {
        let p = del_all(v, keys.drop_last());
        (
            RedisView { kvs: p.0.kvs.remove(keys.last()), ..p.0 },
            p.1 + if p.0.kvs.contains_key(keys.last()) {
                1nat
            } else {
                0nat
            },
        )
    }
}

/// One log line per removed key, in order.
pub open spec fn del_lines(keys: Seq<Seq<char>>) -> Seq<EffectView> {
    keys.map_values(|k: Seq<char>| EffectView::AppendAof(del_line(k)))
}

pub open spec fn del_outcome(s: NodeView, req: RequestView) -> Outcome {
    if write_forbidden(s, req) {
        failed(s, CmdError::RoleForbidden)
    } else {
        match req.args {
            Some(a) if a.len() >= 1 => if req.transaction_id is Some {
                failed(s, CmdError::Unsupported)
            } else {
                let d = del_all(s.engine, a);
                Outcome {
                    state: with_engine(s, d.0),
                    reply: ok_with(Some(dec_str(d.1))),
                    effects: del_lines(a) + forwards(s.followers, forwarded(req, s.self_id)),
                }
            },
            _ => failed(s, CmdError::ArgCount),
        }
    }
}

impl S {
    /// Appends to `effects` a forward of `req` to each follower.
    fn forward_all(&self, req: &GetItemRequest, effects: &mut Vec<Effect>)
        ensures
            effects_view(final(effects)@) == effects_view(old(effects)@) + forwards(
                self@.followers,
                forwarded(req@, self@.self_id),
            ),
    {
        let mut i: usize = 0;
        let ghost fs = self@.followers;
        let ghost fr = forwarded(req@, self@.self_id);
        assert(forwards(fs, fr).take(0) =~= Seq::<EffectView>::empty());
        assert(effects_view(effects@) =~= effects_view(old(effects)@) + forwards(fs, fr).take(0));
        while i < self.client_addrs.len()
            invariant
                fs == self@.followers,
                fr == forwarded(req@, self@.self_id),
                i <= fs.len(),
                effects_view(effects@) == effects_view(old(effects)@) + forwards(fs, fr).take(i as int),
            decreases fs.len() - i,
        {
            let f = &self.client_addrs[i];
            let fwd = GetItemRequest {
                cmd: req.cmd,
                args: match &req.args {
                    Some(a) => Some(copy_strings(a)),
                    None => None,
                },
                client_id: Some(self.uuid.clone()),
                transaction_id: None,
            };
            assert(fwd@ == fr);
            let ghost before = effects@;
            effects.push(Effect::Forward { host: f.host.clone(), port: f.port, request: fwd });
            assert(effects_view(effects@) =~= effects_view(before).push(
                EffectView::Forward(fs[i as int].host, fs[i as int].port, fr),
            ));
            assert(forwards(fs, fr).take(i + 1) =~= forwards(fs, fr).take(i as int).push(
                EffectView::Forward(fs[i as int].host, fs[i as int].port, fr),
            ));
            i += 1;
        }
        assert(forwards(fs, fr).take(i as int) =~= forwards(fs, fr));
    }

    /// Buffers `req` into transaction `token`.
    fn queue(&mut self, token: &str, req: GetItemRequest) -> (r: (Result<GetItemResponse, CmdError>, Vec<Effect>))
        requires
            old(self).wf(),
            queued_ok(req@),
        ensures
            final(self).wf(),
            outcome_of(final(self)@, r) == queue_outcome(old(self)@, token@, req@),
    {
        match self.find_txn(token) {
            None => {
                let r = (Err(CmdError::TransactionUnknown), Vec::new());
                assert(effects_view(r.1@) =~= Seq::<EffectView>::empty());
                r
            },
            Some(i) => {
                let (tok, mut t) = self.take_txn(i);
                let ghost tv = t@;
                let ghost rv = req@;
                t.commands.push(req);
                assert(t@.commands =~= tv.commands.push(rv));
                assert(t@ == TxnView { commands: tv.commands.push(rv), ..tv });
                self.put_txn(tok, t);
                assert(self@.txns =~= with_queued(old(self)@, token@, rv).txns);
                proof {
                    reveal_strlit("OK");
                }
                let r = (Ok(GetItemResponse { ok: true, data: Some("OK".to_owned()) }), Vec::new());
                assert(effects_view(r.1@) =~= Seq::<EffectView>::empty());
                assert(opt_str(r.0->Ok_0.data) =~= Some(ok_text()));
                r
            },
        }
    }
}

fn ok_response() -> (r: GetItemResponse)
    ensures
        r@ == (ResponseView { ok: true, data: Some(ok_text()) }),
{
    proof {
        reveal_strlit("OK");
    }
    let r = GetItemResponse { ok: true, data: Some("OK".to_owned()) };
    assert(opt_str(r.data) =~= Some(ok_text()));
    r
}

fn fail(e: CmdError) -> (r: (Result<GetItemResponse, CmdError>, Vec<Effect>))
    ensures
        reply_view(r.0) == Err::<ResponseView, CmdError>(e),
        effects_view(r.1@) == Seq::<EffectView>::empty(),
{
    let r = (Err(e), Vec::new());
    assert(effects_view(r.1@) =~= Seq::<EffectView>::empty());
    r
}

fn reply_only(resp: GetItemResponse) -> (r: (Result<GetItemResponse, CmdError>, Vec<Effect>))
    ensures
        reply_view(r.0) == Ok::<ResponseView, CmdError>(resp@),
        effects_view(r.1@) == Seq::<EffectView>::empty(),
{
    let r = (Ok(resp), Vec::new());
    assert(effects_view(r.1@) =~= Seq::<EffectView>::empty());
    r
}

impl S {
    fn cmd_ping(&self, req: &GetItemRequest) -> (r: (Result<GetItemResponse, CmdError>, Vec<Effect>))
        ensures
            outcome_of(self@, r) == ping_outcome(self@, req@),
    {
        let text = ping_text(&req.args);
        reply_only(GetItemResponse { ok: true, data: Some(text) })
    }

    fn cmd_get(&mut self, req: GetItemRequest, now: u128) -> (r: (Result<GetItemResponse, CmdError>, Vec<Effect>))
        requires
            old(self).wf(),
            req.cmd == RedisCommand::Get,
        ensures
            final(self).wf(),
            outcome_of(final(self)@, r) == get_outcome(old(self)@, req@, now),
    {
        let n = match &req.args {
            Some(a) => a.len(),
            None => 0,
        };
        if n != 1 {
            return fail(CmdError::ArgCount);
        }
        match &req.transaction_id {
            Some(t) => {
                let tok = t.clone();
                self.queue(tok.as_str(), req)
            },
            None => {
                let a = req.args.as_ref().unwrap();
                assert(a@[0]@ == strings_view(a@)[0]);
                let v = self.redis.get_at(a[0].as_str(), now);
                assert(self.txns == old(self).txns && self.txn_index == old(self).txn_index);
                let found = v.is_some();
                reply_only(GetItemResponse { ok: found, data: v })
            },
        }
    }

    fn cmd_set(&mut self, req: GetItemRequest, now: u128) -> (r: (Result<GetItemResponse, CmdError>, Vec<Effect>))
        requires
            old(self).wf(),
            req.cmd == RedisCommand::SetKey,
        ensures
            final(self).wf(),
            outcome_of(final(self)@, r) == set_outcome(old(self)@, req@, now),
    {
        if let RedisState::SlaveOf(_, _) = &self.state {
            if req.client_id.is_none() {
                return fail(CmdError::RoleForbidden);
            }
        }
        let ttl = match &req.args {
            None => {
                return fail(CmdError::ArgCount);
            },
            Some(a) => match set_ttl_ms(a) {
                Err(e) => {
                    return fail(e);
                },
                Ok(ttl) => ttl,
            },
        };
        match &req.transaction_id {
            Some(t) => {
                let tok = t.clone();
                self.queue(tok.as_str(), req)
            },
            None => {
                let a = req.args.as_ref().unwrap();
                let ghost av = strings_view(a@);
                assert(a@[0]@ == av[0] && a@[1]@ == av[1]);
                let exp = if ttl == 0 {
                    0
                } else {
                    now.saturating_add(ttl)
                };
                assert(exp == deadline_after(ttl, now));
                self.redis.set_at(a[0].as_str(), a[1].as_str(), exp);
                assert(self.txns == old(self).txns && self.txn_index == old(self).txn_index);
                let mut effects: Vec<Effect> = Vec::new();
                effects.push(Effect::AppendAof(aof_set_line(a[0].as_str(), a[1].as_str(), exp)));
                assert(effects_view(effects@) =~= seq![EffectView::AppendAof(set_line(av[0], av[1], exp as nat))]);
                self.forward_all(&req, &mut effects);
                (Ok(ok_response()), effects)
            },
        }
    }

    fn cmd_del(&mut self, req: GetItemRequest) -> (r: (Result<GetItemResponse, CmdError>, Vec<Effect>))
        requires
            old(self).wf(),
            req.cmd == RedisCommand::Del,
        ensures
            final(self).wf(),
            outcome_of(final(self)@, r) == del_outcome(old(self)@, req@),
    {
        if let RedisState::SlaveOf(_, _) = &self.state {
            if req.client_id.is_none() {
                return fail(CmdError::RoleForbidden);
            }
        }
        let n = match &req.args {
            Some(a) => a.len(),
            None => 0,
        };
        if n < 1 {
            return fail(CmdError::ArgCount);
        }
        if req.transaction_id.is_some() {
            return fail(CmdError::Unsupported);
        }
        let a = req.args.as_ref().unwrap();
        let ghost keys = strings_view(a@);
        let mut count: usize = 0;
        let mut effects: Vec<Effect> = Vec::new();
        let mut i: usize = 0;
        assert(keys.take(0) =~= Seq::<Seq<char>>::empty());
        assert(effects_view(effects@) =~= del_lines(keys.take(0)));
        while i < a.len()
            invariant
                self.wf(),
                self.txns == old(self).txns,
                self.txn_index == old(self).txn_index,
                keys == strings_view(a@),
                i <= a@.len(),
                count <= i,
                self@ == with_engine(old(self)@, del_all(old(self)@.engine, keys.take(i as int)).0),
                count == del_all(old(self)@.engine, keys.take(i as int)).1,
                effects_view(effects@) == del_lines(keys.take(i as int)),
            decreases a@.len() - i,
        {
            assert(keys.take(i + 1).drop_last() =~= keys.take(i as int));
            assert(keys.take(i + 1).last() == a@[i as int]@);
            if self.redis.del(a[i].as_str()) {
                count += 1;
            }
            assert(self.txns == old(self).txns && self.txn_index == old(self).txn_index);
            let ghost before = effects@;
            let line = aof_del_line(a[i].as_str());
            let ghost e = EffectView::AppendAof(line@);
            effects.push(Effect::AppendAof(line));
            assert(keys.take(i + 1) =~= keys.take(i as int).push(a@[i as int]@));
            assert(del_lines(keys.take(i + 1)) =~= del_lines(keys.take(i as int)).push(e));
            assert(effects_view(effects@) =~= effects_view(before).push(e));
            i += 1;
        }
        assert(keys.take(i as int) =~= keys);
        self.forward_all(&req, &mut effects);
        (Ok(GetItemResponse { ok: true, data: Some(decimal(count as u128)) }), effects)
    }
}

pub open spec fn publish_outcome(s: NodeView, req: RequestView) -> Outcome {
    match req.args {
        Some(a) if a.len() == 2 => Outcome {
            state: with_engine(s, s.engine.after_broadcast(a[0], a[1])),
            reply: ok_with(Some(dec_str(subscriber_count(s.engine.subs, a[0])))),
            effects: Seq::empty(),
        },
        _ => failed(s, CmdError::ArgCount),
    }
}

pub open spec fn subscribe_outcome(s: NodeView, req: RequestView) -> Outcome {
    match req.args {
        Some(a) if a.len() == 1 => if s.engine.subs.len() >= usize::MAX {
            failed(s, CmdError::Unsupported)
        } else {
            Outcome {
                state: with_engine(
                    s,
                    RedisView {
                        subs: s.engine.subs.push(
                            crate::redis::SubscriberView {
                                channel: a[0],
                                pending: Seq::empty(),
                                received: Seq::empty(),
                            },
                        ),
                        ..s.engine
                    },
                ),
                reply: ok_with(Some(dec_str(s.engine.subs.len()))),
                effects: Seq::empty(),
            }
        },
        _ => failed(s, CmdError::ArgCount),
    }
}

pub open spec fn fetch_outcome(s: NodeView, req: RequestView) -> Outcome {
    match req.args {
        Some(a) if a.len() == 1 => match parse_unsigned(a[0], usize::MAX as nat) {
            None => failed(s, CmdError::UnknownHandle),
            Some(h) => if h >= s.engine.subs.len() {
                failed(s, CmdError::UnknownHandle)
            } else if s.engine.subs[h as int].pending.len() == 0 {
                Outcome { state: s, reply: read_reply(None), effects: Seq::empty() }
            } else {
                let sub = s.engine.subs[h as int];
                Outcome {
                    state: with_engine(
                        s,
                        RedisView {
                            subs: s.engine.subs.update(
                                h as int,
                                crate::redis::SubscriberView { pending: sub.pending.drop_first(), ..sub },
                            ),
                            ..s.engine
                        },
                    ),
                    reply: read_reply(Some(sub.pending[0])),
                    effects: Seq::empty(),
                }
            },
        },
        _ => failed(s, CmdError::ArgCount),
    }
}

/// Whether transaction `t` already watches `k`.
pub open spec fn watches(t: TxnView, k: Seq<char>) -> bool {
    exists|i: int| 0 <= i < t.watched.len() && #[trigger] t.watched[i].0 == k
}

pub open spec fn watch_outcome(s: NodeView, req: RequestView, now: u128) -> Outcome {
    match req.args {
        Some(a) if a.len() == 1 => match req.transaction_id {
            Some(t) => if !s.txns.contains_key(t) {
                failed(s, CmdError::TransactionUnknown)
            } else if watches(s.txns[t], a[0]) {
                failed(s, CmdError::AlreadyWatched)
            } else {
                Outcome {
                    state: NodeView {
                        engine: s.engine.after_read(a[0], now),
                        txns: s.txns.insert(
                            t,
                            TxnView {
                                watched: s.txns[t].watched.push((a[0], s.engine.live(a[0], now))),
                                ..s.txns[t]
                            },
                        ),
                        ..s
                    },
                    reply: ok_with(Some(ok_text())),
                    effects: Seq::empty(),
                }
            },
            None => failed(s, CmdError::TransactionUnknown),
        },
        _ => failed(s, CmdError::ArgCount),
    }
}

impl S {
    fn cmd_publish(&mut self, req: &GetItemRequest) -> (r: (Result<GetItemResponse, CmdError>, Vec<Effect>))
        requires
            old(self).wf(),
        ensures
            final(self).wf(),
            outcome_of(final(self)@, r) == publish_outcome(old(self)@, req@),
    {
        match &req.args {
            Some(a) => {
                if a.len() != 2 {
                    return fail(CmdError::ArgCount);
                }
                assert(a@[0]@ == strings_view(a@)[0] && a@[1]@ == strings_view(a@)[1]);
                let n = self.redis.broadcast(a[0].as_str(), a[1].as_str());
                assert(self.txns == old(self).txns && self.txn_index == old(self).txn_index);
                reply_only(GetItemResponse { ok: true, data: Some(decimal(n as u128)) })
            },
            None => fail(CmdError::ArgCount),
        }
    }

    fn cmd_subscribe(&mut self, req: &GetItemRequest) -> (r: (Result<GetItemResponse, CmdError>, Vec<Effect>))
        requires
            old(self).wf(),
        ensures
            final(self).wf(),
            outcome_of(final(self)@, r) == subscribe_outcome(old(self)@, req@),
    {
        match &req.args {
            Some(a) => {
                if a.len() != 1 {
                    return fail(CmdError::ArgCount);
                }
                if self.redis.subscriber_total() == usize::MAX {
                    return fail(CmdError::Unsupported);
                }
                assert(a@[0]@ == strings_view(a@)[0]);
                let h = self.redis.add_subscriber(a[0].as_str());
                assert(self.txns == old(self).txns && self.txn_index == old(self).txn_index);
                reply_only(GetItemResponse { ok: true, data: Some(decimal(h as u128)) })
            },
            None => fail(CmdError::ArgCount),
        }
    }

    fn cmd_fetch(&mut self, req: &GetItemRequest) -> (r: (Result<GetItemResponse, CmdError>, Vec<Effect>))
        requires
            old(self).wf(),
        ensures
            final(self).wf(),
            outcome_of(final(self)@, r) == fetch_outcome(old(self)@, req@),
    {
        match &req.args {
            Some(a) => {
                if a.len() != 1 {
                    return fail(CmdError::ArgCount);
                }
                assert(a@[0]@ == strings_view(a@)[0]);
                let h = match parse_unsigned_max(a[0].as_str(), usize::MAX as u128) {
                    Some(h) => h as usize,
                    None => {
                        return fail(CmdError::UnknownHandle);
                    },
                };
                let got = self.redis.fetch(h);
                assert(self.txns == old(self).txns && self.txn_index == old(self).txn_index);
                match got {
                    Ok(m) => reply_only(GetItemResponse { ok: true, data: Some(m) }),
                    Err(FetchError::Empty) => reply_only(GetItemResponse { ok: false, data: None }),
                    Err(FetchError::UnknownHandle) => fail(CmdError::UnknownHandle),
                }
            },
            None => fail(CmdError::ArgCount),
        }
    }

    fn cmd_watch(&mut self, req: &GetItemRequest, now: u128) -> (r: (Result<GetItemResponse, CmdError>, Vec<Effect>))
        requires
            old(self).wf(),
        ensures
            final(self).wf(),
            outcome_of(final(self)@, r) == watch_outcome(old(self)@, req@, now),
    {
        let a = match &req.args {
            Some(a) => {
                if a.len() != 1 {
                    return fail(CmdError::ArgCount);
                }
                a
            },
            None => {
                return fail(CmdError::ArgCount);
            },
        };
        let token = match &req.transaction_id {
            Some(t) => t,
            None => {
                return fail(CmdError::TransactionUnknown);
            },
        };
        let i = match self.find_txn(token.as_str()) {
            Some(i) => i,
            None => {
                return fail(CmdError::TransactionUnknown);
            },
        };
        let key = &a[0];
        assert(key@ == strings_view(a@)[0]);
        let ghost tv0 = self@.txns[token@];
        assert(self.txns@[i as int].1@ == tv0);
        let watched = &self.txns[i].1.watched;
        let mut j: usize = 0;
        while j < watched.len()
            invariant
                self.wf(),
                self@ == old(self)@,
                tv0 == old(self)@.txns[token@],
                old(self)@.txns.contains_key(token@),
                req@.args == Some(strings_view(a@)),
                a@.len() == 1,
                key@ == strings_view(a@)[0],
                req@.transaction_id == Some(token@),
                j <= watched@.len(),
                watched_view(watched@) == tv0.watched,
                forall|m: int| 0 <= m < j ==> #[trigger] tv0.watched[m].0 != key@,
            decreases watched@.len() - j,
        {
            assert(watched@[j as int].0@ == tv0.watched[j as int].0);
            if watched[j].0 == *key {
                assert(tv0.watched[j as int].0 == key@);
                assert(watches(tv0, key@));
                return fail(CmdError::AlreadyWatched);
            }
            j += 1;
        }
        let v = self.redis.get_at(key.as_str(), now);
        assert(self.txns == old(self).txns && self.txn_index == old(self).txn_index);
        let (tok, mut t) = self.take_txn(i);
        let ghost tv = t@;
        let ghost pair = (key@, opt_str(v));
        let ghost before = t.watched@;
        t.watched.push((key.clone(), v));
        assert(watched_view(t.watched@) =~= watched_view(before).push(pair));
        assert forall|p: int, q: int| 0 <= p < q < t@.watched.len() implies #[trigger] t@.watched[p].0
            != #[trigger] t@.watched[q].0 by {
            if q == t@.watched.len() - 1 {
                assert(tv.watched[p].0 != key@);
            }
        }
        self.put_txn(tok, t);
        assert(self@.txns =~= watch_outcome(old(self)@, req@, now).state.txns);
        reply_only(ok_response())
    }
}

impl Redis {
    /// How many subscribers were opened so far.
    pub fn subscriber_total(&self) -> (r: usize)
        requires
            self.wf(),
        ensures
            r == self@.subs.len(),
    {
        self.channel_count()
    }
}

pub open spec fn replicaof_outcome(s: NodeView, req: RequestView) -> Outcome {
    match req.args {
        Some(a) if a.len() == 2 => if !(s.role is Single) {
            failed(s, CmdError::RoleForbidden)
        } else {
            match parse_unsigned(a[1], u16::MAX as nat) {
                None => failed(s, CmdError::BadAddress),
                Some(p) => Outcome {
                    state: NodeView { role: RoleView::SlaveOf(a[0], p as u16), ..s },
                    reply: ok_with(Some(ok_text())),
                    effects: seq![EffectView::SendSync(a[0], p as u16, sync_request(s))],
                },
            }
        },
        _ => failed(s, CmdError::ArgCount),
    }
}

/// The SYNC request a replica sends its primary: its own public address,
/// outside any transaction, without a primary's id.
pub open spec fn sync_request(s: NodeView) -> RequestView {
    RequestView {
        cmd: RedisCommand::Sync,
        args: Some(seq![s.public_host, dec_str(s.public_port as nat)]),
        client_id: None,
        transaction_id: None,
    }
}

/// Whether a follower with id `id` is in the table.
pub open spec fn has_follower(fs: Seq<FollowerView>, id: Seq<char>) -> bool {
    exists|i: int| 0 <= i < fs.len() && #[trigger] fs[i].id == id
}

/// SYNC: the caller becomes a follower under a version-4 id that no
/// follower has, this node becomes a primary if it was single, and a
/// snapshot is sent to the caller's address. Ids are drawn at random a
/// bounded number of times; where every draw collides the request fails
/// with `BadAddress` and changes nothing.
pub open spec fn sync_done(s: NodeView, req: RequestView, o: Outcome) -> bool {
    match req.args {
        Some(a) if a.len() == 2 => match parse_unsigned(a[1], u16::MAX as nat) {
            None => o == failed(s, CmdError::BadAddress),
            Some(p) => o == failed(s, CmdError::BadAddress) || exists|id: Seq<char>|
                is_v4_id(id) && !has_follower(s.followers, id) && o == (Outcome {
                    state: NodeView {
                        role: if s.role is Single {
                            RoleView::Master
                        } else {
                            s.role
                        },
                        followers: s.followers.push(FollowerView { id, host: a[0], port: p as u16 }),
                        ..s
                    },
                    reply: ok_with(Some(id)),
                    effects: seq![EffectView::DeliverSnapshot(a[0], p as u16)],
                }),
        },
        _ => o == failed(s, CmdError::ArgCount),
    }
}

/// SYNCGOT: the hex payload is decoded and, where it is a snapshot,
/// replaces the keyspace; subscribers stay.
pub open spec fn syncgot_done(s: NodeView, req: RequestView, o: Outcome) -> bool {
    match req.args {
        Some(a) if a.len() == 1 => if !is_hex_text(a[0]) {
            o == failed(s, CmdError::BadSnapshot)
        } else {
            exists|b: Seq<u8>|
                #![trigger hex_of(b)]
                hex_of(b) == a[0] && {
                    &&& o.effects == Seq::<EffectView>::empty()
                    &&& (o.reply == Err::<ResponseView, CmdError>(CmdError::BadSnapshot) && o.state == s) || (
                    o.reply == ok_with(None) && o.state.engine.subs == s.engine.subs && restores_to(
                        b,
                        o.state.engine.kvs,
                    ) && o.state == with_engine(s, o.state.engine))
                    &&& (exists|es: Seq<(Seq<char>, Seq<char>, Option<u128>)>|
                        #[trigger] crate::redis::msgpack_entries(es) == b && crate::redis::encodable(es)) ==> o.reply is Ok
                }
        },
        _ => o == failed(s, CmdError::ArgCount),
    }
}

/// The transaction MULTI opens: nothing buffered, nothing watched.
pub open spec fn empty_txn() -> TxnView {
    TxnView { commands: Seq::empty(), watched: Seq::empty(), aborted: false }
}

/// MULTI: a new transaction under a token of five or more characters of
/// nanoid's `SAFE` alphabet (so printable) that no open transaction has.
pub open spec fn multi_done(s: NodeView, req: RequestView, o: Outcome) -> bool {
    match req.args {
        Some(a) if a.len() > 0 => o == failed(s, CmdError::ArgCount),
        _ => exists|t: Seq<char>|
            t.len() >= 5 && (forall|i: int| 0 <= i < t.len() ==> is_token_char(#[trigger] t[i]))
                && !s.txns.contains_key(t) && o == (Outcome {
                state: NodeView { txns: s.txns.insert(t, empty_txn()), ..s },
                reply: ok_with(Some(t)),
                effects: Seq::empty(),
            }),
    }
}

/// What a request other than EXEC does to a running node.
pub open spec fn dispatch_done(s: NodeView, req: RequestView, now: u128, o: Outcome) -> bool {
    match req.cmd {
        RedisCommand::Ping => o == ping_outcome(s, req),
        RedisCommand::Get => o == get_outcome(s, req, now),
        RedisCommand::SetKey => o == set_outcome(s, req, now),
        RedisCommand::Del => o == del_outcome(s, req),
        RedisCommand::Publish => o == publish_outcome(s, req),
        RedisCommand::Subscribe => o == subscribe_outcome(s, req),
        RedisCommand::Fetch => o == fetch_outcome(s, req),
        RedisCommand::Multi => multi_done(s, req, o),
        RedisCommand::Watch => o == watch_outcome(s, req, now),
        RedisCommand::Replicaof => o == replicaof_outcome(s, req),
        RedisCommand::Sync => sync_done(s, req, o),
        RedisCommand::SyncGot => syncgot_done(s, req, o),
        _ => o == failed(s, CmdError::Unsupported),
    }
}

fn port_of(t: &String) -> (r: Option<u16>)
    ensures
        match parse_unsigned(t@, u16::MAX as nat) {
            Some(p) => r == Some(p as u16),
            None => r is None,
        },
{
    match parse_unsigned_max(t.as_str(), u16::MAX as u128) {
        Some(p) => Some(p as u16),
        None => None,
    }
}

impl S {
    fn cmd_replicaof(&mut self, req: &GetItemRequest) -> (r: (Result<GetItemResponse, CmdError>, Vec<Effect>))
        requires
            old(self).wf(),
        ensures
            final(self).wf(),
            outcome_of(final(self)@, r) == replicaof_outcome(old(self)@, req@),
    {
        let a = match &req.args {
            Some(a) => {
                if a.len() != 2 {
                    return fail(CmdError::ArgCount);
                }
                a
            },
            None => {
                return fail(CmdError::ArgCount);
            },
        };
        match &self.state {
            RedisState::Single => {},
            _ => {
                return fail(CmdError::RoleForbidden);
            },
        }
        assert(a@[0]@ == strings_view(a@)[0] && a@[1]@ == strings_view(a@)[1]);
        let port = match port_of(&a[1]) {
            Some(p) => p,
            None => {
                return fail(CmdError::BadAddress);
            },
        };
        self.state = RedisState::SlaveOf(a[0].clone(), port);
        assert(self.txns == old(self).txns && self.txn_index == old(self).txn_index);
        let mut sync_args: Vec<String> = Vec::new();
        sync_args.push(self.public_host.clone());
        sync_args.push(decimal(self.public_port as u128));
        assert(strings_view(sync_args@) =~= seq![old(self)@.public_host, dec_str(old(self)@.public_port as nat)]);
        let request = GetItemRequest {
            cmd: RedisCommand::Sync,
            args: Some(sync_args),
            client_id: None,
            transaction_id: None,
        };
        assert(request@ == sync_request(old(self)@));
        let mut effects: Vec<Effect> = Vec::new();
        effects.push(Effect::SendSync { host: a[0].clone(), port, request });
        assert(effects_view(effects@) =~= seq![
            EffectView::SendSync(strings_view(a@)[0], port, sync_request(old(self)@)),
        ]);
        (Ok(ok_response()), effects)
    }

    fn cmd_sync(&mut self, req: &GetItemRequest) -> (r: (Result<GetItemResponse, CmdError>, Vec<Effect>))
        requires
            old(self).wf(),
        ensures
            final(self).wf(),
            sync_done(old(self)@, req@, outcome_of(final(self)@, r)),
    {
        let a = match &req.args {
            Some(a) => {
                if a.len() != 2 {
                    return fail(CmdError::ArgCount);
                }
                a
            },
            None => {
                return fail(CmdError::ArgCount);
            },
        };
        assert(a@[0]@ == strings_view(a@)[0] && a@[1]@ == strings_view(a@)[1]);
        let port = match port_of(&a[1]) {
            Some(p) => p,
            None => {
                return fail(CmdError::BadAddress);
            },
        };
        let mut id = fresh_uuid();
        let mut tries: usize = 1;
        loop
            invariant
                self.wf(),
                self@ == old(self)@,
                is_v4_id(id@),
                1 <= tries <= SYNC_ID_DRAWS,
                req@.args == Some(strings_view(a@)),
                a@.len() == 2,
            ensures
                is_v4_id(id@),
                !has_follower(old(self)@.followers, id@),
            decreases SYNC_ID_DRAWS - tries,
        {
            if !self.follower_id_taken(&id) {
                break;
            }
            if tries == SYNC_ID_DRAWS {
                return fail(CmdError::BadAddress);
            }
            id = fresh_uuid();
            tries += 1;
        }
        if let RedisState::Single = &self.state {
            self.state = RedisState::Master;
        }
        let ghost idv = id@;
        let ghost fs = self.client_addrs@;
        self.client_addrs.push(Follower { id: id.clone(), host: a[0].clone(), port });
        assert(self.txns == old(self).txns && self.txn_index == old(self).txn_index);
        assert(self.redis == old(self).redis);
        assert(self@.followers =~= old(self)@.followers.push(
            FollowerView { id: idv, host: strings_view(a@)[0], port },
        )) by {
            assert(fs.map_values(|f: Follower| f@) == old(self)@.followers);
        }
        let mut effects: Vec<Effect> = Vec::new();
        effects.push(Effect::DeliverSnapshot { host: a[0].clone(), port });
        assert(effects_view(effects@) =~= seq![EffectView::DeliverSnapshot(strings_view(a@)[0], port)]);
        (Ok(GetItemResponse { ok: true, data: Some(id) }), effects)
    }

    fn follower_id_taken(&self, id: &String) -> (r: bool)
        ensures
            r == has_follower(self@.followers, id@),
    {
        let mut i: usize = 0;
        while i < self.client_addrs.len()
            invariant
                i <= self.client_addrs@.len(),
                forall|j: int| 0 <= j < i ==> #[trigger] self.client_addrs@[j].id@ != id@,
            decreases self.client_addrs@.len() - i,
        {
            if self.client_addrs[i].id == *id {
                assert(self@.followers[i as int].id == id@);
                return true;
            }
            i += 1;
        }
        assert(!has_follower(self@.followers, id@)) by {
            if has_follower(self@.followers, id@) {
                let j = choose|j: int| 0 <= j < self@.followers.len() && #[trigger] self@.followers[j].id == id@;
                assert(self.client_addrs@[j].id@ == id@);
            }
        }
        false
    }

    fn cmd_syncgot(&mut self, req: &GetItemRequest) -> (r: (Result<GetItemResponse, CmdError>, Vec<Effect>))
        requires
            old(self).wf(),
        ensures
            final(self).wf(),
            syncgot_done(old(self)@, req@, outcome_of(final(self)@, r)),
    {
        let a = match &req.args {
            Some(a) => {
                if a.len() != 1 {
                    return fail(CmdError::ArgCount);
                }
                a
            },
            None => {
                return fail(CmdError::ArgCount);
            },
        };
        assert(a@[0]@ == strings_view(a@)[0]);
        let bytes = match hex_decode(a[0].as_str()) {
            Some(b) => b,
            None => {
                return fail(CmdError::BadSnapshot);
            },
        };
        let ghost b = bytes@;
        let done = self.redis.deserialize(bytes);
        assert(self.txns == old(self).txns && self.txn_index == old(self).txn_index);
        if done {
            reply_only(GetItemResponse { ok: true, data: None })
        } else {
            fail(CmdError::BadSnapshot)
        }
    }

    fn cmd_multi(&mut self, req: &GetItemRequest) -> (r: (Result<GetItemResponse, CmdError>, Vec<Effect>))
        requires
            old(self).wf(),
        ensures
            final(self).wf(),
            multi_done(old(self)@, req@, outcome_of(final(self)@, r)),
    {
        if let Some(a) = &req.args {
            if a.len() > 0 {
                return fail(CmdError::ArgCount);
            }
        }
        let mut longest: usize = 0;
        let mut i: usize = 0;
        while i < self.txns.len()
            invariant
                self.wf(),
                i <= self.txns@.len(),
                forall|j: int| 0 <= j < i ==> #[trigger] self.txns@[j].0@.len() <= longest,
            decreases self.txns@.len() - i,
        {
            let l = self.txns[i].0.as_str().unicode_len();
            if l > longest {
                longest = l;
            }
            i += 1;
        }
        assert forall|k: Seq<char>| #[trigger] self@.txns.contains_key(k) implies k.len() <= longest by {
            let j = choose|j: int| 0 <= j < self.txns@.len() && #[trigger] self.txns@[j].0@ == k;
        }
        let mut token = random_token();
        loop
            invariant
                self.wf(),
                self@ == old(self)@,
                token@.len() >= 5,
                token@.len() <= longest + 5,
                forall|i: int| 0 <= i < token@.len() ==> is_token_char(#[trigger] token@[i]),
                forall|k: Seq<char>| #[trigger] self@.txns.contains_key(k) ==> k.len() <= longest,
            ensures
                !self@.txns.contains_key(token@),
            decreases longest + 5 - token@.len(),
        {
            if self.find_txn(token.as_str()).is_none() {
                break;
            }
            let more = random_token();
            let ghost before = token@;
            token.append(more.as_str());
            assert forall|i: int| 0 <= i < token@.len() implies is_token_char(#[trigger] token@[i]) by {
                if i < before.len() {
                    assert(token@[i] == before[i]);
                } else {
                    assert(token@[i] == more@[i - before.len()]);
                }
            }
        }
        let ghost t = token@;
        let reply_token = token.clone();
        let tx = Transaction { commands: Vec::new(), is_wrong: false, watched: Vec::new() };
        assert(tx@.commands =~= Seq::<RequestView>::empty());
        assert(tx@.watched =~= Seq::<(Seq<char>, Option<Seq<char>>)>::empty());
        self.put_txn(token, tx);
        let r = reply_only(GetItemResponse { ok: true, data: Some(reply_token) });
        assert(outcome_of(self@, r).state.txns =~= old(self)@.txns.insert(t, empty_txn()));
        r
    }

    /// The primary's reply to SYNC reached this replica: `Some(id)` on
    /// success. The id becomes the node's own.
    pub fn on_sync_reply(&mut self, reply: Option<String>) -> (r: Result<(), CmdError>)
        requires
            old(self).wf(),
        ensures
            final(self).wf(),
            match reply {
                None => r == Err::<(), CmdError>(CmdError::BadAddress) && final(self)@ == old(self)@,
                Some(t) => match parsed_uuid(t@) {
                    None => r == Err::<(), CmdError>(CmdError::BadAddress) && final(self)@ == old(self)@,
                    Some(u) => r is Ok && final(self)@ == (NodeView { self_id: u, ..old(self)@ }),
                },
            },
    {
        match reply {
            None => Err(CmdError::BadAddress),
            Some(t) => match canonical_uuid(t.as_str()) {
                None => Err(CmdError::BadAddress),
                Some(u) => {
                    self.uuid = u;
                    assert(self.txns == old(self).txns && self.txn_index == old(self).txn_index);
                    Ok(())
                },
            },
        }
    }

    /// The keyspace as hex text of its MessagePack snapshot, for SYNCGOT;
    /// `None` where the encoder failed.
    pub fn snapshot_text(&self) -> (r: Option<String>)
        requires
            self.wf(),
        ensures
            r matches Some(t) ==> (crate::redis::kvs_encodable(self@.engine.kvs) ==> exists|b: Seq<u8>|
                #[trigger] hex_of(b) == t@ && is_snapshot_of(b, self@.engine.kvs)),
    {
        match self.redis.serialize() {
            Some(b) => {
                let t = hex_encode(b.as_slice());
                assert(hex_of(b@) == t@);
                Some(t)
            },
            None => None,
        }
    }
}

impl S {
    /// Handles a request other than EXEC at instant `now`. A node that is
    /// shutting down refuses every request.
    pub fn react_at(&mut self, req: GetItemRequest, now: u128) -> (r: (Result<GetItemResponse, CmdError>, Vec<Effect>))
        requires
            old(self).wf(),
        ensures
            final(self).wf(),
            old(self)@.shutting_down ==> outcome_of(final(self)@, r) == failed(old(self)@, CmdError::Shutting),
            !old(self)@.shutting_down ==> dispatch_done(old(self)@, req@, now, outcome_of(final(self)@, r)),
    {
        if self.shutting_down {
            return fail(CmdError::Shutting);
        }
        match req.cmd {
            RedisCommand::Ping => self.cmd_ping(&req),
            RedisCommand::Get => self.cmd_get(req, now),
            RedisCommand::SetKey => self.cmd_set(req, now),
            RedisCommand::Del => self.cmd_del(req),
            RedisCommand::Publish => self.cmd_publish(&req),
            RedisCommand::Subscribe => self.cmd_subscribe(&req),
            RedisCommand::Fetch => self.cmd_fetch(&req),
            RedisCommand::Multi => self.cmd_multi(&req),
            RedisCommand::Watch => self.cmd_watch(&req, now),
            RedisCommand::Replicaof => self.cmd_replicaof(&req),
            RedisCommand::Sync => self.cmd_sync(&req),
            RedisCommand::SyncGot => self.cmd_syncgot(&req),
            _ => fail(CmdError::Unsupported),
        }
    }

    /// Handles a request other than EXEC at the current wall-clock time.
    pub fn react_to_command(&mut self, req: GetItemRequest) -> (r: (Result<GetItemResponse, CmdError>, Vec<Effect>))
        requires
            old(self).wf(),
        ensures
            final(self).wf(),
            old(self)@.shutting_down ==> outcome_of(final(self)@, r) == failed(old(self)@, CmdError::Shutting),
            !old(self)@.shutting_down ==> exists|now: u128|
                dispatch_done(old(self)@, req@, now, outcome_of(final(self)@, r)),
    {
        let now = wall_clock_ms();
        self.react_at(req, now)
    }

    /// Stops admitting requests. The caller then sends the shutdown sentinel
    /// to the append-only file writer.
    pub fn begin_shutdown(&mut self)
        requires
            old(self).wf(),
        ensures
            final(self).wf(),
            final(self)@ == (NodeView { shutting_down: true, ..old(self)@ }),
    {
        self.shutting_down = true;
        assert(self.txns == old(self).txns && self.txn_index == old(self).txn_index);
    }

    /// Whether the node refuses new requests.
    pub fn is_shutting_down(&self) -> (r: bool)
        ensures
            r == self@.shutting_down,
    {
        self.shutting_down
    }

    /// The node's replication role.
    pub fn role(&self) -> (r: &RedisState)
        ensures
            r@ == self@.role,
    {
        &self.state
    }

    /// The node's own id, sent with the writes it forwards.
    pub fn self_id(&self) -> (r: &String)
        ensures
            r@ == self@.self_id,
    {
        &self.uuid
    }
}

/// The engine after EXEC re-reads each watched key.
pub open spec fn after_reads(v: RedisView, w: Seq<(Seq<char>, Option<Seq<char>>)>, now: u128) -> RedisView
    decreases w.len(),
{
    if w.len() == 0 {
        v
    } else {
        after_reads(v, w.drop_last(), now).after_read(w.last().0, now)
    }
}

/// Some watched key no longer holds the value it held at WATCH.
pub open spec fn conflict(v: RedisView, w: Seq<(Seq<char>, Option<Seq<char>>)>, now: u128) -> bool {
    exists|i: int| 0 <= i < w.len() && v.live(#[trigger] w[i].0, now) != w[i].1
}

/// What replaying buffered requests produces.
pub ghost struct Replay {
    pub engine: RedisView,
    pub replies: Seq<ResponseView>,
    pub effects: Seq<EffectView>,
}

/// Replaying buffered requests in order on engine `v`: a GET reads, a SET
/// stores and is logged and forwarded as outside a transaction.
pub open spec fn run_queued(
    v: RedisView,
    cmds: Seq<RequestView>,
    now: u128,
    fs: Seq<FollowerView>,
    id: Seq<char>,
) -> Replay
    decreases cmds.len(),
{
    if cmds.len() == 0 {
        Replay { engine: v, replies: Seq::empty(), effects: Seq::empty() }
    } else {
        let p = run_queued(v, cmds.drop_last(), now, fs, id);
        let c = cmds.last();
        let a = c.args->0;
        if c.cmd == RedisCommand::Get {
            Replay {
                engine: p.engine.after_read(a[0], now),
                replies: p.replies.push(ResponseView { ok: p.engine.live(a[0], now) is Some, data: p.engine.live(a[0], now) }),
                effects: p.effects,
            }
        } else {
            let exp = deadline_after(set_ttl(a)->Ok_0, now);
            Replay {
                engine: p.engine.after_set(a[0], a[1], exp),
                replies: p.replies.push(ResponseView { ok: true, data: Some(ok_text()) }),
                effects: p.effects + seq![EffectView::AppendAof(set_line(a[0], a[1], exp as nat))]
                    + forwards(fs, forwarded(c, id)),
            }
        }
    }
}

/// What EXEC does.
pub ghost struct ExecOutcome {
    pub state: NodeView,
    pub reply: Result<Seq<ResponseView>, CmdError>,
    pub effects: Seq<EffectView>,
}

pub open spec fn exec_failed(s: NodeView, e: CmdError) -> ExecOutcome {
    ExecOutcome { state: s, reply: Err(e), effects: Seq::empty() }
}

/// EXEC: the transaction is closed either way; where a watched key changed
/// nothing of it is applied, else its requests run in order.
pub open spec fn exec_outcome(s: NodeView, req: RequestView, now: u128) -> ExecOutcome {
    if s.shutting_down {
        exec_failed(s, CmdError::Shutting)
    } else if req.cmd != RedisCommand::Exec {
        exec_failed(s, CmdError::Unsupported)
    } else {
        match req.transaction_id {
            None => exec_failed(s, CmdError::TransactionUnknown),
            Some(t) => if !s.txns.contains_key(t) {
                exec_failed(s, CmdError::TransactionUnknown)
            } else {
                let tx = s.txns[t];
                let v1 = after_reads(s.engine, tx.watched, now);
                if conflict(s.engine, tx.watched, now) {
                    ExecOutcome {
                        state: NodeView { engine: v1, txns: s.txns.remove(t), ..s },
                        reply: Err(CmdError::TransactionConflict),
                        effects: Seq::empty(),
                    }
                } else {
                    let rp = run_queued(v1, tx.commands, now, s.followers, s.self_id);
                    ExecOutcome {
                        state: NodeView { engine: rp.engine, txns: s.txns.remove(t), ..s },
                        reply: Ok(rp.replies),
                        effects: rp.effects,
                    }
                }
            },
        }
    }
}

pub open spec fn multi_reply_view(r: Result<MultiGetItemResponse, CmdError>) -> Result<Seq<ResponseView>, CmdError> {
    match r {
        Ok(m) => match m.data {
            Some(v) => Ok(responses_view(v@)),
            None => Ok(Seq::empty()),
        },
        Err(e) => Err(e),
    }
}

/// Re-reading keys never changes what a read of any key observes.
pub proof fn lemma_reads_keep_live(v: RedisView, w: Seq<(Seq<char>, Option<Seq<char>>)>, now: u128, k: Seq<char>)
    ensures
        after_reads(v, w, now).live(k, now) == v.live(k, now),
    decreases w.len(),
{
    if w.len() > 0 {
        lemma_reads_keep_live(v, w.drop_last(), now, k);
    }
}

/// A transaction that EXEC commits saw, for every key it watched, the
/// value recorded at WATCH.
pub proof fn lemma_commit_saw_watched_values(s: NodeView, req: RequestView, now: u128)
    requires
        exec_outcome(s, req, now).reply is Ok,
    ensures
        ({
            let w = s.txns[req.transaction_id->0].watched;
            forall|i: int| 0 <= i < w.len() ==> s.engine.live(#[trigger] w[i].0, now) == w[i].1
        }),
{
}

fn same_value(a: &Option<String>, b: &Option<String>) -> (r: bool)
    ensures
        r == (opt_str(*a) == opt_str(*b)),
{
    match (a, b) {
        (Some(x), Some(y)) => *x == *y,
        (None, None) => true,
        _ => false,
    }
}

impl S {
    /// Runs the transaction that EXEC names, at instant `now`.
    pub fn exec_at(&mut self, req: GetItemRequest, now: u128) -> (r: (Result<MultiGetItemResponse, CmdError>, Vec<Effect>))
        requires
            old(self).wf(),
        ensures
            final(self).wf(),
            final(self)@ == exec_outcome(old(self)@, req@, now).state,
            multi_reply_view(r.0) == exec_outcome(old(self)@, req@, now).reply,
            r.0 matches Ok(m) ==> m.ok && m.data is Some,
            effects_view(r.1@) == exec_outcome(old(self)@, req@, now).effects,
    {
        if self.shutting_down || req.cmd != RedisCommand::Exec {
            let e = if self.shutting_down {
                CmdError::Shutting
            } else {
                CmdError::Unsupported
            };
            let r = (Err(e), Vec::new());
            assert(effects_view(r.1@) =~= Seq::<EffectView>::empty());
            return r;
        }
        let i = match &req.transaction_id {
            Some(t) => match self.find_txn(t.as_str()) {
                Some(i) => i,
                None => {
                    let r = (Err(CmdError::TransactionUnknown), Vec::new());
                    assert(effects_view(r.1@) =~= Seq::<EffectView>::empty());
                    return r;
                },
            },
            None => {
                let r = (Err(CmdError::TransactionUnknown), Vec::new());
                assert(effects_view(r.1@) =~= Seq::<EffectView>::empty());
                return r;
            },
        };
        let ghost t = req@.transaction_id->0;
        let (_tok, mut tx) = self.take_txn(i);
        let ghost tv = tx@;
        let ghost s0 = old(self)@;
        let ghost w = tv.watched;
        let mut clash = false;
        let mut j: usize = 0;
        assert(w.take(0) =~= Seq::<(Seq<char>, Option<Seq<char>>)>::empty());
        while j < tx.watched.len()
            invariant
                self.wf(),
                tv == tx@,
                w == tv.watched,
                j <= w.len(),
                self@ == (NodeView { engine: after_reads(s0.engine, w.take(j as int), now), txns: s0.txns.remove(t), ..s0 }),
                clash == exists|m: int| 0 <= m < j && s0.engine.live(#[trigger] w[m].0, now) != w[m].1,
            decreases w.len() - j,
        {
            let ghost before = self@.engine;
            assert(w.take(j + 1).drop_last() =~= w.take(j as int));
            assert(tx.watched@[j as int].0@ == w[j as int].0 && opt_str(tx.watched@[j as int].1) == w[j as int].1);
            let ghost tb = self.txns;
            let ghost ib = self.txn_index@;
            let v = self.redis.get_at(tx.watched[j].0.as_str(), now);
            assert(self.txns == tb && self.txn_index@ == ib);
            proof {
                lemma_reads_keep_live(s0.engine, w.take(j as int), now, w[j as int].0);
            }
            if !same_value(&v, &tx.watched[j].1) {
                clash = true;
            }
            j += 1;
        }
        assert(w.take(j as int) =~= w);
        if clash {
            tx.is_wrong = true;
            let r = (Err(CmdError::TransactionConflict), Vec::new());
            assert(effects_view(r.1@) =~= Seq::<EffectView>::empty());
            return r;
        }
        let ghost v1 = self@.engine;
        let mut replies: Vec<GetItemResponse> = Vec::new();
        let mut effects: Vec<Effect> = Vec::new();
        let ghost cmds = tv.commands;
        let mut k: usize = 0;
        assert(cmds.take(0) =~= Seq::<RequestView>::empty());
        assert(responses_view(replies@) =~= Seq::<ResponseView>::empty());
        assert(effects_view(effects@) =~= Seq::<EffectView>::empty());
        while k < tx.commands.len()
            invariant
                self.wf(),
                tv == tx@,
                txn_ok(tv),
                cmds == tv.commands,
                k <= cmds.len(),
                self@ == (NodeView {
                    engine: run_queued(v1, cmds.take(k as int), now, s0.followers, s0.self_id).engine,
                    txns: s0.txns.remove(t),
                    ..s0
                }),
                responses_view(replies@) == run_queued(v1, cmds.take(k as int), now, s0.followers, s0.self_id).replies,
                effects_view(effects@) == run_queued(v1, cmds.take(k as int), now, s0.followers, s0.self_id).effects,
            decreases cmds.len() - k,
        {
            let c = &tx.commands[k];
            assert(c@ == cmds[k as int]);
            assert(queued_ok(cmds[k as int]));
            assert(cmds.take(k + 1).drop_last() =~= cmds.take(k as int));
            assert(cmds.take(k + 1).last() == cmds[k as int]);
            let a = c.args.as_ref().unwrap();
            let ghost av = strings_view(a@);
            let ghost rb = responses_view(replies@);
            let ghost eb = effects_view(effects@);
            if c.cmd == RedisCommand::Get {
                assert(a@[0]@ == av[0]);
                let ghost tb = self.txns;
                let ghost ib = self.txn_index@;
                let v = self.redis.get_at(a[0].as_str(), now);
                assert(self.txns == tb && self.txn_index@ == ib);
                let found = v.is_some();
                let resp = GetItemResponse { ok: found, data: v };
                let ghost rv = resp@;
                replies.push(resp);
                assert(responses_view(replies@) =~= rb.push(rv));
            } else {
                assert(a@[0]@ == av[0] && a@[1]@ == av[1]);
                let ttl = match set_ttl_ms(a) {
                    Ok(x) => x,
                    Err(_) => 0,
                };
                let exp = if ttl == 0 {
                    0
                } else {
                    now.saturating_add(ttl)
                };
                let ghost tb = self.txns;
                let ghost ib = self.txn_index@;
                self.redis.set_at(a[0].as_str(), a[1].as_str(), exp);
                assert(self.txns == tb && self.txn_index@ == ib);
                let resp = ok_response();
                let ghost rv = resp@;
                replies.push(resp);
                assert(responses_view(replies@) =~= rb.push(rv));
                let line = aof_set_line(a[0].as_str(), a[1].as_str(), exp);
                let ghost ev = EffectView::AppendAof(line@);
                effects.push(Effect::AppendAof(line));
                assert(effects_view(effects@) =~= eb + seq![ev]);
                self.forward_all(c, &mut effects);
            }
            k += 1;
        }
        assert(cmds.take(k as int) =~= cmds);
        (Ok(MultiGetItemResponse { ok: true, data: Some(replies) }), effects)
    }

    /// Runs the transaction that EXEC names, at the current wall-clock time.
    pub fn exec(&mut self, req: GetItemRequest) -> (r: (Result<MultiGetItemResponse, CmdError>, Vec<Effect>))
        requires
            old(self).wf(),
        ensures
            final(self).wf(),
            exists|now: u128|
                final(self)@ == exec_outcome(old(self)@, req@, now).state && multi_reply_view(r.0)
                    == exec_outcome(old(self)@, req@, now).reply && effects_view(r.1@) == exec_outcome(
                    old(self)@,
                    req@,
                    now,
                ).effects,
    {
        let now = wall_clock_ms();
        self.exec_at(req, now)
    }
}

impl S {
    /// Replays the text of an append-only file into the keyspace at instant
    /// `now`; returns how many non-empty lines held no record.
    pub fn load_aof(&mut self, text: &str, now: u128) -> (r: usize)
        requires
            old(self).wf(),
        ensures
            final(self).wf(),
            final(self)@ == with_engine(old(self)@, replay_lines(old(self)@.engine, split(text@, '\n'), now)),
            r == skipped_count(split(text@, '\n')),
    {
        let r = self.redis.replay_aof(text, now);
        assert(self.txns == old(self).txns && self.txn_index == old(self).txn_index);
        r
    }

    /// The open transactions that watch `key`, each once.
    pub fn watchers_of(&self, key: &str) -> (r: Vec<String>)
        requires
            self.wf(),
        ensures
            forall|t: Seq<char>|
                strings_view(r@).contains(t) <==> self@.txns.contains_key(t) && watches(self@.txns[t], key@),
            forall|i: int, j: int| 0 <= i < j < r@.len() ==> #[trigger] r@[i]@ != #[trigger] r@[j]@,
    {
        let mut out: Vec<String> = Vec::new();
        let ghost mut src: Seq<int> = Seq::empty();
        let mut i: usize = 0;
        while i < self.txns.len()
            invariant
                self.wf(),
                i <= self.txns@.len(),
                src.len() == out@.len(),
                forall|a: int|
                    0 <= a < out@.len() ==> 0 <= #[trigger] src[a] < i && self.txns@[src[a]].0@ == out@[a]@
                        && watches(self.txns@[src[a]].1@, key@),
                forall|a: int, b: int| 0 <= a < b < out@.len() ==> #[trigger] src[a] < #[trigger] src[b],
                forall|j: int|
                    0 <= j < i && watches(#[trigger] self.txns@[j].1@, key@) ==> exists|a: int|
                        0 <= a < out@.len() && src[a] == j,
            decreases self.txns@.len() - i,
        {
            let found = watches_key(&self.txns[i].1, key);
            if found {
                let tok = self.txns[i].0.clone();
                let ghost src0 = src;
                let ghost n0 = out@.len();
                out.push(tok);
                proof {
                    src = src.push(i as int);
                }
                assert forall|j: int|
                    0 <= j < i + 1 && watches(#[trigger] self.txns@[j].1@, key@) implies exists|a: int|
                    0 <= a < out@.len() && src[a] == j by {
                    if j == i {
                        assert(src[out@.len() - 1] == j);
                    } else {
                        let a = choose|a: int| 0 <= a < n0 && src0[a] == j;
                        assert(src[a] == src0[a]);
                    }
                }
            }
            i += 1;
        }
        assert forall|x: int, y: int| 0 <= x < y < out@.len() implies #[trigger] out@[x]@ != #[trigger] out@[y]@ by {
            assert(src[x] < src[y]);
        }
        assert forall|t: Seq<char>|
            strings_view(out@).contains(t) <==> self@.txns.contains_key(t) && watches(self@.txns[t], key@) by {
            if strings_view(out@).contains(t) {
                let a = choose|a: int| 0 <= a < out@.len() && strings_view(out@)[a] == t;
                assert(self.txns@[src[a]].0@ == t);
            }
            if self@.txns.contains_key(t) && watches(self@.txns[t], key@) {
                let j = choose|j: int| 0 <= j < self.txns@.len() && #[trigger] self.txns@[j].0@ == t;
                assert(watches(self.txns@[j].1@, key@));
                let a = choose|a: int| 0 <= a < out@.len() && src[a] == j;
                assert(strings_view(out@)[a] == t);
            }
        }
        out
    }
}

fn watches_key(t: &Transaction, key: &str) -> (r: bool)
    ensures
        r == watches(t@, key@),
{
    let w = &t.watched;
    let ghost tv = t@;
    let mut found = false;
    let mut m: usize = 0;
    while m < w.len()
        invariant
            tv == t@,
            watched_view(w@) == tv.watched,
            m <= w@.len(),
            found == exists|x: int| 0 <= x < m && #[trigger] tv.watched[x].0 == key@,
        decreases w@.len() - m,
    {
        assert(w@[m as int].0@ == tv.watched[m as int].0);
        if str_same(w[m].0.as_str(), key) {
            found = true;
        }
        m += 1;
    }
    found
}

fn str_same(a: &str, b: &str) -> (r: bool)
    ensures
        r == (a@ == b@),
{
    let x = a.to_owned();
    let y = b.to_owned();
    x == y
}

/// A snapshot text of a primary's keyspace, handed to a node with SYNCGOT,
/// succeeds and leaves that node's keyspace equal to the primary's.
pub proof fn lemma_sync_transfers_keyspace(
    text: Seq<char>,
    primary_kvs: Map<Seq<char>, crate::redis::RecordView>,
    s: NodeView,
    req: RequestView,
    o: Outcome,
)
    requires
        exists|b: Seq<u8>| #[trigger] hex_of(b) == text && is_snapshot_of(b, primary_kvs),
        req.args == Some(seq![text]),
        syncgot_done(s, req, o),
    ensures
        o.reply == ok_with(None),
        o.state.engine.kvs == primary_kvs,
        o.state.engine.subs == s.engine.subs,
{
    let b = choose|b: Seq<u8>| #[trigger] hex_of(b) == text && is_snapshot_of(b, primary_kvs);
    let a = seq![text];
    assert(a[0] == text);
    assert(is_hex_text(text)) by {
        crate::codec::lemma_hex_text_is_hex(b);
    }
    let b2 = choose|b2: Seq<u8>|
        #![trigger hex_of(b2)]
        hex_of(b2) == a[0] && {
            &&& o.effects == Seq::<EffectView>::empty()
            &&& (o.reply == Err::<ResponseView, CmdError>(CmdError::BadSnapshot) && o.state == s) || (
            o.reply == ok_with(None) && o.state.engine.subs == s.engine.subs && restores_to(
                b2,
                o.state.engine.kvs,
            ) && o.state == with_engine(s, o.state.engine))
            &&& (exists|es: Seq<(Seq<char>, Seq<char>, Option<u128>)>|
                #[trigger] crate::redis::msgpack_entries(es) == b2 && crate::redis::encodable(es)) ==> o.reply is Ok
        };
    crate::codec::lemma_hex_of_injective(b, b2);
    let es = choose|es: Seq<(Seq<char>, Seq<char>, Option<u128>)>|
        #[trigger] crate::redis::msgpack_entries(es) == b && crate::redis::encodable(es)
            && crate::redis::load_map(es) == primary_kvs;
    assert(crate::redis::msgpack_entries(es) == b2);
}

} // verus!
