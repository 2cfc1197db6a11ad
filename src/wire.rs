//! The word form of requests and replies on the node's text transport: a
//! request is its verb's name, then its arguments, with `-t TOKEN` naming
//! its transaction and `-c ID` the primary that forwards it; a reply is
//! `OK [data]`, `NIL` or `ERR kind`.

use crate::protocol::{opt_str, strings_view, CmdError, GetItemRequest, GetItemResponse, RedisCommand, RequestView};
use vstd::prelude::*;

verus! {

broadcast use vstd::string::group_string_axioms;

/// The verb names, told apart by their length and first letter.
proof fn lemma_verb_names_differ()
    ensures
        "PING"@.len() == 4,
        "GET"@.len() == 3,
        "SET"@.len() == 3,
        "DEL"@.len() == 3,
        "PUBLISH"@.len() == 7,
        "SUBSCRIBE"@.len() == 9,
        "FETCH"@.len() == 5,
        "MULTI"@.len() == 5,
        "WATCH"@.len() == 5,
        "EXEC"@.len() == 4,
        "REPLICAOF"@.len() == 9,
        "SYNC"@.len() == 4,
        "SYNCGOT"@.len() == 7,
        "PING"@[0] == 'P',
        "GET"@[0] == 'G',
        "SET"@[0] == 'S',
        "DEL"@[0] == 'D',
        "PUBLISH"@[0] == 'P',
        "SUBSCRIBE"@[0] == 'S',
        "FETCH"@[0] == 'F',
        "MULTI"@[0] == 'M',
        "WATCH"@[0] == 'W',
        "EXEC"@[0] == 'E',
        "REPLICAOF"@[0] == 'R',
        "SYNC"@[0] == 'S',
        "SYNCGOT"@[0] == 'S',
{
    reveal_strlit("PING");
    reveal_strlit("GET");
    reveal_strlit("SET");
    reveal_strlit("DEL");
    reveal_strlit("PUBLISH");
    reveal_strlit("SUBSCRIBE");
    reveal_strlit("FETCH");
    reveal_strlit("MULTI");
    reveal_strlit("WATCH");
    reveal_strlit("EXEC");
    reveal_strlit("REPLICAOF");
    reveal_strlit("SYNC");
    reveal_strlit("SYNCGOT");
}

/// The verb a name stands for.
pub open spec fn verb_named(w: Seq<char>) -> Option<RedisCommand> {
    if w == "PING"@ {
        Some(RedisCommand::Ping)
    } else if w == "GET"@ {
        Some(RedisCommand::Get)
    } else if w == "SET"@ {
        Some(RedisCommand::SetKey)
    } else if w == "DEL"@ {
        Some(RedisCommand::Del)
    } else if w == "PUBLISH"@ {
        Some(RedisCommand::Publish)
    } else if w == "SUBSCRIBE"@ {
        Some(RedisCommand::Subscribe)
    } else if w == "FETCH"@ {
        Some(RedisCommand::Fetch)
    } else if w == "MULTI"@ {
        Some(RedisCommand::Multi)
    } else if w == "WATCH"@ {
        Some(RedisCommand::Watch)
    } else if w == "EXEC"@ {
        Some(RedisCommand::Exec)
    } else if w == "REPLICAOF"@ {
        Some(RedisCommand::Replicaof)
    } else if w == "SYNC"@ {
        Some(RedisCommand::Sync)
    } else if w == "SYNCGOT"@ {
        Some(RedisCommand::SyncGot)
    } else {
        None
    }
}

/// The verb of a name.
pub fn verb_from_name(w: &str) -> (r: Option<RedisCommand>)
    ensures
        r == verb_named(w@),
{
    let s = w.to_owned();
    if s == "PING".to_owned() {
        Some(RedisCommand::Ping)
    } else if s == "GET".to_owned() {
        Some(RedisCommand::Get)
    } else if s == "SET".to_owned() {
        Some(RedisCommand::SetKey)
    } else if s == "DEL".to_owned() {
        Some(RedisCommand::Del)
    } else if s == "PUBLISH".to_owned() {
        Some(RedisCommand::Publish)
    } else if s == "SUBSCRIBE".to_owned() {
        Some(RedisCommand::Subscribe)
    } else if s == "FETCH".to_owned() {
        Some(RedisCommand::Fetch)
    } else if s == "MULTI".to_owned() {
        Some(RedisCommand::Multi)
    } else if s == "WATCH".to_owned() {
        Some(RedisCommand::Watch)
    } else if s == "EXEC".to_owned() {
        Some(RedisCommand::Exec)
    } else if s == "REPLICAOF".to_owned() {
        Some(RedisCommand::Replicaof)
    } else if s == "SYNC".to_owned() {
        Some(RedisCommand::Sync)
    } else if s == "SYNCGOT".to_owned() {
        Some(RedisCommand::SyncGot)
    } else {
        None
    }
}

/// The name of a verb (the cluster verbs have none on this transport).
pub fn verb_name(c: RedisCommand) -> (r: Option<String>)
    ensures
        r is Some <==> c != RedisCommand::ClusterMeet && c != RedisCommand::ClusterAddSlots && c
            != RedisCommand::ClusterCreate,
        r matches Some(n) ==> verb_named(n@) == Some(c),
{
    proof {
        lemma_verb_names_differ();
    }
    match c {
        RedisCommand::Ping => {
            let n = "PING".to_owned();

            assert(verb_named(n@) == Some(RedisCommand::Ping));
            Some(n)
        },
        RedisCommand::Get => {
            let n = "GET".to_owned();
            assert(verb_named(n@) == Some(RedisCommand::Get));
            Some(n)
        },
        RedisCommand::SetKey => {
            let n = "SET".to_owned();
            assert(verb_named(n@) == Some(RedisCommand::SetKey));
            Some(n)
        },
        RedisCommand::Del => {
            let n = "DEL".to_owned();
            assert(verb_named(n@) == Some(RedisCommand::Del));
            Some(n)
        },
        RedisCommand::Publish => {
            let n = "PUBLISH".to_owned();
            assert(verb_named(n@) == Some(RedisCommand::Publish));
            Some(n)
        },
        RedisCommand::Subscribe => {
            let n = "SUBSCRIBE".to_owned();
            assert(verb_named(n@) == Some(RedisCommand::Subscribe));
            Some(n)
        },
        RedisCommand::Fetch => {
            let n = "FETCH".to_owned();
            assert(verb_named(n@) == Some(RedisCommand::Fetch));
            Some(n)
        },
        RedisCommand::Multi => {
            let n = "MULTI".to_owned();
            assert(verb_named(n@) == Some(RedisCommand::Multi));
            Some(n)
        },
        RedisCommand::Watch => {
            let n = "WATCH".to_owned();
            assert(verb_named(n@) == Some(RedisCommand::Watch));
            Some(n)
        },
        RedisCommand::Exec => {
            let n = "EXEC".to_owned();
            assert(verb_named(n@) == Some(RedisCommand::Exec));
            Some(n)
        },
        RedisCommand::Replicaof => {
            let n = "REPLICAOF".to_owned();
            assert(verb_named(n@) == Some(RedisCommand::Replicaof));
            Some(n)
        },
        RedisCommand::Sync => {
            let n = "SYNC".to_owned();
            assert(verb_named(n@) == Some(RedisCommand::Sync));
            Some(n)
        },
        RedisCommand::SyncGot => {
            let n = "SYNCGOT".to_owned();
            assert(verb_named(n@) == Some(RedisCommand::SyncGot));
            Some(n)
        },
        _ => None,
    }
}

/// The arguments and options of request words after the verb: `-t X`
/// names the transaction and `-c X` the forwarding primary (the last of
/// each counts); every other word is an argument.
pub open spec fn read_options(ws: Seq<Seq<char>>) -> (Seq<Seq<char>>, Option<Seq<char>>, Option<Seq<char>>)
    decreases ws.len(),
{
    if ws.len() == 0 {
        (Seq::empty(), None, None)
    } else if ws.len() >= 2 && ws[0] == "-t"@ {
        let r = read_options(ws.skip(2));
        (r.0, if r.1 is Some { r.1 } else { Some(ws[1]) }, r.2)
    } else if ws.len() >= 2 && ws[0] == "-c"@ {
        let r = read_options(ws.skip(2));
        (r.0, r.1, if r.2 is Some { r.2 } else { Some(ws[1]) })
    } else {
        let r = read_options(ws.skip(1));
        (seq![ws[0]] + r.0, r.1, r.2)
    }
}

/// The request that words spell; `None` for no words or an unknown verb.
pub open spec fn request_of_words(ws: Seq<Seq<char>>) -> Option<RequestView> {
    if ws.len() == 0 {
        None
    } else {
        match verb_named(ws[0]) {
            None => None,
            Some(c) => {
                let o = read_options(ws.skip(1));
                Some(RequestView { cmd: c, args: Some(o.0), client_id: o.2, transaction_id: o.1 })
            },
        }
    }
}

fn read_options_from(ws: &Vec<String>, i: usize) -> (r: (Vec<String>, Option<String>, Option<String>))
    requires
        i <= ws@.len(),
    ensures
        (strings_view(r.0@), opt_str(r.1), opt_str(r.2)) == read_options(strings_view(ws@).skip(i as int)),
    decreases ws@.len() - i,
{
    let ghost rest = strings_view(ws@).skip(i as int);
    if i == ws.len() {
        let r = (Vec::new(), None, None);
        assert(strings_view(r.0@) =~= Seq::<Seq<char>>::empty());
        return r;
    }
    assert(rest[0] == ws@[i as int]@);
    proof {
        reveal_strlit("-t");
        reveal_strlit("-c");
    }
    let is_t = ws[i] == "-t".to_owned();
    let is_c = ws[i] == "-c".to_owned();
    if i + 1 < ws.len() && (is_t || is_c) {
        assert(rest.skip(2) =~= strings_view(ws@).skip(i + 2));
        assert(rest[1] == ws@[i + 1]@);
        let (a, t, c) = read_options_from(ws, i + 2);
        if is_t {
            let t2 = match t {
                Some(x) => Some(x),
                None => Some(ws[i + 1].clone()),
            };
            (a, t2, c)
        } else {
            assert(rest[0] != "-t"@);
            let c2 = match c {
                Some(x) => Some(x),
                None => Some(ws[i + 1].clone()),
            };
            (a, t, c2)
        }
    } else {
        assert(rest.skip(1) =~= strings_view(ws@).skip(i + 1));
        let (mut a, t, c) = read_options_from(ws, i + 1);
        let ghost a0 = strings_view(a@);
        a.insert(0, ws[i].clone());
        assert(strings_view(a@) =~= seq![rest[0]] + a0);
        (a, t, c)
    }
}

/// The request that `ws` spells.
pub fn request_from_words(ws: &Vec<String>) -> (r: Option<GetItemRequest>)
    ensures
        match request_of_words(strings_view(ws@)) {
            Some(v) => r matches Some(q) && q@ == v,
            None => r is None,
        },
{
    if ws.len() == 0 {
        return None;
    }
    assert(strings_view(ws@)[0] == ws@[0]@);
    match verb_from_name(ws[0].as_str()) {
        None => None,
        Some(cmd) => {
            let (args, t, c) = read_options_from(ws, 1);
            Some(GetItemRequest { cmd, args: Some(args), client_id: c, transaction_id: t })
        },
    }
}

/// The words of a request: verb, arguments, then `-c ID` and `-t TOKEN`
/// where present. `None` for a verb without a name on this transport.
pub fn request_words(req: &GetItemRequest) -> (r: Option<Vec<String>>)
    ensures
        r is Some <==> req.cmd != RedisCommand::ClusterMeet && req.cmd != RedisCommand::ClusterAddSlots
            && req.cmd != RedisCommand::ClusterCreate,
        r matches Some(ws) ==> ws@.len() >= 1 && verb_named(ws@[0]@) == Some(req.cmd),
{
    let name = match verb_name(req.cmd) {
        Some(n) => n,
        None => {
            return None;
        },
    };
    let mut out: Vec<String> = Vec::new();
    out.push(name);
    if let Some(a) = &req.args {
        let mut i: usize = 0;
        while i < a.len()
            invariant
                out@.len() >= 1,
                verb_named(out@[0]@) == Some(req.cmd),
            decreases a@.len() - i,
        {
            out.push(a[i].clone());
            i += 1;
        }
    }
    if let Some(c) = &req.client_id {
        out.push("-c".to_owned());
        out.push(c.clone());
    }
    if let Some(t) = &req.transaction_id {
        out.push("-t".to_owned());
        out.push(t.clone());
    }
    Some(out)
}

/// The error names, told apart by their length and first letter.
proof fn lemma_error_names_differ()
    ensures
        "ArgCount"@.len() == 8,
        "BadExpiry"@.len() == 9,
        "UnknownHandle"@.len() == 13,
        "TransactionUnknown"@.len() == 18,
        "AlreadyWatched"@.len() == 14,
        "TransactionConflict"@.len() == 19,
        "RoleForbidden"@.len() == 13,
        "Shutting"@.len() == 8,
        "Unsupported"@.len() == 11,
        "BadAddress"@.len() == 10,
        "BadSnapshot"@.len() == 11,
        "ArgCount"@[0] == 'A',
        "BadExpiry"@[0] == 'B',
        "UnknownHandle"@[0] == 'U',
        "TransactionUnknown"@[0] == 'T',
        "AlreadyWatched"@[0] == 'A',
        "TransactionConflict"@[0] == 'T',
        "RoleForbidden"@[0] == 'R',
        "Shutting"@[0] == 'S',
        "Unsupported"@[0] == 'U',
        "BadAddress"@[0] == 'B',
        "BadSnapshot"@[0] == 'B',
{
    reveal_strlit("ArgCount");
    reveal_strlit("BadExpiry");
    reveal_strlit("UnknownHandle");
    reveal_strlit("TransactionUnknown");
    reveal_strlit("AlreadyWatched");
    reveal_strlit("TransactionConflict");
    reveal_strlit("RoleForbidden");
    reveal_strlit("Shutting");
    reveal_strlit("Unsupported");
    reveal_strlit("BadAddress");
    reveal_strlit("BadSnapshot");
}

/// The name of an error kind.
pub fn error_name(e: CmdError) -> (r: String)
    ensures
        error_named(r@) == Some(e),
{
    proof {
        lemma_error_names_differ();
    }
    match e {
        CmdError::ArgCount => {
            let n = "ArgCount".to_owned();

            assert(error_named(n@) == Some(CmdError::ArgCount));
            n
        },
        CmdError::BadExpiry => {
            let n = "BadExpiry".to_owned();
            assert(error_named(n@) == Some(CmdError::BadExpiry));
            n
        },
        CmdError::UnknownHandle => {
            let n = "UnknownHandle".to_owned();
            assert(error_named(n@) == Some(CmdError::UnknownHandle));
            n
        },
        CmdError::TransactionUnknown => {
            let n = "TransactionUnknown".to_owned();
            assert(error_named(n@) == Some(CmdError::TransactionUnknown));
            n
        },
        CmdError::AlreadyWatched => {
            let n = "AlreadyWatched".to_owned();
            assert(error_named(n@) == Some(CmdError::AlreadyWatched));
            n
        },
        CmdError::TransactionConflict => {
            let n = "TransactionConflict".to_owned();
            assert(error_named(n@) == Some(CmdError::TransactionConflict));
            n
        },
        CmdError::RoleForbidden => {
            let n = "RoleForbidden".to_owned();
            assert(error_named(n@) == Some(CmdError::RoleForbidden));
            n
        },
        CmdError::Shutting => {
            let n = "Shutting".to_owned();
            assert(error_named(n@) == Some(CmdError::Shutting));
            n
        },
        CmdError::Unsupported => {
            let n = "Unsupported".to_owned();
            assert(error_named(n@) == Some(CmdError::Unsupported));
            n
        },
        CmdError::BadAddress => {
            let n = "BadAddress".to_owned();
            assert(error_named(n@) == Some(CmdError::BadAddress));
            n
        },
        CmdError::BadSnapshot => {
            let n = "BadSnapshot".to_owned();
            assert(error_named(n@) == Some(CmdError::BadSnapshot));
            n
        },
    }
}

/// The error kind a name stands for.
pub open spec fn error_named(w: Seq<char>) -> Option<CmdError> {
    if w == "ArgCount"@ {
        Some(CmdError::ArgCount)
    } else if w == "BadExpiry"@ {
        Some(CmdError::BadExpiry)
    } else if w == "UnknownHandle"@ {
        Some(CmdError::UnknownHandle)
    } else if w == "TransactionUnknown"@ {
        Some(CmdError::TransactionUnknown)
    } else if w == "AlreadyWatched"@ {
        Some(CmdError::AlreadyWatched)
    } else if w == "TransactionConflict"@ {
        Some(CmdError::TransactionConflict)
    } else if w == "RoleForbidden"@ {
        Some(CmdError::RoleForbidden)
    } else if w == "Shutting"@ {
        Some(CmdError::Shutting)
    } else if w == "Unsupported"@ {
        Some(CmdError::Unsupported)
    } else if w == "BadAddress"@ {
        Some(CmdError::BadAddress)
    } else if w == "BadSnapshot"@ {
        Some(CmdError::BadSnapshot)
    } else {
        None
    }
}

/// The words of a reply: `OK data`, `OK` without data, `NIL` for a
/// failed read without data, `ERR kind` for an error.
pub fn reply_words(r: &Result<GetItemResponse, CmdError>) -> (ws: Vec<String>)
    ensures
        reply_of_words(strings_view(ws@)) == match r {
            Ok(x) => Some(Ok::<(bool, Option<Seq<char>>), CmdError>((x.ok, opt_str(x.data)))),
            Err(e) => Some(Err::<(bool, Option<Seq<char>>), CmdError>(*e)),
        },
{
    proof {
        reveal_strlit("OK");
        reveal_strlit("ERR");
        reveal_strlit("NO");
    }
    let mut ws: Vec<String> = Vec::new();
    match r {
        Ok(x) => {
            ws.push(if x.ok { "OK".to_owned() } else { "NO".to_owned() });
            if let Some(d) = &x.data {
                ws.push(d.clone());
            }
        },
        Err(e) => {
            ws.push("ERR".to_owned());
            ws.push(error_name(*e));
        },
    }
    assert(strings_view(ws@)[0] == ws@[0]@);
    if ws.len() == 2 {
        assert(strings_view(ws@)[1] == ws@[1]@);
    }
    assert("OK"@ != "ERR"@ && "NO"@ != "ERR"@ && "OK"@ != "NO"@) by {
        assert("OK"@[0] != "ERR"@[0] && "NO"@[0] != "ERR"@[0] && "OK"@[0] != "NO"@[0]);
    }
    ws
}

/// What reply words stand for: success flag and data, or an error kind.
pub open spec fn reply_of_words(ws: Seq<Seq<char>>) -> Option<Result<(bool, Option<Seq<char>>), CmdError>> {
    if ws.len() == 2 && ws[0] == "ERR"@ {
        match error_named(ws[1]) {
            Some(e) => Some(Err(e)),
            None => None,
        }
    } else if (ws.len() == 1 || ws.len() == 2) && (ws[0] == "OK"@ || ws[0] == "NO"@) {
        Some(Ok((ws[0] == "OK"@, if ws.len() == 2 { Some(ws[1]) } else { None })))
    } else {
        None
    }
}

/// The reply that words spell; `None` for words that spell none.
pub fn reply_from_words(ws: &Vec<String>) -> (r: Option<Result<GetItemResponse, CmdError>>)
    ensures
        match reply_of_words(strings_view(ws@)) {
            Some(Ok((ok, d))) => r matches Some(Ok(x)) && x.ok == ok && opt_str(x.data) == d,
            Some(Err(e)) => r == Some(Err::<GetItemResponse, CmdError>(e)),
            None => r is None,
        },
{
    proof {
        reveal_strlit("OK");
        reveal_strlit("NO");
        reveal_strlit("ERR");
    }
    let n = ws.len();
    if n == 0 || n > 2 {
        return None;
    }
    assert(strings_view(ws@)[0] == ws@[0]@);
    if n == 2 {
        assert(strings_view(ws@)[1] == ws@[1]@);
    }
    if ws[0] == "ERR".to_owned() {
        if n != 2 {
            return None;
        }
        return match error_from_name(ws[1].as_str()) {
            Some(e) => Some(Err(e)),
            None => None,
        };
    }
    let ok = ws[0] == "OK".to_owned();
    let no = ws[0] == "NO".to_owned();
    if !ok && !no {
        return None;
    }
    let data = if n == 2 { Some(ws[1].clone()) } else { None };
    Some(Ok(GetItemResponse { ok, data }))
}

/// The error kind of a name.
pub fn error_from_name(w: &str) -> (r: Option<CmdError>)
    ensures
        r == error_named(w@),
{
    let s = w.to_owned();
    if s == "ArgCount".to_owned() {
        Some(CmdError::ArgCount)
    } else if s == "BadExpiry".to_owned() {
        Some(CmdError::BadExpiry)
    } else if s == "UnknownHandle".to_owned() {
        Some(CmdError::UnknownHandle)
    } else if s == "TransactionUnknown".to_owned() {
        Some(CmdError::TransactionUnknown)
    } else if s == "AlreadyWatched".to_owned() {
        Some(CmdError::AlreadyWatched)
    } else if s == "TransactionConflict".to_owned() {
        Some(CmdError::TransactionConflict)
    } else if s == "RoleForbidden".to_owned() {
        Some(CmdError::RoleForbidden)
    } else if s == "Shutting".to_owned() {
        Some(CmdError::Shutting)
    } else if s == "Unsupported".to_owned() {
        Some(CmdError::Unsupported)
    } else if s == "BadAddress".to_owned() {
        Some(CmdError::BadAddress)
    } else if s == "BadSnapshot".to_owned() {
        Some(CmdError::BadSnapshot)
    } else {
        None
    }
}

} // verus!
