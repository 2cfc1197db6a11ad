use mini_redis::protocol::{CmdError, GetItemRequest, GetItemResponse, RedisCommand};
use mini_redis::server::{Effect, RedisState, S};

fn req(cmd: RedisCommand, args: &[&str]) -> GetItemRequest {
    GetItemRequest {
        cmd,
        args: Some(args.iter().map(|s| s.to_string()).collect()),
        client_id: None,
        transaction_id: None,
    }
}

fn node() -> S {
    S::new("10.0.0.9".to_string(), 7009)
}

fn in_txn(mut r: GetItemRequest, t: &str) -> GetItemRequest {
    r.transaction_id = Some(t.to_string());
    r
}

fn reply(node: &mut S, r: GetItemRequest, now: u128) -> Result<(bool, Option<String>), CmdError> {
    node.react_at(r, now).0.map(|x: GetItemResponse| (x.ok, x.data))
}

fn ok(data: &str) -> Result<(bool, Option<String>), CmdError> {
    Ok((true, Some(data.to_string())))
}

const ABSENT: Result<(bool, Option<String>), CmdError> = Ok((false, None));

#[test]
fn set_get_del_scenario() {
    let mut n = node();
    assert_eq!(reply(&mut n, req(RedisCommand::SetKey, &["foo", "bar"]), 0), ok("OK"));
    assert_eq!(reply(&mut n, req(RedisCommand::Get, &["foo"]), 0), ok("bar"));
    assert_eq!(reply(&mut n, req(RedisCommand::Del, &["foo"]), 0), ok("1"));
    assert_eq!(reply(&mut n, req(RedisCommand::Get, &["foo"]), 0), ABSENT);
}

#[test]
fn expiry_scenario() {
    let t0: u128 = 1_700_000_000_000;
    let mut n = node();
    assert_eq!(reply(&mut n, req(RedisCommand::SetKey, &["k", "v", "EX", "1"]), t0), ok("OK"));
    assert_eq!(reply(&mut n, req(RedisCommand::Get, &["k"]), t0 + 500), ok("v"));
    assert_eq!(reply(&mut n, req(RedisCommand::Get, &["k"]), t0 + 1500), ABSENT);
}

#[test]
fn pubsub_scenario() {
    let mut n = node();
    assert_eq!(reply(&mut n, req(RedisCommand::Subscribe, &["c"]), 0), ok("0"));
    assert_eq!(reply(&mut n, req(RedisCommand::Publish, &["c", "hello"]), 0), ok("1"));
    assert_eq!(reply(&mut n, req(RedisCommand::Fetch, &["0"]), 0), ok("hello"));
    assert_eq!(reply(&mut n, req(RedisCommand::Fetch, &["0"]), 0), ABSENT);
    assert_eq!(reply(&mut n, req(RedisCommand::Fetch, &["9"]), 0), Err(CmdError::UnknownHandle));
    assert_eq!(reply(&mut n, req(RedisCommand::Fetch, &["x"]), 0), Err(CmdError::UnknownHandle));
}

#[test]
fn transaction_scenario() {
    let mut n = node();
    let multi = GetItemRequest { cmd: RedisCommand::Multi, args: None, client_id: None, transaction_id: None };
    let t = match reply(&mut n, multi, 0) {
        Ok((true, Some(t))) => t,
        other => panic!("MULTI failed: {:?}", other),
    };
    assert!(t.len() >= 5);
    assert!(t.chars().all(|c| c.is_ascii_alphanumeric() || c == '_' || c == '-'));
    assert_eq!(reply(&mut n, in_txn(req(RedisCommand::SetKey, &["x", "1"]), &t), 0), ok("OK"));
    assert_eq!(reply(&mut n, in_txn(req(RedisCommand::Get, &["x"]), &t), 0), ok("OK"));
    assert_eq!(reply(&mut n, req(RedisCommand::Get, &["x"]), 0), ABSENT);
    let exec = in_txn(req(RedisCommand::Exec, &[]), &t);
    let (res, effects) = n.exec_at(exec, 0);
    let m = res.expect("EXEC commits");
    assert!(m.ok);
    let items: Vec<(bool, Option<String>)> = m.data.unwrap().into_iter().map(|r| (r.ok, r.data)).collect();
    assert_eq!(items, vec![(true, Some("OK".to_string())), (true, Some("1".to_string()))]);
    assert!(matches!(&effects[0], Effect::AppendAof(l) if l == "SET x 1 0\n"));
    assert_eq!(reply(&mut n, req(RedisCommand::Get, &["x"]), 0), ok("1"));
    // the transaction is gone
    let again = in_txn(req(RedisCommand::Exec, &[]), &t);
    assert!(matches!(n.exec_at(again, 0).0, Err(CmdError::TransactionUnknown)));
}

#[test]
fn watch_conflict_scenario() {
    let mut n = node();
    let multi = GetItemRequest { cmd: RedisCommand::Multi, args: None, client_id: None, transaction_id: None };
    let t = reply(&mut n, multi, 0).unwrap().1.unwrap();
    assert_eq!(reply(&mut n, in_txn(req(RedisCommand::Watch, &["x"]), &t), 0), ok("OK"));
    assert_eq!(
        reply(&mut n, in_txn(req(RedisCommand::Watch, &["x"]), &t), 0),
        Err(CmdError::AlreadyWatched)
    );
    assert_eq!(reply(&mut n, in_txn(req(RedisCommand::SetKey, &["y", "9"]), &t), 0), ok("OK"));
    // a second client writes the watched key
    assert_eq!(reply(&mut n, req(RedisCommand::SetKey, &["x", "2"]), 0), ok("OK"));
    let (res, effects) = n.exec_at(in_txn(req(RedisCommand::Exec, &[]), &t), 0);
    assert!(matches!(res, Err(CmdError::TransactionConflict)));
    assert!(effects.is_empty());
    assert_eq!(reply(&mut n, req(RedisCommand::Get, &["x"]), 0), ok("2"));
    assert_eq!(reply(&mut n, req(RedisCommand::Get, &["y"]), 0), ABSENT);
}

#[test]
fn watch_without_change_commits() {
    let mut n = node();
    reply(&mut n, req(RedisCommand::SetKey, &["x", "1"]), 0).unwrap();
    let multi = GetItemRequest { cmd: RedisCommand::Multi, args: None, client_id: None, transaction_id: None };
    let t = reply(&mut n, multi, 0).unwrap().1.unwrap();
    reply(&mut n, in_txn(req(RedisCommand::Watch, &["x"]), &t), 0).unwrap();
    reply(&mut n, in_txn(req(RedisCommand::SetKey, &["x", "3"]), &t), 0).unwrap();
    let (res, _) = n.exec_at(in_txn(req(RedisCommand::Exec, &[]), &t), 0);
    assert!(res.is_ok());
    assert_eq!(reply(&mut n, req(RedisCommand::Get, &["x"]), 0), ok("3"));
}

#[test]
fn transaction_errors() {
    let mut n = node();
    assert_eq!(
        reply(&mut n, in_txn(req(RedisCommand::Get, &["x"]), "nope1"), 0),
        Err(CmdError::TransactionUnknown)
    );
    assert_eq!(reply(&mut n, req(RedisCommand::Watch, &["x"]), 0), Err(CmdError::TransactionUnknown));
    assert_eq!(reply(&mut n, req(RedisCommand::Multi, &["extra"]), 0), Err(CmdError::ArgCount));
    assert!(matches!(n.exec_at(req(RedisCommand::Exec, &[]), 0).0, Err(CmdError::TransactionUnknown)));
    assert!(matches!(n.exec_at(req(RedisCommand::Get, &["x"]), 0).0, Err(CmdError::Unsupported)));
    assert_eq!(reply(&mut n, req(RedisCommand::Exec, &[]), 0), Err(CmdError::Unsupported));
    assert_eq!(
        reply(&mut n, in_txn(req(RedisCommand::Del, &["x"]), "t"), 0),
        Err(CmdError::Unsupported)
    );
}

#[test]
fn argument_errors() {
    let mut n = node();
    assert_eq!(reply(&mut n, req(RedisCommand::Get, &[]), 0), Err(CmdError::ArgCount));
    assert_eq!(reply(&mut n, req(RedisCommand::SetKey, &["k"]), 0), Err(CmdError::ArgCount));
    assert_eq!(reply(&mut n, req(RedisCommand::SetKey, &["k", "v", "EX"]), 0), Err(CmdError::ArgCount));
    assert_eq!(reply(&mut n, req(RedisCommand::SetKey, &["k", "v", "ZZ", "1"]), 0), Err(CmdError::BadExpiry));
    assert_eq!(reply(&mut n, req(RedisCommand::SetKey, &["k", "v", "PX", "a"]), 0), Err(CmdError::BadExpiry));
    assert_eq!(reply(&mut n, req(RedisCommand::Del, &[]), 0), Err(CmdError::ArgCount));
    assert_eq!(reply(&mut n, req(RedisCommand::Publish, &["c"]), 0), Err(CmdError::ArgCount));
    assert_eq!(reply(&mut n, req(RedisCommand::ClusterMeet, &[]), 0), Err(CmdError::Unsupported));
    assert_eq!(reply(&mut n, req(RedisCommand::Sync, &["h", "port"]), 0), Err(CmdError::BadAddress));
    assert_eq!(reply(&mut n, req(RedisCommand::SyncGot, &["xyz"]), 0), Err(CmdError::BadSnapshot));
    assert_eq!(reply(&mut n, req(RedisCommand::SyncGot, &["00"]), 0), Err(CmdError::BadSnapshot));
}

#[test]
fn ping_replies() {
    let mut n = node();
    let p = GetItemRequest { cmd: RedisCommand::Ping, args: None, client_id: None, transaction_id: None };
    assert_eq!(reply(&mut n, p, 0), ok("pong"));
    assert_eq!(reply(&mut n, req(RedisCommand::Ping, &["a", "b"]), 0), ok("a b"));
}

#[test]
fn del_counts_and_logs() {
    let mut n = node();
    reply(&mut n, req(RedisCommand::SetKey, &["a", "1"]), 0).unwrap();
    reply(&mut n, req(RedisCommand::SetKey, &["b", "1"]), 0).unwrap();
    let (r, effects) = n.react_at(req(RedisCommand::Del, &["a", "b", "a", "c"]), 0);
    assert_eq!(r.unwrap().data, Some("2".to_string()));
    let lines: Vec<String> = effects
        .into_iter()
        .map(|e| match e {
            Effect::AppendAof(l) => l,
            _ => panic!("unexpected effect"),
        })
        .collect();
    assert_eq!(lines, vec!["DEL a 0 0\n", "DEL b 0 0\n", "DEL a 0 0\n", "DEL c 0 0\n"]);
}

#[test]
fn set_logs_absolute_expiry() {
    let mut n = node();
    let (_, effects) = n.react_at(req(RedisCommand::SetKey, &["k", "v", "PX", "250"]), 1000);
    assert!(matches!(&effects[..], [Effect::AppendAof(l)] if l == "SET k v 1250\n"));
}

#[test]
fn shutdown_refuses_requests() {
    let mut n = node();
    n.begin_shutdown();
    assert!(n.is_shutting_down());
    assert_eq!(reply(&mut n, req(RedisCommand::Get, &["k"]), 0), Err(CmdError::Shutting));
    assert!(matches!(n.exec_at(req(RedisCommand::Exec, &[]), 0).0, Err(CmdError::Shutting)));
}

/// Carries out the effects a node asked for, between in-process nodes.
fn forward_to(replica: &mut S, effects: Vec<Effect>, now: u128) {
    for e in effects {
        if let Effect::Forward { request, .. } = e {
            replica.react_at(request, now).0.expect("forwarded write applies");
        }
    }
}

fn join_replica(primary: &mut S, replica: &mut S) {
    let (r, effects) = replica.react_at(req(RedisCommand::Replicaof, &["10.0.0.1", "7000"]), 0);
    assert_eq!(r.map(|x| x.data), Ok(Some("OK".to_string())));
    match &effects[..] {
        [Effect::SendSync { host, port: 7000, request }] if host == "10.0.0.1" => {
            assert_eq!(request.cmd, RedisCommand::Sync);
            assert_eq!(request.args, Some(vec!["10.0.0.9".to_string(), "7009".to_string()]));
            assert_eq!(request.client_id, None);
        }
        _ => panic!("REPLICAOF asks for one SYNC"),
    }
    let (r, effects) = primary.react_at(req(RedisCommand::Sync, &["10.0.0.2", "7001"]), 0);
    let id = r.unwrap().data.unwrap();
    assert_eq!(id.len(), 36);
    assert_eq!(&id[14..15], "4");
    assert!(matches!(&effects[..], [Effect::DeliverSnapshot { host, port: 7001 }] if host == "10.0.0.2"));
    assert!(replica.on_sync_reply(Some(id.clone())).is_ok());
    assert_eq!(replica.self_id(), &id);
    let snap = primary.snapshot_text().expect("snapshot");
    let got = reply(replica, req(RedisCommand::SyncGot, &[snap.as_str()]), 0);
    assert_eq!(got, Ok((true, None)));
}

#[test]
fn replication_scenario() {
    let mut p = node();
    let mut r = node();
    join_replica(&mut p, &mut r);
    assert!(matches!(p.role(), RedisState::Master));
    assert!(matches!(r.role(), RedisState::SlaveOf(h, 7000) if h == "10.0.0.1"));
    let (res, effects) = p.react_at(req(RedisCommand::SetKey, &["a", "b"]), 0);
    assert!(res.is_ok());
    forward_to(&mut r, effects, 0);
    assert_eq!(reply(&mut r, req(RedisCommand::Get, &["a"]), 0), ok("b"));
    // a direct client write to the replica is refused
    assert_eq!(reply(&mut r, req(RedisCommand::SetKey, &["a", "z"]), 0), Err(CmdError::RoleForbidden));
    assert_eq!(reply(&mut r, req(RedisCommand::Del, &["a"]), 0), Err(CmdError::RoleForbidden));
    // the replica stops; the primary moves on; a cold replica catches up
    drop(r);
    let (res, _) = p.react_at(req(RedisCommand::SetKey, &["a", "c"]), 0);
    assert!(res.is_ok());
    let mut r2 = node();
    join_replica(&mut p, &mut r2);
    assert_eq!(reply(&mut r2, req(RedisCommand::Get, &["a"]), 0), ok("c"));
}

#[test]
fn replicaof_rules() {
    let mut p = node();
    reply(&mut p, req(RedisCommand::Sync, &["10.0.0.2", "7001"]), 0).unwrap();
    assert_eq!(
        reply(&mut p, req(RedisCommand::Replicaof, &["10.0.0.1", "7000"]), 0),
        Err(CmdError::RoleForbidden)
    );
    let mut s = node();
    assert_eq!(reply(&mut s, req(RedisCommand::Replicaof, &["h"]), 0), Err(CmdError::ArgCount));
    assert_eq!(
        reply(&mut s, req(RedisCommand::Replicaof, &["h", "99999"]), 0),
        Err(CmdError::BadAddress)
    );
    assert_eq!(s.on_sync_reply(None), Err(CmdError::BadAddress));
    assert_eq!(s.on_sync_reply(Some("not-an-id".to_string())), Err(CmdError::BadAddress));
    assert_eq!(
        s.on_sync_reply(Some("67E55044-10B1-426F-9247-BB680E5FE0C8".to_string())),
        Ok(())
    );
    assert_eq!(s.self_id(), "67e55044-10b1-426f-9247-bb680e5fe0c8");
}

#[test]
fn state_names() {
    assert_eq!(RedisState::Single.describe(), "Single");
    assert_eq!(RedisState::Master.describe(), "Master");
    assert_eq!(RedisState::SlaveOf("h".to_string(), 1).describe(), "Slave of h:1");
}

#[test]
fn watchers_are_listed_once() {
    let mut n = node();
    let multi = GetItemRequest { cmd: RedisCommand::Multi, args: None, client_id: None, transaction_id: None };
    let t1 = reply(&mut n, multi, 0).unwrap().1.unwrap();
    let multi = GetItemRequest { cmd: RedisCommand::Multi, args: None, client_id: None, transaction_id: None };
    let t2 = reply(&mut n, multi, 0).unwrap().1.unwrap();
    assert_ne!(t1, t2);
    reply(&mut n, in_txn(req(RedisCommand::Watch, &["x"]), &t1), 0).unwrap();
    reply(&mut n, in_txn(req(RedisCommand::Watch, &["y"]), &t1), 0).unwrap();
    reply(&mut n, in_txn(req(RedisCommand::Watch, &["x"]), &t2), 0).unwrap();
    let mut w = n.watchers_of("x");
    w.sort();
    let mut expected = vec![t1.clone(), t2.clone()];
    expected.sort();
    assert_eq!(w, expected);
    assert_eq!(n.watchers_of("y"), vec![t1]);
    assert!(n.watchers_of("z").is_empty());
}

#[test]
fn aof_load_into_node() {
    let mut n = node();
    let skipped = n.load_aof("SET a 1 0\nnonsense\nSET b 2 10\n", 100);
    assert_eq!(skipped, 1);
    assert_eq!(reply(&mut n, req(RedisCommand::Get, &["a"]), 100), ok("1"));
    assert_eq!(reply(&mut n, req(RedisCommand::Get, &["b"]), 100), ABSENT);
}

#[test]
fn forwarded_writes_carry_the_primary_id() {
    let mut p = node();
    reply(&mut p, req(RedisCommand::Sync, &["10.0.0.2", "7001"]), 0).unwrap();
    let (_, effects) = p.react_at(req(RedisCommand::SetKey, &["k", "v"]), 0);
    let id = p.self_id().clone();
    let fwd: Vec<&GetItemRequest> = effects
        .iter()
        .filter_map(|e| match e {
            Effect::Forward { host, port: 7001, request } if host == "10.0.0.2" => Some(request),
            _ => None,
        })
        .collect();
    assert_eq!(fwd.len(), 1);
    assert_eq!(fwd[0].client_id, Some(id));
    assert_eq!(fwd[0].args, Some(vec!["k".to_string(), "v".to_string()]));
}
