use mini_redis::protocol::{CmdError, GetItemRequest, GetItemResponse, RedisCommand};
use mini_redis::wire::{
    error_from_name, error_name, reply_from_words, reply_words, request_from_words, request_words,
    verb_from_name,
};

fn words(v: &[&str]) -> Vec<String> {
    v.iter().map(|s| s.to_string()).collect()
}

#[test]
fn request_words_round_trip() {
    let req = GetItemRequest {
        cmd: RedisCommand::SetKey,
        args: Some(words(&["k", "v", "EX", "5"])),
        client_id: Some("id-1".to_string()),
        transaction_id: Some("tok42".to_string()),
    };
    let ws = request_words(&req).unwrap();
    assert_eq!(ws, words(&["SET", "k", "v", "EX", "5", "-c", "id-1", "-t", "tok42"]));
    let back = request_from_words(&ws).unwrap();
    assert_eq!(back.cmd, RedisCommand::SetKey);
    assert_eq!(back.args, req.args);
    assert_eq!(back.client_id, req.client_id);
    assert_eq!(back.transaction_id, req.transaction_id);
}

#[test]
fn request_parsing_edge_cases() {
    assert!(request_from_words(&vec![]).is_none());
    assert!(request_from_words(&words(&["NOPE", "x"])).is_none());
    let r = request_from_words(&words(&["GET", "-t"])).unwrap();
    assert_eq!(r.args, Some(words(&["-t"])));
    assert_eq!(r.transaction_id, None);
    let r = request_from_words(&words(&["GET", "-t", "a", "k", "-t", "b"])).unwrap();
    assert_eq!(r.args, Some(words(&["k"])));
    assert_eq!(r.transaction_id, Some("b".to_string()));
    assert_eq!(verb_from_name("SYNCGOT"), Some(RedisCommand::SyncGot));
    assert_eq!(verb_from_name("get"), None);
    let cluster = GetItemRequest { cmd: RedisCommand::ClusterMeet, args: None, client_id: None, transaction_id: None };
    assert!(request_words(&cluster).is_none());
}

#[test]
fn reply_words_round_trip() {
    let ok: Result<GetItemResponse, CmdError> = Ok(GetItemResponse { ok: true, data: Some("v".to_string()) });
    assert_eq!(reply_words(&ok), words(&["OK", "v"]));
    let nil: Result<GetItemResponse, CmdError> = Ok(GetItemResponse { ok: false, data: None });
    assert_eq!(reply_words(&nil), words(&["NO"]));
    let err: Result<GetItemResponse, CmdError> = Err(CmdError::TransactionConflict);
    assert_eq!(reply_words(&err), words(&["ERR", "TransactionConflict"]));
    match reply_from_words(&words(&["OK", "v"])) {
        Some(Ok(r)) => assert_eq!((r.ok, r.data), (true, Some("v".to_string()))),
        _ => panic!("bad reply"),
    }
    assert!(matches!(reply_from_words(&words(&["ERR", "Shutting"])), Some(Err(CmdError::Shutting))));
    assert!(reply_from_words(&words(&["ERR", "Nope"])).is_none());
    assert!(reply_from_words(&words(&["MAYBE"])).is_none());
    for e in [
        CmdError::ArgCount,
        CmdError::BadExpiry,
        CmdError::UnknownHandle,
        CmdError::TransactionUnknown,
        CmdError::AlreadyWatched,
        CmdError::TransactionConflict,
        CmdError::RoleForbidden,
        CmdError::Shutting,
        CmdError::Unsupported,
        CmdError::BadAddress,
        CmdError::BadSnapshot,
    ] {
        assert_eq!(error_from_name(&error_name(e)), Some(e));
    }
}
