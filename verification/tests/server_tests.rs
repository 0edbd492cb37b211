//! End-to-end tests of the dispatcher, the store, the snapshot loader
//! and the replication control plane, all over in-memory byte buffers.

use respkv::protocol::{Data, Cmd};
use respkv::storage::{Db, Config, Args};
use respkv::cmds::execute;
use respkv::error::Error;
use respkv::rdb::{Rdb, load_from_reader, read_lenth_encoding};
use respkv::replication::{
    register_slave,
    start_replication,
    replica_addr,
    handshake_init,
    handshake_on_reply,
    load_db_from_request,
    HandshakeState,
};

fn master_config() -> Config {
    Config { port: 6379, replicaof: None, dir: None, dbfilename: None }
}

fn reply_bytes(d: &Data) -> Vec<u8> {
    let mut out: Vec<u8> = Vec::new();
    d.write_resp(&mut out).unwrap();
    out
}

fn run(db: &mut Db, wire: &str, now_ms: u64) -> Data {
    let (cmd, _) = Data::parse_cmd(wire.as_bytes(), 0).unwrap();
    execute(cmd, db, now_ms, None).unwrap()
}

#[test]
fn ping_answers_pong() {
    let mut db = Db::new(master_config());
    let reply = run(&mut db, "*1\r\n$4\r\nPING\r\n", 0);
    assert_eq!(reply_bytes(&reply), "+PONG\r\n".as_bytes().to_vec());
}

#[test]
fn set_then_get() {
    let mut db = Db::new(master_config());
    let r1 = run(&mut db, "*3\r\n$3\r\nSET\r\n$3\r\nfoo\r\n$3\r\nbar\r\n", 0);
    assert_eq!(reply_bytes(&r1), "+OK\r\n".as_bytes().to_vec());
    let r2 = run(&mut db, "*2\r\n$3\r\nGET\r\n$3\r\nfoo\r\n", 1);
    assert_eq!(reply_bytes(&r2), "$3\r\nbar\r\n".as_bytes().to_vec());
}

#[test]
fn get_missing_key_is_null_bulk() {
    let mut db = Db::new(master_config());
    let r = run(&mut db, "*2\r\n$3\r\nGET\r\n$2\r\nno\r\n", 0);
    assert_eq!(reply_bytes(&r), "$-1\r\n".as_bytes().to_vec());
}

#[test]
fn set_px_expires_at_the_instant() {
    let mut db = Db::new(master_config());
    let t0: u64 = 1_000;
    let r1 = run(&mut db, "*5\r\n$3\r\nSET\r\n$1\r\nx\r\n$1\r\ny\r\n$2\r\nPX\r\n$2\r\n50\r\n", t0);
    assert_eq!(reply_bytes(&r1), "+OK\r\n".as_bytes().to_vec());
    // still alive just before the instant
    let alive = run(&mut db, "*2\r\n$3\r\nGET\r\n$1\r\nx\r\n", t0 + 49);
    assert_eq!(reply_bytes(&alive), "$1\r\ny\r\n".as_bytes().to_vec());
    // expired 100 ms later
    let gone = run(&mut db, "*2\r\n$3\r\nGET\r\n$1\r\nx\r\n", t0 + 100);
    assert_eq!(reply_bytes(&gone), "$-1\r\n".as_bytes().to_vec());
}

#[test]
fn set_px_boundary_counts_as_expired() {
    let mut db = Db::new(master_config());
    let t0: u64 = 7;
    run(&mut db, "*5\r\n$3\r\nSET\r\n$1\r\nk\r\n$1\r\nv\r\n$2\r\npx\r\n$2\r\n10\r\n", t0);
    let at_instant = run(&mut db, "*2\r\n$3\r\nGET\r\n$1\r\nk\r\n", t0 + 10);
    assert_eq!(reply_bytes(&at_instant), "$-1\r\n".as_bytes().to_vec());
}

#[test]
fn config_get_dir() {
    let args = Args {
        dir: Some("/tmp".to_string()),
        dbfilename: Some("dump.rdb".to_string()),
        port: None,
        replicaof: None,
    };
    let config = Config::config_from_args(&args);
    assert_eq!(config.port, 6379);
    let mut db = Db::new(config);
    let r = run(&mut db, "*3\r\n$6\r\nCONFIG\r\n$3\r\nGET\r\n$3\r\ndir\r\n", 0);
    assert_eq!(reply_bytes(&r), "*2\r\n$3\r\ndir\r\n$4\r\n/tmp\r\n".as_bytes().to_vec());
}

#[test]
fn config_get_unset_is_null_bulk() {
    let mut db = Db::new(master_config());
    let r = run(&mut db, "*3\r\n$6\r\nCONFIG\r\n$3\r\nGET\r\n$3\r\ndir\r\n", 0);
    assert_eq!(reply_bytes(&r), "$-1\r\n".as_bytes().to_vec());
}

#[test]
fn config_unknown_subcommand_fails() {
    let mut db = Db::new(master_config());
    let (cmd, _) =
        Data::parse_cmd("*3\r\n$6\r\nCONFIG\r\n$3\r\nSET\r\n$3\r\ndir\r\n".as_bytes(), 0).unwrap();
    let e = execute(cmd, &mut db, 0, None).unwrap_err();
    assert!(matches!(e, Error::Unsupported(_)));
}

#[test]
fn info_reports_master_role() {
    let mut db = Db::new(master_config());
    let r = run(&mut db, "*2\r\n$4\r\nINFO\r\n$11\r\nreplication\r\n", 0);
    match r {
        Data::BulkString(s) => {
            assert!(s.contains("role:master\n"));
            assert!(s.contains("connected_slaves:0\n"));
            assert!(s.contains("master_repl_offset:0\n"));
        },
        other => panic!("expected a bulk string, got {:?}", other),
    }
}

#[test]
fn info_reports_slave_role() {
    let config = Config {
        port: 6380,
        replicaof: Some("127.0.0.1 6379".to_string()),
        dir: None,
        dbfilename: None,
    };
    let mut db = Db::new(config);
    let r = run(&mut db, "*2\r\n$4\r\nINFO\r\n$11\r\nreplication\r\n", 0);
    match r {
        Data::BulkString(s) => assert!(s.contains("role:slave\n")),
        other => panic!("expected a bulk string, got {:?}", other),
    }
}

#[test]
fn info_without_args_is_missing() {
    let mut db = Db::new(master_config());
    let (cmd, _) = Data::parse_cmd("*1\r\n$4\r\nINFO\r\n".as_bytes(), 0).unwrap();
    let e = execute(cmd, &mut db, 0, None).unwrap_err();
    assert!(matches!(e, Error::ArgsMissing(_)));
}

#[test]
fn echo_returns_argument() {
    let mut db = Db::new(master_config());
    let r = run(&mut db, "*2\r\n$4\r\nECHO\r\n$3\r\nhey\r\n", 0);
    assert_eq!(reply_bytes(&r), "$3\r\nhey\r\n".as_bytes().to_vec());
}

#[test]
fn command_answers_empty_bulk() {
    let mut db = Db::new(master_config());
    let r = run(&mut db, "*1\r\n$7\r\nCOMMAND\r\n", 0);
    assert_eq!(reply_bytes(&r), "$0\r\n\r\n".as_bytes().to_vec());
}

#[test]
fn replconf_is_acknowledged() {
    let mut db = Db::new(master_config());
    let r = run(&mut db, "*3\r\n$8\r\nREPLCONF\r\n$4\r\ncapa\r\n$6\r\npsync2\r\n", 0);
    assert_eq!(reply_bytes(&r), "+OK\r\n".as_bytes().to_vec());
}

#[test]
fn keys_lists_all_keys() {
    let mut db = Db::new(master_config());
    run(&mut db, "*3\r\n$3\r\nSET\r\n$1\r\na\r\n$1\r\n1\r\n", 0);
    run(&mut db, "*3\r\n$3\r\nSET\r\n$1\r\nb\r\n$1\r\n2\r\n", 0);
    let r = run(&mut db, "*2\r\n$4\r\nKEYS\r\n$1\r\n*\r\n", 0);
    let expected = Data::Array(vec![
        Data::BulkString("a".to_string()),
        Data::BulkString("b".to_string()),
    ]);
    assert_eq!(r, expected);
}

// ---------------------------------------------------------------------------
// Snapshot loading
// ---------------------------------------------------------------------------

/// A hand-built snapshot with records `foo=bar` and `baz=qux`.
fn two_entry_snapshot() -> Vec<u8> {
    let mut f: Vec<u8> = Vec::new();
    f.extend_from_slice("REDIS0011".as_bytes());
    f.push(0xFE); // database follows
    f.push(0x00); // database index
    f.push(0xFB); // resize marker
    f.push(0x02); // main table size
    f.push(0x00); // expiry table size
    f.push(0x00); // plain record
    f.push(3);
    f.extend_from_slice("foo".as_bytes());
    f.push(3);
    f.extend_from_slice("bar".as_bytes());
    f.push(0x00); // plain record
    f.push(3);
    f.extend_from_slice("baz".as_bytes());
    f.push(3);
    f.extend_from_slice("qux".as_bytes());
    f.push(0xFF); // end of file
    f.extend_from_slice(&[0u8; 8]); // checksum, not verified
    f
}

#[test]
fn loader_populates_the_store() {
    let mut db = Db::new(master_config());
    let file = two_entry_snapshot();
    let p = load_from_reader(file.as_slice(), 0, &mut db).unwrap();
    assert_eq!(p, file.len());
    assert_eq!(db.get("foo", 0), Some("bar".to_string()));
    assert_eq!(db.get("baz", 0), Some("qux".to_string()));
    assert_eq!(db.get("nope", 0), None);
}

#[test]
fn loader_reads_expirations() {
    let mut f: Vec<u8> = Vec::new();
    f.extend_from_slice("REDIS0011".as_bytes());
    f.extend_from_slice(&[0xFE, 0x00, 0xFB, 0x01, 0x01]);
    f.push(0xFC); // millisecond expiration
    f.extend_from_slice(&5000u64.to_le_bytes());
    f.push(0x00);
    f.push(1);
    f.extend_from_slice("k".as_bytes());
    f.push(1);
    f.extend_from_slice("v".as_bytes());
    f.push(0xFF);
    f.extend_from_slice(&[0u8; 8]);
    let mut db = Db::new(master_config());
    load_from_reader(f.as_slice(), 0, &mut db).unwrap();
    assert_eq!(db.get("k", 4_999), Some("v".to_string()));
    assert_eq!(db.get("k", 5_000), None);
}

#[test]
fn loader_decodes_integer_strings() {
    let mut f: Vec<u8> = Vec::new();
    f.extend_from_slice("REDIS0011".as_bytes());
    f.extend_from_slice(&[0xFE, 0x00, 0xFB, 0x01, 0x00]);
    f.push(0x00);
    f.push(1);
    f.extend_from_slice("n".as_bytes());
    f.push(0xC0); // 8-bit integer string
    f.push(42);
    f.push(0xFF);
    f.extend_from_slice(&[0u8; 8]);
    let mut db = Db::new(master_config());
    load_from_reader(f.as_slice(), 0, &mut db).unwrap();
    assert_eq!(db.get("n", 0), Some("42".to_string()));
}

#[test]
fn loader_rejects_bad_header() {
    let mut db = Db::new(master_config());
    let e = load_from_reader("REDIS0009nonsense".as_bytes(), 0, &mut db).unwrap_err();
    assert!(matches!(e, Error::InvalidRdb(_)));
}

#[test]
fn loader_rejects_unknown_record_type() {
    let mut f: Vec<u8> = Vec::new();
    f.extend_from_slice("REDIS0011".as_bytes());
    f.extend_from_slice(&[0xFE, 0x00, 0xFB, 0x00, 0x00, 0x77]);
    let mut db = Db::new(master_config());
    let e = load_from_reader(f.as_slice(), 0, &mut db).unwrap_err();
    assert!(matches!(e, Error::Unsupported(_)));
}

#[test]
fn length_encoding_forms() {
    // six-bit form
    let ((n, plain), p) = read_lenth_encoding(&[0x0A], 0).unwrap();
    assert_eq!((n, plain, p), (10, true, 1));
    // fourteen-bit form: low six bits of the first byte become the high bits
    let ((n, plain), p) = read_lenth_encoding(&[0x42, 0xBC], 0).unwrap();
    assert_eq!((n, plain, p), (700, true, 2));
    // 32-bit form
    let ((n, plain), p) = read_lenth_encoding(&[0x80, 0x00, 0x00, 0x42, 0x68], 0).unwrap();
    assert_eq!((n, plain, p), (17000, true, 5));
    // special integer widths
    let ((n, plain), _) = read_lenth_encoding(&[0xC1], 0).unwrap();
    assert_eq!((n, plain), (2, false));
}

#[test]
fn rdb_load_without_file_is_empty() {
    let mut rdb = Rdb::from(&master_config());
    let db = rdb.load(None).unwrap();
    assert_eq!(db.keys("*"), Vec::<String>::new());
}

#[test]
fn rdb_load_reads_the_file() {
    let mut rdb = Rdb::from(&master_config());
    let mut db = rdb.load(Some(two_entry_snapshot())).unwrap();
    assert_eq!(db.get("foo", 0), Some("bar".to_string()));
}

// ---------------------------------------------------------------------------
// Replication
// ---------------------------------------------------------------------------

#[test]
fn psync_builtin_snapshot_is_an_empty_database() {
    let mut db = Db::new(master_config());
    let (cmd, _) = Data::parse_cmd("*3\r\n$5\r\nPSYNC\r\n$1\r\n?\r\n$2\r\n-1\r\n".as_bytes(), 0)
        .unwrap();
    let reply = execute(cmd, &mut db, 0, None).unwrap();
    match reply {
        Data::FullResyncBinaryConent(inner, bytes) => {
            match *inner {
                Data::SimpleString(s) => {
                    assert!(s.starts_with("FULLRESYNC "));
                    assert!(s.ends_with(" 0"));
                },
                other => panic!("expected a simple string, got {:?}", other),
            }
            // the built-in blob is a well-formed snapshot of an empty database
            assert_eq!(&bytes[0..9], "REDIS0011".as_bytes());
            let mut fresh = Db::new(master_config());
            load_from_reader(bytes.as_slice(), 0, &mut fresh).unwrap();
            assert_eq!(fresh.keys("*"), Vec::<String>::new());
        },
        other => panic!("expected a full resync, got {:?}", other),
    }
}

#[test]
fn psync_prefers_the_snapshot_file() {
    let mut db = Db::new(master_config());
    let file = two_entry_snapshot();
    let (cmd, _) = Data::parse_cmd("*3\r\n$5\r\nPSYNC\r\n$1\r\n?\r\n$2\r\n-1\r\n".as_bytes(), 0)
        .unwrap();
    let reply = execute(cmd, &mut db, 0, Some(file.clone())).unwrap();
    match reply {
        Data::FullResyncBinaryConent(_, bytes) => assert_eq!(bytes, file),
        other => panic!("expected a full resync, got {:?}", other),
    }
}

#[test]
fn write_fans_out_to_every_replica() {
    let mut db = Db::new(master_config());
    let resync = Data::FullResyncBinaryConent(
        Box::new(Data::SimpleString("FULLRESYNC x 0".to_string())),
        Vec::new(),
    );
    assert_eq!(register_slave(&resync, &mut db), Some(0));
    assert_eq!(register_slave(&resync, &mut db), Some(1));
    assert_eq!(register_slave(&Data::SimpleString("OK".to_string()), &mut db), None);
    run(&mut db, "*3\r\n$3\r\nSET\r\n$1\r\nk\r\n$1\r\nv\r\n", 0);
    assert_eq!(db.num_replicas(), 2);
    for i in 0..2 {
        let queued = db.take_outbox(i);
        assert_eq!(queued.len(), 1);
        let frame = queued[0].to_data().unwrap();
        let mut out: Vec<u8> = Vec::new();
        frame.write_resp(&mut out).unwrap();
        assert_eq!(out, "*3\r\n$3\r\nSET\r\n$1\r\nk\r\n$1\r\nv\r\n".as_bytes().to_vec());
    }
    // a drained outbox stays registered and empty
    assert_eq!(db.take_outbox(0).len(), 0);
}

#[test]
fn replica_address_derivation() {
    assert_eq!(replica_addr("127.0.0.1 6379"), "127.0.0.1:6379".to_string());
    assert_eq!(replica_addr("  host 1234\n"), "host:1234".to_string());
    let config = Config {
        port: 6380,
        replicaof: Some("127.0.0.1 6379".to_string()),
        dir: None,
        dbfilename: None,
    };
    let db = Db::new(config);
    assert_eq!(start_replication(&db), Some("127.0.0.1:6379".to_string()));
    assert_eq!(start_replication(&Db::new(master_config())), None);
}

#[test]
fn handshake_walks_the_protocol() {
    let (st, msg) = handshake_init();
    assert_eq!(st, HandshakeState::SentPing);
    assert_eq!(msg, "*1\r\n$4\r\nPING\r\n".as_bytes().to_vec());
    let pong = Data::SimpleString("PONG".to_string());
    let (st, msg) = handshake_on_reply(st, 6380, &pong).unwrap();
    assert_eq!(st, HandshakeState::SentPort);
    assert_eq!(
        msg.unwrap(),
        "*3\r\n$8\r\nREPLCONF\r\n$14\r\nlistening-port\r\n$4\r\n6380\r\n".as_bytes().to_vec()
    );
    let ok = Data::SimpleString("OK".to_string());
    let (st, msg) = handshake_on_reply(st, 6380, &ok).unwrap();
    assert_eq!(st, HandshakeState::SentCapa);
    assert_eq!(
        msg.unwrap(),
        "*3\r\n$8\r\nREPLCONF\r\n$4\r\ncapa\r\n$6\r\npsync2\r\n".as_bytes().to_vec()
    );
    let (st, msg) = handshake_on_reply(st, 6380, &ok).unwrap();
    assert_eq!(st, HandshakeState::SentPsync);
    assert_eq!(msg.unwrap(), "*3\r\n$5\r\nPSYNC\r\n$1\r\n?\r\n$2\r\n-1\r\n".as_bytes().to_vec());
    let resync = Data::SimpleString("fullresync abc123 0".to_string());
    let (st, msg) = handshake_on_reply(st, 6380, &resync).unwrap();
    assert_eq!(st, HandshakeState::LoadSnapshot);
    assert!(msg.is_none());
}

#[test]
fn handshake_without_full_resync_streams_at_once() {
    let other = Data::SimpleString("CONTINUE".to_string());
    let (st, _) = handshake_on_reply(HandshakeState::SentPsync, 6380, &other).unwrap();
    assert_eq!(st, HandshakeState::Streaming);
    let bulk = Data::BulkString("FULLRESYNC".to_string());
    let e = handshake_on_reply(HandshakeState::SentPsync, 6380, &bulk).unwrap_err();
    assert!(matches!(e, Error::Unsupported(_)));
}

#[test]
fn replica_handshake_and_streaming() {
    // node A: a master holding a two-entry snapshot file
    let mut master = Db::new(master_config());
    let file = two_entry_snapshot();
    let (psync, _) = Data::parse_cmd("*3\r\n$5\r\nPSYNC\r\n$1\r\n?\r\n$2\r\n-1\r\n".as_bytes(), 0)
        .unwrap();
    let reply = execute(psync, &mut master, 0, Some(file)).unwrap();
    let idx = register_slave(&reply, &mut master).unwrap();
    let mut wire: Vec<u8> = Vec::new();
    reply.write_resp(&mut wire).unwrap();

    // node B: a slave consuming that reply: status line, then the blob
    let slave_config = Config {
        port: 6380,
        replicaof: Some("127.0.0.1 6379".to_string()),
        dir: None,
        dbfilename: None,
    };
    let mut slave = Db::new(slave_config);
    let (status, p) = Data::parse(wire.as_slice(), 0).unwrap();
    match status {
        Data::SimpleString(s) => assert!(s.starts_with("FULLRESYNC")),
        other => panic!("expected a status line, got {:?}", other),
    }
    let after = load_db_from_request(wire.as_slice(), p, &mut slave).unwrap();
    assert_eq!(after, wire.len());
    assert_eq!(slave.get("foo", 0), Some("bar".to_string()));
    assert_eq!(slave.get("baz", 0), Some("qux".to_string()));

    // a write on A reaches B through the replica stream
    run(&mut master, "*3\r\n$3\r\nSET\r\n$3\r\nnew\r\n$3\r\nval\r\n", 0);
    let queued = master.take_outbox(idx);
    assert_eq!(queued.len(), 1);
    let mut stream: Vec<u8> = Vec::new();
    queued[0].to_data().unwrap().write_resp(&mut stream).unwrap();
    let (cmd, _) = Data::parse_cmd(stream.as_slice(), 0).unwrap();
    execute(cmd, &mut slave, 0, None).unwrap();
    assert_eq!(slave.get("new", 0), Some("val".to_string()));
}

#[test]
fn replication_id_is_canonical_length() {
    let db = Db::new(master_config());
    let info = db.info();
    // the hyphenated id form: 32 hex digits and 4 dashes
    assert_eq!(info.replication.master_replid.len(), 36);
    assert!(info.is_master());
}

#[test]
fn db_path_joins_dir_and_filename() {
    let config = Config {
        port: 6379,
        replicaof: None,
        dir: Some("/tmp".to_string()),
        dbfilename: Some("dump.rdb".to_string()),
    };
    assert_eq!(config.db_path(), Some("/tmp/dump.rdb".to_string()));
    assert_eq!(master_config().db_path(), None);
}

#[test]
fn info_block_renders_every_line() {
    let block = respkv::info::Replication {
        connected_slaves: 2,
        role: "master".to_string(),
        master_replid: "abc".to_string(),
        master_repl_offset: 0,
    }
    .render();
    assert_eq!(
        block,
        "# Replication\nrole:master\nmaster_replid:abc\nconnected_slaves:2\nmaster_repl_offset:0\n"
    );
}
