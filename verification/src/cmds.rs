//! The command handlers and the dispatcher.
//!
//! Each handler has a spec-level model; `execute` routes a parsed command
//! to its handler, broadcasting writes to the replica outboxes first when
//! this node is a master.

use vstd::prelude::*;
use vstd::string::StringExecFns;
use crate::error::{Error, Fault, fault_matches};
use crate::protocol::{Data, DataV, Cmd, CmdV, seq_data_view, lemma_seq_data_view};
use crate::storage::{
    Db,
    Config,
    EntryV,
    opt_str,
    spec_get,
    spec_set,
    spec_remove,
    live,
};
use crate::info::{Info, spec_replication_block};
use crate::text::{matches_ic, dec_value_chars, eq_ignore_case, str_eq, parse_u64_str};

verus! {

/// The text a frame carries, when it is a bulk or simple string.
pub open spec fn data_str(d: DataV) -> Option<Seq<char>> {
    match d {
        DataV::BulkString(s) => Some(s),
        DataV::SimpleString(s) => Some(s),
        _ => None,
    }
}

/// Extract the text of a bulk or simple string frame.
pub fn data_as_str<'a>(d: &'a Data) -> (r: Result<&'a str, Error>)
    ensures
        match r {
            Ok(s) => data_str(d@) == Some(s@),
            Err(e) => data_str(d@) is None && e is Unsupported,
        },
{
    match d {
        Data::BulkString(s) => Ok(s.as_str()),
        Data::SimpleString(s) => Ok(s.as_str()),
        _ => Err(Error::Unsupported("unable to extract text from this frame".to_owned())),
    }
}

/// `PING` answers `PONG`.
pub fn ping_execute() -> (r: Data)
    ensures
        r@ == DataV::SimpleString("PONG"@),
{
    Data::SimpleString("PONG".to_owned())
}

/// The model of `ECHO`: the first argument must be a bulk string, and is
/// echoed back.
pub open spec fn spec_echo(args: Seq<DataV>) -> Result<DataV, Fault> {
    if args.len() >= 1 {
        match args[0] {
            DataV::BulkString(s) => Ok(DataV::BulkString(s)),
            _ => Err(Fault::Invalid),
        }
    } else {
        Err(Fault::Invalid)
    }
}

/// `ECHO` returns its bulk-string argument.
pub fn echo_execute(args: &[Data]) -> (r: Result<Data, Error>)
    ensures
        match r {
            Ok(d) => spec_echo(seq_data_view(args@)) == Ok::<DataV, Fault>(d@),
            Err(e) => spec_echo(seq_data_view(args@)) matches Err(f) && fault_matches(e, f),
        },
{
    proof {
        lemma_seq_data_view(args@);
    }
    if args.len() >= 1 {
        match &args[0] {
            Data::BulkString(s) => Ok(Data::BulkString(s.clone())),
            _ => Err(Error::InvalidResp),
        }
    } else {
        Err(Error::InvalidResp)
    }
}

/// `COMMAND` answers an empty bulk string.
pub fn command_execute(_args: &[Data]) -> (r: Data)
    ensures
        r@ == DataV::BulkString(Seq::<char>::empty()),
{
    Data::BulkString(String::new())
}

/// The model of `INFO`: at least one argument, and the reply is the
/// replication block as a bulk string.
pub open spec fn spec_info_cmd(args: Seq<DataV>, info: Info) -> Result<DataV, Fault> {
    if args.len() == 0 {
        Err(Fault::Missing)
    } else {
        Ok(
            DataV::BulkString(
                spec_replication_block(
                    info.replication.role@,
                    info.replication.master_replid@,
                    info.replication.connected_slaves,
                    info.replication.master_repl_offset,
                ),
            ),
        )
    }
}

/// `INFO` returns the replication block.
pub fn info_execute(args: &[Data], state: &Db) -> (r: Result<Data, Error>)
    ensures
        match r {
            Ok(d) => spec_info_cmd(seq_data_view(args@), state.info) == Ok::<DataV, Fault>(d@),
            Err(e) => spec_info_cmd(seq_data_view(args@), state.info) matches Err(f)
                && fault_matches(e, f),
        },
{
    proof {
        lemma_seq_data_view(args@);
    }
    if args.len() == 0 {
        return Err(Error::ArgsMissing("arg missing in info command".to_owned()));
    }
    let block = state.info.replication.render();
    Ok(Data::BulkString(block))
}

/// The model of `CONFIG`: the sub-command must be `GET` (any case) and
/// the key `dir` or `dbfilename`; a set value answers `[key, value]`, an
/// unset one the null bulk string.
pub open spec fn spec_config_cmd(args: Seq<DataV>, config: Config) -> Result<DataV, Fault> {
    if args.len() < 2 {
        Err(Fault::Invalid)
    } else {
        match (args[0], args[1]) {
            (DataV::BulkString(sub), DataV::BulkString(key)) => {
                if matches_ic(sub, "GET"@) && key == "dir"@ {
                    match opt_str(config.dir) {
                        Some(v) => Ok(DataV::Array(seq![DataV::BulkString(key), DataV::BulkString(v)])),
                        None => Ok(DataV::NullBuilkString),
                    }
                } else if matches_ic(sub, "GET"@) && key == "dbfilename"@ {
                    match opt_str(config.dbfilename) {
                        Some(v) => Ok(DataV::Array(seq![DataV::BulkString(key), DataV::BulkString(v)])),
                        None => Ok(DataV::NullBuilkString),
                    }
                } else {
                    Err(Fault::Unsup)
                }
            },
            _ => Err(Fault::Invalid),
        }
    }
}

/// `CONFIG GET dir|dbfilename` reads the startup configuration.
pub fn config_execute(args: &[Data], state: &Db) -> (r: Result<Data, Error>)
    ensures
        match r {
            Ok(d) => spec_config_cmd(seq_data_view(args@), state.config) == Ok::<DataV, Fault>(d@),
            Err(e) => spec_config_cmd(seq_data_view(args@), state.config) matches Err(f)
                && fault_matches(e, f),
        },
{
    proof {
        lemma_seq_data_view(args@);
    }
    if args.len() < 2 {
        return Err(Error::InvalidResp);
    }
    match (&args[0], &args[1]) {
        (Data::BulkString(sub), Data::BulkString(key)) => {
            let is_get = eq_ignore_case(sub.as_str(), "GET");
            let value: &Option<String> = if is_get && str_eq(key.as_str(), "dir") {
                &state.config.dir
            } else if is_get && str_eq(key.as_str(), "dbfilename") {
                &state.config.dbfilename
            } else {
                return Err(Error::Unsupported("unsupported CONFIG subcommand".to_owned()));
            };
            match value {
                Some(v) => {
                    let mut items: Vec<Data> = Vec::new();
                    items.push(Data::BulkString(key.clone()));
                    items.push(Data::BulkString(v.clone()));
                    proof {
                        lemma_seq_data_view(items@);
                        assert(seq_data_view(items@) =~= seq![
                            DataV::BulkString(key@),
                            DataV::BulkString(v@),
                        ]);
                    }
                    Ok(Data::Array(items))
                },
                None => Ok(Data::NullBuilkString),
            }
        },
        _ => Err(Error::InvalidResp),
    }
}

/// `now + delta`, clamped at the top of the range.
pub open spec fn sat_add(now: u64, delta: nat) -> u64 {
    if now + delta > u64::MAX {
        u64::MAX
    } else {
        (now + delta) as u64
    }
}

/// The model of the optional `PX <ms>` pair of `SET`: both frames must
/// be bulk strings, the first `PX` in any case, the second a decimal
/// count of milliseconds, added to the clock.
pub open spec fn spec_parse_set_args(a: DataV, b: DataV, now: u64) -> Result<Option<u64>, Fault> {
    match (a, b) {
        (DataV::BulkString(px), DataV::BulkString(ms)) => {
            if matches_ic(px, "PX"@) {
                match dec_value_chars(ms) {
                    Some(n) => Ok(Some(sat_add(now, n))),
                    None => Err(Fault::BadInt),
                }
            } else {
                Err(Fault::Unsup)
            }
        },
        _ => Err(Fault::Unsup),
    }
}

/// Read the expiration instant out of a `PX <ms>` argument pair.
pub fn parse_set_args(args: (&Data, &Data), now_ms: u64) -> (r: Result<Option<u64>, Error>)
    ensures
        match r {
            Ok(x) => spec_parse_set_args(args.0@, args.1@, now_ms) == Ok::<Option<u64>, Fault>(x),
            Err(e) => spec_parse_set_args(args.0@, args.1@, now_ms) matches Err(f)
                && fault_matches(e, f),
        },
{
    match (args.0, args.1) {
        (Data::BulkString(px), Data::BulkString(ms)) => {
            if eq_ignore_case(px.as_str(), "PX") {
                match parse_u64_str(ms.as_str()) {
                    Some(n) => {
                        let expiration = if n > u64::MAX - now_ms {
                            u64::MAX
                        } else {
                            now_ms + n
                        };
                        Ok(Some(expiration))
                    },
                    None => Err(Error::Parser),
                }
            } else {
                Err(Error::Unsupported("unsupported SET option".to_owned()))
            }
        },
        _ => Err(Error::Unsupported("unsupported SET option pair".to_owned())),
    }
}

/// The model of `SET`: key and value from the first two arguments, an
/// optional expiration from a `PX` pair.
pub open spec fn spec_set_cmd(args: Seq<DataV>, now: u64) -> Result<
    (Seq<char>, Seq<char>, Option<u64>),
    Fault,
> {
    if args.len() < 2 {
        Err(Fault::Unsup)
    } else {
        match (data_str(args[0]), data_str(args[1])) {
            (Some(k), Some(v)) => {
                if args.len() >= 4 {
                    match spec_parse_set_args(args[2], args[3], now) {
                        Ok(e) => Ok((k, v, e)),
                        Err(f) => Err(f),
                    }
                } else {
                    Ok((k, v, None))
                }
            },
            _ => Err(Fault::Unsup),
        }
    }
}

/// `SET key value [PX ms]` writes the store and answers `OK`.
pub fn set_execute(args: &[Data], state: &mut Db, now_ms: u64) -> (r: Result<Data, Error>)
    requires
        old(state).wf(),
    ensures
        final(state).wf(),
        match spec_set_cmd(seq_data_view(args@), now_ms) {
            Ok(kve) => r matches Ok(d) && d@ == DataV::SimpleString("OK"@) && final(state).entries() == spec_set(
                old(state).entries(),
                EntryV { key: kve.0, value: kve.1, expiration: kve.2 },
            ),
            Err(f) => r matches Err(e) && fault_matches(e, f) && final(state).entries() == old(state).entries(),
        },
        final(state).config == old(state).config,
        final(state).info == old(state).info,
        final(state).connected_slaves == old(state).connected_slaves,
{
    proof {
        lemma_seq_data_view(args@);
    }
    if args.len() < 2 {
        return Err(Error::Unsupported("unexpected SET arguments".to_owned()));
    }
    let key = match data_as_str(&args[0]) {
        Ok(s) => s,
        Err(e) => {
            return Err(e);
        },
    };
    let value = match data_as_str(&args[1]) {
        Ok(s) => s,
        Err(e) => {
            return Err(e);
        },
    };
    let expiration: Option<u64> = if args.len() >= 4 {
        match parse_set_args((&args[2], &args[3]), now_ms) {
            Ok(x) => x,
            Err(e) => {
                return Err(e);
            },
        }
    } else {
        None
    };
    state.set(key, value, expiration);
    Ok(Data::ok_response())
}

/// The model of `GET`: the reply and the keyspace after the read; a
/// present live entry answers its value, an expired entry is dropped and
/// answers the null bulk string, a missing key answers the null bulk
/// string.
pub open spec fn spec_get_cmd(args: Seq<DataV>, entries: Seq<EntryV>, now: u64) -> Result<
    (DataV, Seq<EntryV>),
    Fault,
> {
    if args.len() < 1 {
        Err(Fault::Unsup)
    } else {
        match data_str(args[0]) {
            None => Err(Fault::Unsup),
            Some(k) => match spec_get(entries, k) {
                None => Ok((DataV::NullBuilkString, entries)),
                Some(e) => {
                    if live(e, now) {
                        Ok((DataV::BulkString(e.value), entries))
                    } else {
                        Ok((DataV::NullBuilkString, spec_remove(entries, k)))
                    }
                },
            },
        }
    }
}

/// `GET key` reads the store, dropping the entry when it has expired.
pub fn get_execute(args: &[Data], state: &mut Db, now_ms: u64) -> (r: Result<Data, Error>)
    requires
        old(state).wf(),
    ensures
        final(state).wf(),
        match spec_get_cmd(seq_data_view(args@), old(state).entries(), now_ms) {
            Ok(des) => r matches Ok(d) && d@ == des.0 && final(state).entries() == des.1,
            Err(f) => r matches Err(e) && fault_matches(e, f) && final(state).entries() == old(state).entries(),
        },
        final(state).config == old(state).config,
        final(state).info == old(state).info,
        final(state).connected_slaves == old(state).connected_slaves,
{
    proof {
        lemma_seq_data_view(args@);
    }
    if args.len() < 1 {
        return Err(Error::Unsupported("unexpected GET arguments".to_owned()));
    }
    let key = match data_as_str(&args[0]) {
        Ok(s) => s,
        Err(e) => {
            return Err(e);
        },
    };
    match state.get(key, now_ms) {
        Some(v) => Ok(Data::BulkString(v)),
        None => Ok(Data::NullBuilkString),
    }
}

/// The model of `KEYS`: one argument names the (ignored) pattern, and
/// every key comes back as a bulk string, in store order.
pub open spec fn spec_keys_cmd(args: Seq<DataV>, entries: Seq<EntryV>) -> Result<DataV, Fault> {
    if args.len() < 1 {
        Err(Fault::Unsup)
    } else {
        match data_str(args[0]) {
            None => Err(Fault::Unsup),
            Some(k) => Ok(
                DataV::Array(entries.map(|i: int, e: EntryV| DataV::BulkString(e.key))),
            ),
        }
    }
}

/// `KEYS pattern` lists all keys; the pattern is accepted and ignored.
pub fn keys_execute(args: &[Data], state: &Db) -> (r: Result<Data, Error>)
    ensures
        match r {
            Ok(d) => spec_keys_cmd(seq_data_view(args@), state.entries()) == Ok::<DataV, Fault>(
                d@,
            ),
            Err(e) => spec_keys_cmd(seq_data_view(args@), state.entries()) matches Err(f)
                && fault_matches(e, f),
        },
{
    proof {
        lemma_seq_data_view(args@);
    }
    if args.len() < 1 {
        return Err(Error::Unsupported("unexpected KEYS arguments".to_owned()));
    }
    let pattern = match data_as_str(&args[0]) {
        Ok(s) => s,
        Err(e) => {
            return Err(e);
        },
    };
    let ks = state.keys(pattern);
    let n = ks.len();
    let mut items: Vec<Data> = Vec::new();
    let mut i: usize = 0;
    loop
        invariant
            0 <= i <= n,
            n == ks@.len(),
            n == state.entries().len(),
            spec_keys_cmd(seq_data_view(args@), state.entries()) == Ok::<DataV, Fault>(
                DataV::Array(state.entries().map(|j: int, e: EntryV| DataV::BulkString(e.key))),
            ),
            forall|j: int| 0 <= j < n ==> ks@[j]@ == state.entries()[j].key,
            items@.len() == i,
            forall|j: int|
                0 <= j < i ==> seq_data_view(items@)[j] == DataV::BulkString(
                    state.entries()[j].key,
                ),
            seq_data_view(items@).len() == i,
        decreases n - i,
    {
        proof {
            lemma_seq_data_view(items@);
        }
        if i == n {
            proof {
                assert(seq_data_view(items@) =~= state.entries().map(
                    |j: int, e: EntryV| DataV::BulkString(e.key),
                ));
            }
            return Ok(Data::Array(items));
        }
        let ghost prev = items@;
        items.push(Data::BulkString(ks[i].clone()));
        proof {
            crate::protocol::lemma_seq_data_view_push(prev, items@.last());
            lemma_seq_data_view(items@);
        }
        i = i + 1;
    }
}

/// `REPLCONF` is acknowledged with `OK`.
pub fn replconf_execute(_args: &[Data], _state: &Db) -> (r: Data)
    ensures
        r@ == DataV::SimpleString("OK"@),
{
    Data::SimpleString("OK".to_owned())
}

/// The base64 text of the built-in snapshot of an empty database, sent
/// to a replica when no snapshot file is readable.
pub open spec fn empty_db_b64() -> Seq<char> {
    "UkVESVMwMDEx+glyZWRpcy12ZXIFNy4yLjD6CnJlZGlzLWJpdHPAQPoFY3RpbWXCbQi8ZfoIdXNlZC1tZW3CsMQQAPoIYW9mLWJhc2XAAP/wbjv+wP9aog=="@
}

/// The bytes the standard base64 alphabet decodes a text to.
pub uninterp spec fn b64_decode_of(s: Seq<char>) -> Seq<u8>;

/// Relies on base64's `STANDARD` engine: `decode` is a pure function of
/// the input text, and on success returns the decoded bytes.
#[verifier::external_body]
fn base64_decode(s: &str) -> (r: Option<Vec<u8>>)
    ensures
        r matches Some(v) ==> v@ == b64_decode_of(s@),
{
    base64::Engine::decode(&base64::engine::general_purpose::STANDARD, s).ok()
}

/// Decode the built-in empty-database snapshot.
fn empty_db() -> (r: Option<Vec<u8>>)
    ensures
        r matches Some(v) ==> v@ == b64_decode_of(empty_db_b64()),
{
    base64_decode(
        "UkVESVMwMDEx+glyZWRpcy12ZXIFNy4yLjD6CnJlZGlzLWJpdHPAQPoFY3RpbWXCbQi8ZfoIdXNlZC1tZW3CsMQQAPoIYW9mLWJhc2XAAP/wbjv+wP9aog==",
    )
}

/// The full-resync reply frame: `FULLRESYNC <replid> 0` followed by the
/// raw snapshot bytes.
pub open spec fn psync_frame(replid: Seq<char>, bytes: Seq<u8>) -> DataV {
    DataV::FullResyncBinaryConent(
        Box::new(DataV::SimpleString("FULLRESYNC "@ + replid + " 0"@)),
        bytes,
    )
}

/// Build the full-resync reply for a replication id and snapshot bytes.
pub fn psync_reply(replid: &str, bytes: Vec<u8>) -> (r: Data)
    ensures
        r@ == psync_frame(replid@, bytes@),
{
    let mut line = String::new();
    line.append("FULLRESYNC ");
    line.append(replid);
    line.append(" 0");
    assert(line@ =~= "FULLRESYNC "@ + replid@ + " 0"@);
    let inner = Data::SimpleString(line);
    assert(inner@ == DataV::SimpleString("FULLRESYNC "@ + replid@ + " 0"@));
    let boxed = Box::new(inner);
    let ghost bv = bytes@;
    let d = Data::FullResyncBinaryConent(boxed, bytes);
    assert(d@ == psync_frame(replid@, bv));
    d
}

/// `PSYNC` answers a full resync carrying the given snapshot bytes, or
/// the built-in empty snapshot when none are given.
pub fn psync_execute(_args: &[Data], state: &Db, snapshot: Option<Vec<u8>>) -> (r: Result<
    Data,
    Error,
>)
    ensures
        match snapshot {
            Some(b) => r matches Ok(d) && d@ == psync_frame(
                state.info.replication.master_replid@,
                b@,
            ),
            None => match r {
                Ok(d) => d@ == psync_frame(
                    state.info.replication.master_replid@,
                    b64_decode_of(empty_db_b64()),
                ),
                Err(e) => e is Unsupported,
            },
        },
{
    let bytes = match snapshot {
        Some(b) => b,
        None => match empty_db() {
            Some(v) => v,
            None => {
                return Err(
                    Error::Unsupported("the built-in snapshot did not decode".to_owned()),
                );
            },
        },
    };
    Ok(psync_reply(state.info.replication.master_replid.as_str(), bytes))
}

/// The reply `execute` owes for every command except `PSYNC`, whose
/// reply depends on the snapshot handed in.
pub open spec fn spec_execute_reply(c: CmdV, db: Db, now: u64) -> Result<DataV, Fault> {
    match c {
        CmdV::ConnectionClosed => Ok(DataV::ConnectionClosed),
        CmdV::Ping => Ok(DataV::SimpleString("PONG"@)),
        CmdV::Echo(args) => spec_echo(args),
        CmdV::Get(args) => match spec_get_cmd(args, db.entries(), now) {
            Ok(des) => Ok(des.0),
            Err(f) => Err(f),
        },
        CmdV::SetCmd(args) => match spec_set_cmd(args, now) {
            Ok(kve) => Ok(DataV::SimpleString("OK"@)),
            Err(f) => Err(f),
        },
        CmdV::Config(args) => spec_config_cmd(args, db.config),
        CmdV::Command(args) => Ok(DataV::BulkString(Seq::<char>::empty())),
        CmdV::Keys(args) => spec_keys_cmd(args, db.entries()),
        CmdV::Info(args) => spec_info_cmd(args, db.info),
        CmdV::Replconf(args) => Ok(DataV::SimpleString("OK"@)),
        CmdV::Psync(args) => Err(Fault::Unsup),
    }
}

/// The keyspace `execute` leaves behind: only `SET` and `GET` touch it.
pub open spec fn spec_execute_entries(c: CmdV, entries: Seq<EntryV>, now: u64) -> Seq<EntryV> {
    match c {
        CmdV::SetCmd(args) => match spec_set_cmd(args, now) {
            Ok(kve) => spec_set(
                entries,
                EntryV { key: kve.0, value: kve.1, expiration: kve.2 },
            ),
            Err(f) => entries,
        },
        CmdV::Get(args) => match spec_get_cmd(args, entries, now) {
            Ok(des) => des.1,
            Err(f) => entries,
        },
        _ => entries,
    }
}

/// This node broadcasts a command before executing it exactly when it is
/// a master and the command is a write.
pub open spec fn broadcasts(c: CmdV, db: Db) -> bool {
    c is SetCmd && db.info.replication.role@ == "master"@
}

/// Dispatch one command: broadcast a write to every replica outbox when
/// this node is a master, then execute it locally, exactly once.
///
/// `now_ms` is the wall clock in milliseconds; `snapshot` is the raw
/// content of the configured snapshot file, if readable, used only by
/// `PSYNC`.
pub fn execute(cmd: Cmd, state: &mut Db, now_ms: u64, snapshot: Option<Vec<u8>>) -> (r: Result<
    Data,
    Error,
>)
    requires
        old(state).wf(),
    ensures
        final(state).wf(),
        !(cmd@ is Psync) ==> (match r {
            Ok(d) => spec_execute_reply(cmd@, *old(state), now_ms) == Ok::<DataV, Fault>(d@),
            Err(e) => spec_execute_reply(cmd@, *old(state), now_ms) matches Err(f)
                && fault_matches(e, f),
        }),
        cmd@ is Psync ==> (match snapshot {
            Some(b) => r matches Ok(d) && d@ == psync_frame(
                old(state).info.replication.master_replid@,
                b@,
            ),
            None => match r {
                Ok(d) => d@ == psync_frame(
                    old(state).info.replication.master_replid@,
                    b64_decode_of(empty_db_b64()),
                ),
                Err(e) => e is Unsupported,
            },
        }),
        final(state).entries() == spec_execute_entries(cmd@, old(state).entries(), now_ms),
        final(state).outboxes().len() == old(state).outboxes().len(),
        broadcasts(cmd@, *old(state)) ==> forall|j: int|
            0 <= j < old(state).outboxes().len() ==> final(state).outboxes()[j] == old(state).outboxes()[j].push(cmd@),
        !broadcasts(cmd@, *old(state)) ==> final(state).outboxes() == old(state).outboxes(),
        final(state).config == old(state).config,
        final(state).info == old(state).info,
{
    let master = state.info.is_master();
    if cmd.is_write() && master {
        crate::replication::broadcast_cmd(&cmd, state);
    }
    match cmd {
        Cmd::ConnectionClosed => Ok(Data::ConnectionClosed),
        Cmd::Ping => Ok(ping_execute()),
        Cmd::Echo { args } => echo_execute(args.as_slice()),
        Cmd::Get { args } => get_execute(args.as_slice(), state, now_ms),
        Cmd::SetCmd { args } => set_execute(args.as_slice(), state, now_ms),
        Cmd::Config { args } => config_execute(args.as_slice(), state),
        Cmd::Command { args } => Ok(command_execute(args.as_slice())),
        Cmd::Keys { args } => keys_execute(args.as_slice(), state),
        Cmd::Info { args } => info_execute(args.as_slice(), state),
        Cmd::Replconf { args } => Ok(replconf_execute(args.as_slice(), state)),
        Cmd::Psync { args } => psync_execute(args.as_slice(), state, snapshot),
    }
}

} // verus!
