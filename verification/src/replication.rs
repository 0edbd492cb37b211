//! Replication control: fan-out of writes to registered replicas, the
//! promotion of a connection into a replica session, and the slave-side
//! address derivation.

use vstd::prelude::*;
use vstd::utf8::decode_utf8;
use crate::error::Error;
use crate::protocol::{Data, DataV, Cmd, CmdV};
use crate::storage::Db;
use crate::text::bytes_to_string;

verus! {

/// Enqueue a copy of `cmd` on every registered replica's outbox, in
/// place, preserving each outbox's order.
pub fn broadcast_cmd(cmd: &Cmd, state: &mut Db)
    ensures
        final(state).outboxes().len() == old(state).outboxes().len(),
        forall|j: int|
            0 <= j < old(state).outboxes().len() ==> final(state).outboxes()[j] == old(
                state,
            ).outboxes()[j].push(cmd@),
        final(state).data == old(state).data,
        final(state).config == old(state).config,
        final(state).info == old(state).info,
{
    let ghost obs0 = state.outboxes();
    let n = state.connected_slaves.len();
    let mut i: usize = 0;
    loop
        invariant
            0 <= i <= n,
            state.connected_slaves@.len() == n,
            n == obs0.len(),
            obs0 == old(state).outboxes(),
            state.outboxes().len() == n,
            forall|j: int| 0 <= j < i ==> state.outboxes()[j] == obs0[j].push(cmd@),
            forall|j: int| i <= j < n ==> state.outboxes()[j] == obs0[j],
            state.data == old(state).data,
            state.config == old(state).config,
            state.info == old(state).info,
        decreases n - i,
    {
        if i == n {
            return ;
        }
        let ghost before = state.outboxes();
        let mut q = state.connected_slaves.remove(i);
        let ghost qv = q@;
        let c = cmd.clone_cmd();
        q.push(c);
        state.connected_slaves.insert(i, q);
        proof {
            assert(crate::storage::seq_cmd_view(q@) =~= crate::storage::seq_cmd_view(qv).push(
                cmd@,
            ));
            assert(state.outboxes() =~~= before.update(i as int, before[i as int].push(cmd@)));
        }
        i = i + 1;
    }
}

/// Promote a connection into a replica session: exactly when the reply
/// about to be written is a full-resync frame, register a fresh outbox
/// and hand back its index for the broadcast loop to drain.
pub fn register_slave(response: &Data, state: &mut Db) -> (r: Option<usize>)
    ensures
        match r {
            Some(idx) => response@ is FullResyncBinaryConent && idx == old(state).outboxes().len()
                && final(state).outboxes() == old(state).outboxes().push(Seq::<CmdV>::empty()),
            None => !(response@ is FullResyncBinaryConent) && final(state).outboxes() == old(
                state,
            ).outboxes(),
        },
        final(state).data == old(state).data,
        final(state).config == old(state).config,
        final(state).info == old(state).info,
{
    if !matches!(response, Data::FullResyncBinaryConent(_, _)) {
        return None;
    }
    Some(state.register_slave())
}

/// A character is one of the ASCII whitespace characters that may
/// surround a configured address.
pub open spec fn is_ws(c: char) -> bool {
    c == ' ' || c == '\t' || c == '\r' || c == '\n'
}

/// Drop leading whitespace.
pub open spec fn trim_front(s: Seq<char>) -> Seq<char>
    decreases s.len(),
{
    if s.len() > 0 && is_ws(s[0]) {
        trim_front(s.drop_first())
    } else {
        s
    }
}

/// Drop trailing whitespace.
pub open spec fn trim_back(s: Seq<char>) -> Seq<char>
    decreases s.len(),
{
    if s.len() > 0 && is_ws(s[s.len() - 1]) {
        trim_back(s.drop_last())
    } else {
        s
    }
}

/// Each space becomes a colon; all else stays.
pub open spec fn space_to_colon(s: Seq<char>) -> Seq<char> {
    s.map(
        |i: int, c: char|
            if c == ' ' {
                ':'
            } else {
                c
            },
    )
}

/// The socket address derived from a configured `host port` string:
/// surrounding whitespace dropped and each space turned into a colon.
/// The transform is ASCII-only; a non-ASCII address passes unchanged.
pub open spec fn addr_of(s: Seq<char>) -> Seq<char> {
    if vstd::utf8::is_ascii_chars(s) {
        space_to_colon(trim_back(trim_front(s)))
    } else {
        s
    }
}

/// Derive the address to dial from the configured `host port` string.
#[verifier::rlimit(50)]
pub fn replica_addr(s: &str) -> (r: String)
    ensures
        r@ == addr_of(s@),
{
    if !s.is_ascii() {
        return s.to_owned();
    }
    proof {
        vstd::string::is_ascii_spec_bytes(s);
        vstd::utf8::is_ascii_chars_nat_bound(s@);
    }
    let bytes = s.as_bytes();
    assert(bytes@.len() == s@.len() && forall|j: int|
        0 <= j < s@.len() ==> bytes@[j] == #[trigger] s@[j] as u8);
    let n = bytes.len();
    assert(s@.subrange(0, n as int) == s@);
    let mut start: usize = 0;
    loop
        invariant
            0 <= start <= n,
            n == s@.len(),
            bytes@.len() == s@.len(),
            forall|j: int| 0 <= j < s@.len() ==> bytes@[j] == #[trigger] s@[j] as u8,
            vstd::utf8::is_ascii_chars(s@),
            forall|j: int| 0 <= j < start ==> is_ws(s@[j]),
            trim_front(s@) =~= trim_front(s@.subrange(start as int, n as int)),
        ensures
            start <= n,
            start < n ==> !is_ws(s@[start as int]),
            forall|j: int| 0 <= j < start ==> is_ws(s@[j]),
            trim_front(s@) =~= trim_front(s@.subrange(start as int, n as int)),
        decreases n - start,
    {
        if start == n {
            break ;
        }
        let b = bytes[start];
        assert(b == s@[start as int] as u8);
        let ws = b == 32 || b == 9 || b == 13 || b == 10;
        proof {
            vstd::utf8::is_ascii_chars_nat_bound(s@);
            assert((s@[start as int] as nat) < 128);
            assert(ws == is_ws(s@[start as int]));
        }
        if !ws {
            break ;
        }
        proof {
            assert(s@.subrange(start as int, n as int).drop_first() =~= s@.subrange(
                start + 1 as int,
                n as int,
            ));
        }
        start = start + 1;
    }
    let ghost fronted = s@.subrange(start as int, n as int);
    proof {
        assert(trim_front(s@) =~= fronted) by {
            if start < n {
                assert(!is_ws(fronted[0]));
            }
        }
    }
    let mut end: usize = n;
    loop
        invariant
            start <= end <= n,
            n == s@.len(),
            bytes@.len() == s@.len(),
            forall|j: int| 0 <= j < s@.len() ==> bytes@[j] == #[trigger] s@[j] as u8,
            vstd::utf8::is_ascii_chars(s@),
            trim_back(fronted) =~= trim_back(s@.subrange(start as int, end as int)),
        ensures
            start <= end <= n,
            end > start ==> !is_ws(s@[end - 1]),
            trim_back(fronted) =~= trim_back(s@.subrange(start as int, end as int)),
        decreases end,
    {
        if end == start {
            break ;
        }
        let b = bytes[end - 1];
        assert(b == s@[end - 1] as u8);
        let ws = b == 32 || b == 9 || b == 13 || b == 10;
        proof {
            vstd::utf8::is_ascii_chars_nat_bound(s@);
            assert((s@[end - 1] as nat) < 128);
            assert(ws == is_ws(s@[end - 1]));
        }
        if !ws {
            break ;
        }
        proof {
            assert(s@.subrange(start as int, end as int).drop_last() =~= s@.subrange(
                start as int,
                end - 1,
            ));
        }
        end = end - 1;
    }
    let ghost trimmed = s@.subrange(start as int, end as int);
    proof {
        assert(trim_back(fronted) =~= trimmed) by {
            if end > start {
                assert(!is_ws(trimmed[trimmed.len() - 1]));
            }
        }
    }
    let mut out: Vec<u8> = Vec::new();
    let mut i = start;
    loop
        invariant
            start <= i <= end <= n,
            n == s@.len(),
            bytes@.len() == s@.len(),
            forall|j: int| 0 <= j < s@.len() ==> bytes@[j] == #[trigger] s@[j] as u8,
            vstd::utf8::is_ascii_chars(s@),
            out@.len() == i - start,
            forall|j: int|
                0 <= j < out@.len() ==> out@[j] == (if s@[start + j] == ' ' {
                    58u8
                } else {
                    s@[start + j] as u8
                }),
            forall|j: int| 0 <= j < out@.len() ==> out@[j] < 128,
        ensures
            out@.len() == end - start,
            forall|j: int|
                0 <= j < out@.len() ==> out@[j] == (if s@[start + j] == ' ' {
                    58u8
                } else {
                    s@[start + j] as u8
                }),
            forall|j: int| 0 <= j < out@.len() ==> out@[j] < 128,
        decreases end - i,
    {
        if i == end {
            break ;
        }
        let b = bytes[i];
        proof {
            vstd::utf8::is_ascii_chars_nat_bound(s@);
            assert(b == s@[i as int] as u8);
            assert((s@[i as int] as nat) < 128);
        }
        if b == 32 {
            proof {
                assert(s@[i as int] == ' ');
            }
            out.push(58);  // ':'
        } else {
            proof {
                assert(s@[i as int] != ' ') by {
                    if s@[i as int] == ' ' {
                        assert(s@[i as int] as u8 == 32);
                    }
                }
            }
            out.push(b);
        }
        i = i + 1;
    }
    proof {
        vstd::utf8::is_ascii_chars_nat_bound(s@);
        crate::text::lemma_ascii_decode(out@);
        assert forall|j: int| 0 <= j < out@.len() implies decode_utf8(out@)[j] == space_to_colon(
            trimmed,
        )[j] by {
            assert(trimmed[j] == s@[start + j]);
            assert((s@[start + j] as nat) < 128);
            if s@[start + j] == ' ' {
                assert(out@[j] == 58);
            } else {
                assert(out@[j] == s@[start + j] as u8);
            }
        }
        assert(decode_utf8(out@) =~= space_to_colon(trimmed));
    }
    match bytes_to_string(out.as_slice()) {
        Some(r) => {
            assert(r@ =~= addr_of(s@));
            r
        },
        None => {
            // unreachable: the bytes are ASCII
            assert(false);
            String::new()
        },
    }
}

/// Where the slave-side handshake with the master stands.
#[derive(Debug, PartialEq, Eq, Structural, Clone, Copy)]
pub enum HandshakeState {
    /// `PING` was sent; its reply is awaited.
    SentPing,
    /// `REPLCONF listening-port` was sent; its reply is awaited.
    SentPort,
    /// `REPLCONF capa psync2` was sent; its reply is awaited.
    SentCapa,
    /// `PSYNC ? -1` was sent; its reply is awaited.
    SentPsync,
    /// The master announced a full resync: its snapshot follows.
    LoadSnapshot,
    /// The handshake is over; command frames follow.
    Streaming,
}

/// The wire bytes of the array `[verb, args...]` of bulk strings.
pub open spec fn command_bytes(verb: Seq<char>, args: Seq<Seq<char>>) -> Seq<u8> {
    crate::write::encode(
        DataV::Array(
            seq![DataV::BulkString(verb)] + args.map(|i: int, a: Seq<char>| DataV::BulkString(a)),
        ),
    )
}

/// What the handshake does on a reply, given the state that awaited it:
/// the three opening messages go out in turn with any reply accepted;
/// the `PSYNC` reply must be a simple string, and decides between
/// loading a snapshot (it opens with `FULLRESYNC`, any case) and going
/// straight to streaming.
pub open spec fn spec_handshake(st: HandshakeState, port: u16, reply: DataV) -> Result<
    (HandshakeState, Option<Seq<u8>>),
    crate::error::Fault,
> {
    match st {
        HandshakeState::SentPing => Ok(
            (
                HandshakeState::SentPort,
                Some(
                    command_bytes(
                        "REPLCONF"@,
                        seq!["listening-port"@, crate::text::dec_chars(port as nat)],
                    ),
                ),
            ),
        ),
        HandshakeState::SentPort => Ok(
            (
                HandshakeState::SentCapa,
                Some(command_bytes("REPLCONF"@, seq!["capa"@, "psync2"@])),
            ),
        ),
        HandshakeState::SentCapa => Ok(
            (HandshakeState::SentPsync, Some(command_bytes("PSYNC"@, seq!["?"@, "-1"@]))),
        ),
        HandshakeState::SentPsync => match reply {
            DataV::SimpleString(s) => {
                if s.len() >= "FULLRESYNC"@.len() && crate::text::matches_ic(
                    s.subrange(0, "FULLRESYNC"@.len() as int),
                    "FULLRESYNC"@,
                ) {
                    Ok((HandshakeState::LoadSnapshot, None))
                } else {
                    Ok((HandshakeState::Streaming, None))
                }
            },
            _ => Err(crate::error::Fault::Unsup),
        },
        _ => Err(crate::error::Fault::Unsup),
    }
}

/// Build the wire bytes of `[verb, args...]`, all bulk strings.
fn encode_command(verb: &str, args: Vec<String>) -> (r: Vec<u8>)
    ensures
        r@ == command_bytes(verb@, args@.map(|i: int, a: String| a@)),
{
    let mut items: Vec<Data> = Vec::new();
    items.push(Data::BulkString(verb.to_owned()));
    proof {
        crate::protocol::lemma_seq_data_view(items@);
        assert(crate::protocol::seq_data_view(items@) =~= seq![DataV::BulkString(verb@)]
            + args@.subrange(0, 0).map(|j: int, a: String| DataV::BulkString(a@)));
    }
    let n = args.len();
    let mut i: usize = 0;
    loop
        invariant
            0 <= i <= n,
            n == args@.len(),
            items@.len() == i + 1,
            crate::protocol::seq_data_view(items@) =~= seq![DataV::BulkString(verb@)]
                + args@.subrange(0, i as int).map(|j: int, a: String| DataV::BulkString(a@)),
        ensures
            crate::protocol::seq_data_view(items@) =~= seq![DataV::BulkString(verb@)]
                + args@.map(|j: int, a: String| DataV::BulkString(a@)),
        decreases n - i,
    {
        proof {
            crate::protocol::lemma_seq_data_view(items@);
        }
        if i == n {
            proof {
                assert(args@.subrange(0, i as int) =~= args@);
                assert(args@.subrange(0, i as int).map(|j: int, a: String| DataV::BulkString(a@))
                    =~= args@.map(|j: int, a: String| DataV::BulkString(a@)));
            }
            break ;
        }
        let ghost prev = items@;
        items.push(Data::BulkString(args[i].clone()));
        proof {
            crate::protocol::lemma_seq_data_view_push(prev, items@.last());
            assert(args@.subrange(0, i + 1 as int) =~= args@.subrange(0, i as int).push(
                args@[i as int],
            ));
            assert(crate::protocol::seq_data_view(items@) =~= seq![DataV::BulkString(verb@)]
                + args@.subrange(0, i + 1 as int).map(|j: int, a: String| DataV::BulkString(a@)));
        }
        i = i + 1;
    }
    let frame = Data::Array(items);
    proof {
        assert(frame@ == DataV::Array(
            seq![DataV::BulkString(verb@)] + args@.map(
                |j: int, a: String| DataV::BulkString(a@),
            ),
        ));
    }
    let mut out: Vec<u8> = Vec::new();
    let res = frame.write_resp(&mut out);
    proof {
        assert(out@ =~= command_bytes(verb@, args@.map(|i: int, a: String| a@))) by {
            assert(args@.map(|i: int, a: String| a@).map(
                |i: int, a: Seq<char>| DataV::BulkString(a),
            ) =~= args@.map(|j: int, a: String| DataV::BulkString(a@)));
        }
    }
    out
}

/// Open the handshake: the state awaiting the `PING` reply, and the
/// `PING` frame to send.
pub fn handshake_init() -> (r: (HandshakeState, Vec<u8>))
    ensures
        r.0 == HandshakeState::SentPing,
        r.1@ == command_bytes("PING"@, Seq::<Seq<char>>::empty()),
{
    let msg = encode_command("PING", Vec::new());
    proof {
        assert(Seq::<String>::empty().map(|i: int, a: String| a@) =~= Seq::<Seq<char>>::empty());
    }
    (HandshakeState::SentPing, msg)
}

/// Advance the handshake on one reply from the master; the result is
/// the next state and the bytes to send, if any.
pub fn handshake_on_reply(st: HandshakeState, port: u16, reply: &Data) -> (r: Result<
    (HandshakeState, Option<Vec<u8>>),
    Error,
>)
    ensures
        match r {
            Ok(sm) => spec_handshake(st, port, reply@) matches Ok(sp) && sp.0 == sm.0 && (match sm
                .1 {
                Some(m) => sp.1 matches Some(b) && m@ == b,
                None => sp.1 is None,
            }),
            Err(e) => spec_handshake(st, port, reply@) matches Err(f)
                && crate::error::fault_matches(e, f),
        },
{
    match st {
        HandshakeState::SentPing => {
            let mut args: Vec<String> = Vec::new();
            args.push("listening-port".to_owned());
            args.push(crate::text::u64_to_string(port as u64));
            proof {
                assert(args@.map(|i: int, a: String| a@) =~= seq![
                    "listening-port"@,
                    crate::text::dec_chars(port as nat),
                ]);
            }
            let msg = encode_command("REPLCONF", args);
            Ok((HandshakeState::SentPort, Some(msg)))
        },
        HandshakeState::SentPort => {
            let mut args: Vec<String> = Vec::new();
            args.push("capa".to_owned());
            args.push("psync2".to_owned());
            proof {
                assert(args@.map(|i: int, a: String| a@) =~= seq!["capa"@, "psync2"@]);
            }
            let msg = encode_command("REPLCONF", args);
            Ok((HandshakeState::SentCapa, Some(msg)))
        },
        HandshakeState::SentCapa => {
            let mut args: Vec<String> = Vec::new();
            args.push("?".to_owned());
            args.push("-1".to_owned());
            proof {
                assert(args@.map(|i: int, a: String| a@) =~= seq!["?"@, "-1"@]);
            }
            let msg = encode_command("PSYNC", args);
            Ok((HandshakeState::SentPsync, Some(msg)))
        },
        HandshakeState::SentPsync => {
            match reply {
                Data::SimpleString(s) => {
                    if crate::text::starts_with_ic(s.as_str(), "FULLRESYNC") {
                        Ok((HandshakeState::LoadSnapshot, None))
                    } else {
                        Ok((HandshakeState::Streaming, None))
                    }
                },
                _ => Err(Error::Unsupported("unexpected master reply".to_owned())),
            }
        },
        _ => Err(Error::Unsupported("no reply is awaited in this state".to_owned())),
    }
}

/// Consume the snapshot a master streams after `FULLRESYNC`: one
/// CRLF-terminated length line, then the snapshot itself, loaded into
/// the local store; the result is the position just past it.
pub fn load_db_from_request(input: &[u8], pos: usize, state: &mut Db) -> (r: Result<usize, Error>)
    requires
        old(state).wf(),
    ensures
        final(state).wf(),
        match crate::text::find_line_end(input@, pos as int) {
            None => r matches Err(e) && e is IO,
            Some(e1) => match crate::rdb::spec_load(input@, e1 + 2) {
                Ok(esp) => r matches Ok(p) && p == esp.1 && final(state).entries()
                    == crate::rdb::apply_entries(old(state).entries(), esp.0),
                Err(f) => r matches Err(er) && crate::error::fault_matches(er, f),
            },
        },
        final(state).config == old(state).config,
        final(state).info == old(state).info,
        final(state).connected_slaves == old(state).connected_slaves,
{
    if pos > input.len() {
        proof {
            if crate::text::find_line_end(input@, pos as int) is Some {
                let e = choose|e: int| crate::text::is_line_end(input@, pos as int, e);
                crate::parser::lemma_find_some(input@, pos as int, e);
            }
        }
        return Err(Error::IO);
    }
    match crate::text::find_crlf(input, pos) {
        None => Err(Error::IO),
        Some(e1) => {
            proof {
                crate::parser::lemma_find_some(input@, pos as int, e1 as int);
            }
            crate::rdb::load_from_reader(input, e1 + 2, state)
        },
    }
}

/// If a master address is configured, the node is a slave: the address
/// to dial is returned; otherwise the node is a master.
pub fn start_replication(state: &Db) -> (r: Option<String>)
    ensures
        match r {
            Some(a) => state.config.replicaof matches Some(s) && a@ == addr_of(s@),
            None => state.config.replicaof is None,
        },
{
    match &state.config.replicaof {
        None => None,
        Some(s) => Some(replica_addr(s.as_str())),
    }
}

} // verus!
