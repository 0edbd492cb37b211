//! Laws the store obeys across commands, stated over the dispatcher's
//! models and proved once and for all.

use vstd::prelude::*;
use crate::error::Fault;
use crate::protocol::{DataV, CmdV};
use crate::storage::{
    Db,
    EntryV,
    spec_set,
    spec_get,
    live,
    lemma_set_preserves_unique,
    lemma_get_after_set,
};
use crate::cmds::{
    spec_execute_reply,
    spec_execute_entries,
    spec_set_cmd,
    spec_get_cmd,
    spec_parse_set_args,
    sat_add,
    data_str,
};
use crate::text::{dec_chars, matches_ic, lemma_dec_chars_value};

verus! {

/// A `SET k v` answers `OK`, and on the store it leaves, a `GET k` at
/// any later point answers `v` as a bulk string — there being no
/// expiration and no intervening write to `k`.
pub proof fn lemma_set_then_get(db: Db, k: Seq<char>, v: Seq<char>, t0: u64, t1: u64)
    requires
        db.wf(),
    ensures
        ({
            let set_args = seq![DataV::BulkString(k), DataV::BulkString(v)];
            let entries1 = spec_execute_entries(CmdV::SetCmd(set_args), db.entries(), t0);
            &&& spec_execute_reply(CmdV::SetCmd(set_args), db, t0) == Ok::<DataV, Fault>(
                DataV::SimpleString("OK"@),
            )
            &&& spec_get_cmd(seq![DataV::BulkString(k)], entries1, t1) == Ok::<
                (DataV, Seq<EntryV>),
                Fault,
            >((DataV::BulkString(v), entries1))
        }),
{
    let set_args = seq![DataV::BulkString(k), DataV::BulkString(v)];
    assert(data_str(set_args[0]) == Some(k));
    assert(data_str(set_args[1]) == Some(v));
    assert(spec_set_cmd(set_args, t0) == Ok::<(Seq<char>, Seq<char>, Option<u64>), Fault>(
        (k, v, None),
    ));
    let e = EntryV { key: k, value: v, expiration: None };
    lemma_get_after_set(db.entries(), e);
    let entries1 = spec_execute_entries(CmdV::SetCmd(set_args), db.entries(), t0);
    assert(entries1 == spec_set(db.entries(), e));
    assert(spec_get(entries1, k) == Some(e));
    assert(live(e, t1));
    let get_args = seq![DataV::BulkString(k)];
    assert(data_str(get_args[0]) == Some(k));
}

/// After `SET k v PX m` at time `t0`, a `GET k` on the store it leaves
/// answers the null bulk string at time `t1` exactly when `t1 >= t0 + m`,
/// and `v` before that.
pub proof fn lemma_set_px_then_get(db: Db, k: Seq<char>, v: Seq<char>, m: u64, t0: u64, t1: u64)
    requires
        db.wf(),
        t0 + m <= u64::MAX,
    ensures
        ({
            let set_args = seq![
                DataV::BulkString(k),
                DataV::BulkString(v),
                DataV::BulkString("PX"@),
                DataV::BulkString(dec_chars(m as nat)),
            ];
            let entries1 = spec_execute_entries(CmdV::SetCmd(set_args), db.entries(), t0);
            &&& spec_execute_reply(CmdV::SetCmd(set_args), db, t0) == Ok::<DataV, Fault>(
                DataV::SimpleString("OK"@),
            )
            &&& spec_get_cmd(seq![DataV::BulkString(k)], entries1, t1) matches Ok(rr) && rr.0 == (
            if t1 >= t0 + m {
                DataV::NullBuilkString
            } else {
                DataV::BulkString(v)
            })
        }),
{
    let set_args = seq![
        DataV::BulkString(k),
        DataV::BulkString(v),
        DataV::BulkString("PX"@),
        DataV::BulkString(dec_chars(m as nat)),
    ];
    assert(data_str(set_args[0]) == Some(k));
    assert(data_str(set_args[1]) == Some(v));
    lemma_dec_chars_value(m as nat);
    assert(matches_ic("PX"@, "PX"@));
    assert(spec_parse_set_args(set_args[2], set_args[3], t0) == Ok::<Option<u64>, Fault>(
        Some(sat_add(t0, m as nat)),
    ));
    assert(sat_add(t0, m as nat) == t0 + m);
    let e = EntryV { key: k, value: v, expiration: Some((t0 + m) as u64) };
    assert(spec_set_cmd(set_args, t0) == Ok::<(Seq<char>, Seq<char>, Option<u64>), Fault>(
        (k, v, Some((t0 + m) as u64)),
    ));
    lemma_get_after_set(db.entries(), e);
    let entries1 = spec_execute_entries(CmdV::SetCmd(set_args), db.entries(), t0);
    assert(entries1 == spec_set(db.entries(), e));
    assert(spec_get(entries1, k) == Some(e));
    assert(live(e, t1) == (t0 + m > t1));
    let get_args = seq![DataV::BulkString(k)];
    assert(data_str(get_args[0]) == Some(k));
}

} // verus!
