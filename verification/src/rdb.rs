//! The snapshot-file decoder.
//!
//! A snapshot starts with the nine-byte header, carries a metadata
//! section, optionally one database section of key/value records with
//! optional expirations, and ends with an end marker and an eight-byte
//! checksum that is read but not verified.  The grammar lives in the
//! `spec_load*` functions; the executable loader populates the store with
//! exactly the records those functions name.

use vstd::prelude::*;
use vstd::utf8::{valid_utf8, decode_utf8};
use crate::error::{Error, Fault, fault_matches};
use crate::storage::{Db, Config, EntryV, spec_set};
use crate::text::{dec_chars, bytes_to_string, u64_to_string};

verus! {

/// The snapshot loader, owning the configuration that names the file.
pub struct Rdb {
    config: Config,
}

impl Rdb {
    /// The configuration the loader was built with.
    pub closed spec fn spec_config(&self) -> Config {
        self.config
    }

    /// A loader for the given configuration.
    pub fn from(config: &Config) -> (r: Rdb)
        ensures
            r.spec_config() == *config,
    {
        Rdb { config: config.clone_config() }
    }

    /// Build the startup store: empty when no file content is given,
    /// else populated with exactly the snapshot's records; a malformed
    /// snapshot aborts startup.  The caller reads the file named by
    /// `Config::db_path` and passes its bytes, or `None` when there is
    /// no file.
    pub fn load(&mut self, file: Option<Vec<u8>>) -> (r: Result<Db, Error>)
        ensures
            *final(self) == *old(self),
            match file {
                None => r matches Ok(db) && db.wf() && db.entries() == Seq::<EntryV>::empty()
                    && db.config == old(self).spec_config(),
                Some(bytes) => match spec_load(bytes@, 0) {
                    Ok(esp) => r matches Ok(db) && db.wf() && db.entries() == apply_entries(
                        Seq::<EntryV>::empty(),
                        esp.0,
                    ) && db.config == old(self).spec_config(),
                    Err(f) => r matches Err(e) && fault_matches(e, f),
                },
            },
    {
        let db0 = Db::new(self.config.clone_config());
        match file {
            None => Ok(db0),
            Some(bytes) => {
                let mut db = db0;
                match load_from_reader(bytes.as_slice(), 0, &mut db) {
                    Ok(_) => Ok(db),
                    Err(e) => Err(e),
                }
            },
        }
    }
}

/// The nine header bytes, the ASCII of `REDIS0011`.
pub open spec fn header_bytes() -> Seq<u8> {
    seq![82u8, 69u8, 68u8, 73u8, 83u8, 48u8, 48u8, 49u8, 49u8]
}

/// The big-endian 32-bit value at `pos`.
pub open spec fn be32(input: Seq<u8>, pos: int) -> nat {
    (input[pos] * 0x1000000 + input[pos + 1] * 0x10000 + input[pos + 2] * 0x100 + input[pos
        + 3]) as nat
}

/// The little-endian 32-bit value at `pos`.
pub open spec fn le32(input: Seq<u8>, pos: int) -> nat {
    (input[pos] + input[pos + 1] * 0x100 + input[pos + 2] * 0x10000 + input[pos + 3]
        * 0x1000000) as nat
}

/// The little-endian 64-bit value at `pos`.
pub open spec fn le64(input: Seq<u8>, pos: int) -> nat {
    (le32(input, pos) + le32(input, pos + 4) * 0x100000000) as nat
}

/// One length encoding: the result is the length and whether it counts
/// plain string bytes (`true`) or selects a special integer width.
///
/// The two high bits of the first byte pick the form: `00` takes the low
/// six bits; `01` puts the low six bits above one more byte; `10` takes
/// a big-endian 32-bit length; `11` selects an 8-, 16- or 32-bit integer
/// string.
pub open spec fn spec_read_len(input: Seq<u8>, pos: int) -> Result<((nat, bool), int), Fault> {
    if pos < 0 || pos >= input.len() {
        Err(Fault::Eof)
    } else {
        let b = input[pos];
        let tag = b / 64;
        let low = b % 64;
        if tag == 0 {
            Ok(((low as nat, true), pos + 1))
        } else if tag == 1 {
            if pos + 2 > input.len() {
                Err(Fault::Eof)
            } else {
                Ok((((low * 0x100 + input[pos + 1]) as nat, true), pos + 2))
            }
        } else if tag == 2 {
            if pos + 5 > input.len() {
                Err(Fault::Eof)
            } else {
                Ok(((be32(input, pos + 1), true), pos + 5))
            }
        } else {
            if low == 0 {
                Ok(((1, false), pos + 1))
            } else if low == 1 {
                Ok(((2, false), pos + 1))
            } else if low == 2 {
                Ok(((4, false), pos + 1))
            } else {
                Err(Fault::Invalid)
            }
        }
    }
}

/// One encoded string: a plain form is that many UTF-8 bytes; a special
/// integer of width 1 or 4 is read little-endian and rendered in decimal;
/// other widths are unsupported.
pub open spec fn spec_read_string(input: Seq<u8>, pos: int) -> Result<(Seq<char>, int), Fault> {
    match spec_read_len(input, pos) {
        Err(f) => Err(f),
        Ok(((n, plain), p1)) => {
            if p1 + n > input.len() {
                Err(Fault::Eof)
            } else {
                let bytes = input.subrange(p1, p1 + n);
                if plain {
                    if valid_utf8(bytes) {
                        Ok((decode_utf8(bytes), p1 + n))
                    } else {
                        Err(Fault::Rdb)
                    }
                } else if n == 1 {
                    Ok((dec_chars(bytes[0] as nat), p1 + 1))
                } else if n == 4 {
                    Ok((dec_chars(le32(input, p1)), p1 + 4))
                } else {
                    Err(Fault::Unsup)
                }
            }
        },
    }
}

/// A successful length read moves forward and stays in bounds.
pub proof fn lemma_read_len_bounds(input: Seq<u8>, pos: int)
    ensures
        spec_read_len(input, pos) matches Ok(np) ==> pos < np.1 <= input.len(),
{
}

/// A successful string read moves forward and stays in bounds.
pub proof fn lemma_read_string_bounds(input: Seq<u8>, pos: int)
    ensures
        spec_read_string(input, pos) matches Ok(sp) ==> pos < sp.1 <= input.len(),
{
    lemma_read_len_bounds(input, pos);
}

/// The metadata section: `0xFA`-marked string pairs, ended by `0xFE`
/// (a database follows) or `0xFF` (none does).
pub open spec fn spec_load_metadata(input: Seq<u8>, pos: int) -> Result<(bool, int), Fault>
    decreases input.len() - pos,
{
    if pos < 0 || pos >= input.len() {
        Err(Fault::Eof)
    } else {
        let b = input[pos];
        if b == 0xFE {
            Ok((true, pos + 1))
        } else if b == 0xFF {
            Ok((false, pos + 1))
        } else if b == 0xFA {
            match spec_read_string(input, pos + 1) {
                Err(f) => Err(f),
                Ok((k, p1)) => match spec_read_string(input, p1) {
                    Err(f) => Err(f),
                    Ok((v, p2)) => {
                        if p2 <= pos || p2 > input.len() {
                            Err(Fault::Invalid)
                        } else {
                            spec_load_metadata(input, p2)
                        }
                    },
                },
            }
        } else {
            Err(Fault::Rdb)
        }
    }
}

/// One key/value record without expiration: a key string and a value
/// string.
pub open spec fn spec_load_kv_plain(input: Seq<u8>, pos: int) -> Result<(EntryV, int), Fault> {
    match spec_read_string(input, pos) {
        Err(f) => Err(f),
        Ok((k, p1)) => match spec_read_string(input, p1) {
            Err(f) => Err(f),
            Ok((v, p2)) => Ok((EntryV { key: k, value: v, expiration: None }, p2)),
        },
    }
}

/// One key/value record behind an expiration marker: `0xFD` carries four
/// little-endian seconds, `0xFC` eight little-endian milliseconds; the
/// value type byte must then be `0x00`, followed by key and value.
pub open spec fn spec_load_kv_expire(input: Seq<u8>, pos: int, marker: u8) -> Result<
    (EntryV, int),
    Fault,
> {
    if pos < 0 {
        Err(Fault::Eof)
    } else {
        let width: int = if marker == 0xFD {
            4
        } else {
            8
        };
        if pos + width + 1 > input.len() {
            Err(Fault::Eof)
        } else {
            let exp: nat = if marker == 0xFD {
                le32(input, pos) * 1000
            } else {
                le64(input, pos)
            };
            if input[pos + width] != 0x00 {
                Err(Fault::Rdb)
            } else {
                match spec_load_kv_plain(input, pos + width + 1) {
                    Err(f) => Err(f),
                    Ok((e, p)) => Ok(
                        (
                            EntryV { key: e.key, value: e.value, expiration: Some(exp as u64) },
                            p,
                        ),
                    ),
                }
            }
        }
    }
}

pub proof fn lemma_kv_plain_bounds(input: Seq<u8>, pos: int)
    ensures
        spec_load_kv_plain(input, pos) matches Ok(ep) ==> pos < ep.1 <= input.len(),
{
    lemma_read_string_bounds(input, pos);
    if let Ok((k, p1)) = spec_read_string(input, pos) {
        lemma_read_string_bounds(input, p1);
    }
}

pub proof fn lemma_kv_expire_bounds(input: Seq<u8>, pos: int, marker: u8)
    ensures
        spec_load_kv_expire(input, pos, marker) matches Ok(ep) ==> pos < ep.1 <= input.len(),
{
    if pos >= 0 {
        let width: int = if marker == 0xFD {
            4
        } else {
            8
        };
        lemma_kv_plain_bounds(input, pos + width + 1);
    }
}

/// One marked record: the marker byte picks the record form.
pub open spec fn kv_rec(input: Seq<u8>, pos: int, t: u8) -> Result<(EntryV, int), Fault> {
    if t == 0x00 {
        spec_load_kv_plain(input, pos)
    } else if t == 0xFD || t == 0xFC {
        spec_load_kv_expire(input, pos, t)
    } else {
        Err(Fault::Unsup)
    }
}

/// The key/value section: records until the `0xFF` end marker, in file
/// order.
pub open spec fn spec_load_kvs(input: Seq<u8>, pos: int) -> Result<(Seq<EntryV>, int), Fault>
    decreases input.len() - pos,
{
    if pos < 0 || pos >= input.len() {
        Err(Fault::Eof)
    } else {
        let t = input[pos];
        if t == 0xFF {
            Ok((Seq::empty(), pos + 1))
        } else {
            match kv_rec(input, pos + 1, t) {
                Err(f) => Err(f),
                Ok((e, p)) => {
                    if p <= pos || p > input.len() {
                        Err(Fault::Invalid)
                    } else {
                        match spec_load_kvs(input, p) {
                            Err(f) => Err(f),
                            Ok((es, pf)) => Ok((seq![e] + es, pf)),
                        }
                    }
                },
            }
        }
    }
}

/// The database section: a one-byte index, the `0xFB` resize marker, two
/// ignored table sizes, then the key/value section.
pub open spec fn spec_load_database(input: Seq<u8>, pos: int) -> Result<
    (Seq<EntryV>, int),
    Fault,
> {
    if pos < 0 || pos + 2 > input.len() {
        Err(Fault::Eof)
    } else if input[pos + 1] != 0xFB {
        Err(Fault::Rdb)
    } else {
        match spec_read_len(input, pos + 2) {
            Err(f) => Err(f),
            Ok((s1, p1)) => match spec_read_len(input, p1) {
                Err(f) => Err(f),
                Ok((s2, p2)) => spec_load_kvs(input, p2),
            },
        }
    }
}

/// The whole snapshot at `pos`: header, metadata, the database section
/// when one follows, the end marker, eight checksum bytes.  The result
/// is the records in file order and the position just past the checksum.
pub open spec fn spec_load(input: Seq<u8>, pos: int) -> Result<(Seq<EntryV>, int), Fault> {
    if pos < 0 || pos + 9 > input.len() {
        Err(Fault::Eof)
    } else if input.subrange(pos, pos + 9) != header_bytes() {
        Err(Fault::Rdb)
    } else {
        let body: Result<(Seq<EntryV>, int), Fault> = match spec_load_metadata(input, pos + 9) {
            Err(f) => Err(f),
            Ok((has_data, p)) => {
                if has_data {
                    spec_load_database(input, p)
                } else {
                    Ok((Seq::empty(), p))
                }
            },
        };
        match body {
            Err(f) => Err(f),
            Ok((es, p2)) => {
                if p2 < 0 || p2 + 8 > input.len() {
                    Err(Fault::Eof)
                } else {
                    Ok((es, p2 + 8))
                }
            },
        }
    }
}

/// The store after inserting the records in order.
pub open spec fn apply_entries(s: Seq<EntryV>, es: Seq<EntryV>) -> Seq<EntryV>
    decreases es.len(),
{
    if es.len() == 0 {
        s
    } else {
        apply_entries(spec_set(s, es[0]), es.drop_first())
    }
}

/// Read one length encoding at `pos`.
pub fn read_lenth_encoding(input: &[u8], pos: usize) -> (r: Result<((usize, bool), usize), Error>)
    ensures
        match r {
            Ok(np) => spec_read_len(input@, pos as int) == Ok::<((nat, bool), int), Fault>(
                (((np.0).0 as nat, (np.0).1), np.1 as int),
            ),
            Err(e) => spec_read_len(input@, pos as int) matches Err(f) && fault_matches(e, f),
        },
{
    if pos >= input.len() {
        return Err(Error::IO);
    }
    let b = input[pos];
    let tag = b / 64;
    let low = b % 64;
    if tag == 0 {
        Ok(((low as usize, true), pos + 1))
    } else if tag == 1 {
        if input.len() - pos < 2 {
            Err(Error::IO)
        } else {
            let v = (low as usize) * 256 + (input[pos + 1] as usize);
            Ok(((v, true), pos + 2))
        }
    } else if tag == 2 {
        if input.len() - pos < 5 {
            Err(Error::IO)
        } else {
            let v64 = (input[pos + 1] as u64) * 0x1000000 + (input[pos + 2] as u64) * 0x10000 + (
            input[pos + 3] as u64) * 0x100 + (input[pos + 4] as u64);
            assert(v64 <= 0xFFFFFFFFu64);
            let v = v64 as usize;
            Ok(((v, true), pos + 5))
        }
    } else {
        if low == 0 {
            Ok(((1, false), pos + 1))
        } else if low == 1 {
            Ok(((2, false), pos + 1))
        } else if low == 2 {
            Ok(((4, false), pos + 1))
        } else {
            Err(Error::InvalidResp)
        }
    }
}

/// Read the little-endian 32-bit value at `pos`.
fn read_le32(input: &[u8], pos: usize) -> (r: u64)
    requires
        pos + 4 <= input@.len(),
    ensures
        r == le32(input@, pos as int),
        r <= 0xFFFFFFFFu64,
{
    (input[pos] as u64) + (input[pos + 1] as u64) * 0x100 + (input[pos + 2] as u64) * 0x10000 + (
    input[pos + 3] as u64) * 0x1000000
}

/// Read the little-endian 64-bit value at `pos`.
fn read_le64(input: &[u8], pos: usize) -> (r: u64)
    requires
        pos + 8 <= input@.len(),
    ensures
        r == le64(input@, pos as int),
{
    let n = input.len();
    assert(pos + 8 <= n);
    let lo = read_le32(input, pos);
    let hi = read_le32(input, pos + 4);
    lo + hi * 0x100000000
}

/// Read one encoded string at `pos`.
pub fn read_string(input: &[u8], pos: usize) -> (r: Result<(String, usize), Error>)
    ensures
        match r {
            Ok(sp) => spec_read_string(input@, pos as int) == Ok::<(Seq<char>, int), Fault>(
                (sp.0@, sp.1 as int),
            ),
            Err(e) => spec_read_string(input@, pos as int) matches Err(f) && fault_matches(e, f),
        },
{
    let ((n, plain), p1) = match read_lenth_encoding(input, pos) {
        Ok(x) => x,
        Err(e) => {
            return Err(e);
        },
    };
    proof {
        lemma_read_len_bounds(input@, pos as int);
    }
    if input.len() - p1 < n {
        return Err(Error::IO);
    }
    let ghost bytes = input@.subrange(p1 as int, p1 + n);
    if plain {
        let content = &input[p1..p1 + n];
        match bytes_to_string(content) {
            Some(s) => Ok((s, p1 + n)),
            None => Err(Error::InvalidRdb("invalid UTF-8 in a string".to_owned())),
        }
    } else if n == 1 {
        let v = input[p1];
        assert(bytes[0] == v);
        Ok((u64_to_string(v as u64), p1 + 1))
    } else if n == 4 {
        let v = read_le32(input, p1);
        Ok((u64_to_string(v), p1 + 4))
    } else {
        Err(Error::Unsupported("unsupported integer string width".to_owned()))
    }
}

/// Read the metadata section starting at `pos`; the result says whether
/// a database section follows, and where.  The metadata pairs themselves
/// are decoded and discarded.
fn load_metadata(input: &[u8], pos: usize) -> (r: Result<(bool, usize), Error>)
    ensures
        match r {
            Ok(bp) => spec_load_metadata(input@, pos as int) == Ok::<(bool, int), Fault>(
                (bp.0, bp.1 as int),
            ),
            Err(e) => spec_load_metadata(input@, pos as int) matches Err(f) && fault_matches(e, f),
        },
{
    let mut cur = pos;
    loop
        invariant
            spec_load_metadata(input@, pos as int) == spec_load_metadata(input@, cur as int),
        decreases input@.len() - cur,
    {
        if cur >= input.len() {
            return Err(Error::IO);
        }
        let b = input[cur];
        if b == 0xFE {
            return Ok((true, cur + 1));
        }
        if b == 0xFF {
            return Ok((false, cur + 1));
        }
        if b != 0xFA {
            return Err(Error::InvalidRdb("unexpected metadata marker".to_owned()));
        }
        let (_k, p1) = match read_string(input, cur + 1) {
            Ok(x) => x,
            Err(e) => {
                return Err(e);
            },
        };
        proof {
            lemma_read_string_bounds(input@, cur + 1);
        }
        let (_v, p2) = match read_string(input, p1) {
            Ok(x) => x,
            Err(e) => {
                return Err(e);
            },
        };
        proof {
            lemma_read_string_bounds(input@, p1 as int);
        }
        cur = p2;
    }
}

/// Read one record without expiration at `pos` and insert it.
fn load_key_value_without_expire(input: &[u8], pos: usize, db: &mut Db) -> (r: Result<
    usize,
    Error,
>)
    requires
        old(db).wf(),
    ensures
        final(db).wf(),
        match spec_load_kv_plain(input@, pos as int) {
            Ok(ep) => r matches Ok(p) && p == ep.1 && final(db).entries() == spec_set(
                old(db).entries(),
                ep.0,
            ),
            Err(f) => r matches Err(e) && fault_matches(e, f) && final(db).entries() == old(
                db,
            ).entries(),
        },
        final(db).config == old(db).config,
        final(db).info == old(db).info,
        final(db).connected_slaves == old(db).connected_slaves,
{
    let (key, p1) = match read_string(input, pos) {
        Ok(x) => x,
        Err(e) => {
            return Err(e);
        },
    };
    let (value, p2) = match read_string(input, p1) {
        Ok(x) => x,
        Err(e) => {
            return Err(e);
        },
    };
    db.set(key.as_str(), value.as_str(), None);
    Ok(p2)
}

/// Read one expiring record at `pos` (just past the marker byte) and
/// insert it with its expiration instant in milliseconds.
fn load_key_value_expire(input: &[u8], pos: usize, db: &mut Db, marker_expirity_type: u8) -> (r:
    Result<usize, Error>)
    requires
        old(db).wf(),
        marker_expirity_type == 0xFD || marker_expirity_type == 0xFC,
    ensures
        final(db).wf(),
        match spec_load_kv_expire(input@, pos as int, marker_expirity_type) {
            Ok(ep) => r matches Ok(p) && p == ep.1 && final(db).entries() == spec_set(
                old(db).entries(),
                ep.0,
            ),
            Err(f) => r matches Err(e) && fault_matches(e, f) && final(db).entries() == old(
                db,
            ).entries(),
        },
        final(db).config == old(db).config,
        final(db).info == old(db).info,
        final(db).connected_slaves == old(db).connected_slaves,
{
    let width: usize = if marker_expirity_type == 0xFD {
        4
    } else {
        8
    };
    if pos > input.len() || input.len() - pos < width + 1 {
        return Err(Error::IO);
    }
    let expiration_ms: u64 = if marker_expirity_type == 0xFD {
        let secs = read_le32(input, pos);
        secs * 1000
    } else {
        read_le64(input, pos)
    };
    if input[pos + width] != 0x00 {
        return Err(Error::InvalidRdb("unexpected value type after an expiration".to_owned()));
    }
    let (key, p1) = match read_string(input, pos + width + 1) {
        Ok(x) => x,
        Err(e) => {
            return Err(e);
        },
    };
    let (value, p2) = match read_string(input, p1) {
        Ok(x) => x,
        Err(e) => {
            return Err(e);
        },
    };
    db.set(key.as_str(), value.as_str(), Some(expiration_ms));
    Ok(p2)
}

/// Read records until the end marker, inserting each into the store in
/// file order.
/// Read records until the end marker, inserting each into the store in
/// file order.
fn load_all_key_values(input: &[u8], pos: usize, db: &mut Db) -> (r: Result<usize, Error>)
    requires
        old(db).wf(),
    ensures
        final(db).wf(),
        match spec_load_kvs(input@, pos as int) {
            Ok(esp) => r matches Ok(p) && p == esp.1 && final(db).entries() == apply_entries(
                old(db).entries(),
                esp.0,
            ),
            Err(f) => r matches Err(e) && fault_matches(e, f),
        },
        final(db).config == old(db).config,
        final(db).info == old(db).info,
        final(db).connected_slaves == old(db).connected_slaves,
    decreases input@.len() - pos,
{
    let ghost s0 = old(db).entries();
    if pos >= input.len() {
        return Err(Error::IO);
    }
    let t = input[pos];
    if t == 0xFF {
        proof {
            assert(apply_entries(s0, Seq::<EntryV>::empty()) == s0);
        }
        return Ok(pos + 1);
    }
    if t != 0x00 && t != 0xFD && t != 0xFC {
        return Err(Error::Unsupported("unsupported record type".to_owned()));
    }
    let rec = if t == 0x00 {
        load_key_value_without_expire(input, pos + 1, db)
    } else {
        load_key_value_expire(input, pos + 1, db, t)
    };
    let p = match rec {
        Ok(p) => p,
        Err(e) => {
            return Err(e);
        },
    };
    proof {
        lemma_kv_plain_bounds(input@, pos + 1);
        lemma_kv_expire_bounds(input@, pos + 1, t);
        let e = kv_rec(input@, pos + 1, t)->Ok_0.0;
        assert(kv_rec(input@, pos + 1, t) == Ok::<(EntryV, int), Fault>((e, p as int)));
        assert(db.entries() == spec_set(s0, e));
    }
    match load_all_key_values(input, p, db) {
        Ok(pf) => {
            proof {
                let e = kv_rec(input@, pos + 1, t)->Ok_0.0;
                if let Ok((es, pend)) = spec_load_kvs(input@, p as int) {
                    let whole = seq![e] + es;
                    assert(whole[0] == e);
                    assert(whole.drop_first() =~= es);
                    assert(apply_entries(s0, whole) == apply_entries(spec_set(s0, e), es));
                }
            }
            Ok(pf)
        },
        Err(e) => Err(e),
    }
}

/// Read the database section at `pos`: index byte, resize marker, two
/// ignored sizes, then the records.
fn load_database_data(input: &[u8], pos: usize, db: &mut Db) -> (r: Result<usize, Error>)
    requires
        old(db).wf(),
    ensures
        final(db).wf(),
        match spec_load_database(input@, pos as int) {
            Ok(esp) => r matches Ok(p) && p == esp.1 && final(db).entries() == apply_entries(
                old(db).entries(),
                esp.0,
            ),
            Err(f) => r matches Err(e) && fault_matches(e, f),
        },
        final(db).config == old(db).config,
        final(db).info == old(db).info,
        final(db).connected_slaves == old(db).connected_slaves,
{
    if pos > input.len() || input.len() - pos < 2 {
        return Err(Error::IO);
    }
    if input[pos + 1] != 0xFB {
        return Err(Error::InvalidRdb("expected the resize marker".to_owned()));
    }
    let (_s1, p1) = match read_lenth_encoding(input, pos + 2) {
        Ok(x) => x,
        Err(e) => {
            return Err(e);
        },
    };
    let (_s2, p2) = match read_lenth_encoding(input, p1) {
        Ok(x) => x,
        Err(e) => {
            return Err(e);
        },
    };
    load_all_key_values(input, p2, db)
}

/// Check the nine header bytes at `pos`.
fn header_matches(input: &[u8], pos: usize) -> (r: bool)
    requires
        pos + 9 <= input@.len(),
    ensures
        r == (input@.subrange(pos as int, pos + 9) == header_bytes()),
{
    let hb: Vec<u8> = vec![82u8, 69u8, 68u8, 73u8, 83u8, 48u8, 48u8, 49u8, 49u8];
    assert(hb@ =~= header_bytes());
    let n = input.len();
    assert(pos + 9 <= n);
    let mut i: usize = 0;
    loop
        invariant
            0 <= i <= 9,
            pos + 9 <= n,
            n == input@.len(),
            hb@ == header_bytes(),
            forall|j: int| 0 <= j < i ==> input@[pos + j] == header_bytes()[j],
        decreases 9 - i,
    {
        if i == 9 {
            assert(input@.subrange(pos as int, pos + 9) =~= header_bytes());
            return true;
        }
        if input[pos + i] != hb[i] {
            assert(input@.subrange(pos as int, pos + 9)[i as int] != header_bytes()[i as int]);
            return false;
        }
        i = i + 1;
    }
}

/// Decode a whole snapshot at `pos` and insert its records into the
/// store in file order; the returned position sits just past the
/// trailing checksum.  On an error the caller discards the store.
pub fn load_from_reader(input: &[u8], pos: usize, db: &mut Db) -> (r: Result<usize, Error>)
    requires
        old(db).wf(),
    ensures
        final(db).wf(),
        match spec_load(input@, pos as int) {
            Ok(esp) => r matches Ok(p) && p == esp.1 && final(db).entries() == apply_entries(
                old(db).entries(),
                esp.0,
            ),
            Err(f) => r matches Err(e) && fault_matches(e, f),
        },
        final(db).config == old(db).config,
        final(db).info == old(db).info,
        final(db).connected_slaves == old(db).connected_slaves,
{
    if pos > input.len() || input.len() - pos < 9 {
        return Err(Error::IO);
    }
    if !header_matches(input, pos) {
        return Err(Error::InvalidRdb("unsupported snapshot header".to_owned()));
    }
    let (has_data, p) = match load_metadata(input, pos + 9) {
        Ok(x) => x,
        Err(e) => {
            return Err(e);
        },
    };
    let p2 = if has_data {
        match load_database_data(input, p, db) {
            Ok(x) => x,
            Err(e) => {
                return Err(e);
            },
        }
    } else {
        proof {
            assert(apply_entries(old(db).entries(), Seq::<EntryV>::empty()) == old(db).entries());
        }
        p
    };
    if p2 > input.len() || input.len() - p2 < 8 {
        return Err(Error::IO);
    }
    Ok(p2 + 8)
}

} // verus!
