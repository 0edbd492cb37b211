//! The snapshot round-trip law: the loader reads back exactly the
//! records a reference encoding carries.
//!
//! `rdb_encode` is the reference shape of a snapshot: the header, an
//! empty metadata section, one database section whose strings use the
//! plain length forms, millisecond expirations, and an unchecked
//! eight-byte checksum.  `lemma_snapshot_round_trip` proves that
//! `spec_load` — the grammar the executable loader is verified against —
//! decodes such a file to exactly the encoded records.

use vstd::prelude::*;
use vstd::utf8::{encode_utf8, encode_utf8_valid_utf8, encode_utf8_decode_utf8};
use vstd::arithmetic::div_mod::{lemma_fundamental_div_mod, lemma_div_denominator, lemma_small_mod};
use crate::error::Fault;
use crate::storage::EntryV;
use crate::rdb::{
    spec_load,
    spec_load_metadata,
    spec_load_database,
    spec_load_kvs,
    spec_load_kv_plain,
    spec_load_kv_expire,
    kv_rec,
    spec_read_len,
    spec_read_string,
    header_bytes,
    be32,
    le32,
    le64,
};
use crate::roundtrip::lemma_bytes_at;

verus! {

/// The minimal length encoding of `n`: six bits, fourteen bits, or a
/// full 32-bit big-endian length.
pub open spec fn enc_len(n: nat) -> Seq<u8> {
    if n < 64 {
        seq![n as u8]
    } else if n < 16384 {
        seq![(64 + n / 0x100) as u8, (n % 0x100) as u8]
    } else {
        seq![
            128u8,
            (n / 0x1000000 % 0x100) as u8,
            (n / 0x10000 % 0x100) as u8,
            (n / 0x100 % 0x100) as u8,
            (n % 0x100) as u8,
        ]
    }
}

/// A string in the plain form: its length, then its UTF-8 bytes.
pub open spec fn enc_string(s: Seq<char>) -> Seq<u8> {
    enc_len(encode_utf8(s).len()) + encode_utf8(s)
}

/// The four little-endian bytes of a 32-bit value.
pub open spec fn le32_bytes(y: nat) -> Seq<u8> {
    seq![
        (y % 0x100) as u8,
        (y / 0x100 % 0x100) as u8,
        (y / 0x10000 % 0x100) as u8,
        (y / 0x1000000 % 0x100) as u8,
    ]
}

/// The eight little-endian bytes of `x`: its low half, then its high
/// half.
pub open spec fn le64_bytes(x: u64) -> Seq<u8> {
    le32_bytes((x as nat) % 0x100000000) + le32_bytes((x as nat) / 0x100000000)
}

/// One record: plain when it does not expire, behind the millisecond
/// marker when it does.
pub open spec fn enc_entry(e: EntryV) -> Seq<u8> {
    match e.expiration {
        None => seq![0u8] + enc_string(e.key) + enc_string(e.value),
        Some(x) => seq![0xFCu8] + le64_bytes(x) + seq![0u8] + enc_string(e.key) + enc_string(
            e.value,
        ),
    }
}

/// The records `es[i..]`, in order.
pub open spec fn enc_entries(es: Seq<EntryV>, i: int) -> Seq<u8>
    decreases es.len() - i,
{
    if i < 0 || i >= es.len() {
        Seq::empty()
    } else {
        enc_entry(es[i]) + enc_entries(es, i + 1)
    }
}

/// A whole reference snapshot: header, a bare database marker, index 0,
/// the resize marker with two zero sizes, the records, the end marker,
/// and an (unchecked) zero checksum.
pub open spec fn rdb_encode(es: Seq<EntryV>) -> Seq<u8> {
    header_bytes() + seq![0xFEu8, 0u8, 0xFBu8] + enc_len(es.len()) + enc_len(0) + enc_entries(
        es,
        0,
    ) + seq![0xFFu8, 0u8, 0u8, 0u8, 0u8, 0u8, 0u8, 0u8, 0u8]
}

/// A record the encoder can carry: string byte lengths below the 32-bit
/// length form's bound.
pub open spec fn wf_entry(e: EntryV) -> bool {
    encode_utf8(e.key).len() < 0x100000000 && encode_utf8(e.value).len() < 0x100000000
}

/// Records the encoder can carry.
pub open spec fn wf_entries(es: Seq<EntryV>) -> bool {
    es.len() < 0x100000000 && forall|i: int| 0 <= i < es.len() ==> wf_entry(#[trigger] es[i])
}

/// A known segment of a known segment.
proof fn lemma_sub_extract(input: Seq<u8>, pos: int, whole: Seq<u8>, off: int, len: int)
    requires
        0 <= pos,
        pos + whole.len() <= input.len(),
        input.subrange(pos, pos + whole.len()) == whole,
        0 <= off,
        0 <= len,
        off + len <= whole.len(),
    ensures
        input.subrange(pos + off, pos + off + len) == whole.subrange(off, off + len),
{
    lemma_bytes_at(input, pos, whole);
    assert(input.subrange(pos + off, pos + off + len) =~= whole.subrange(off, off + len)) by {
        assert forall|k: int|
            0 <= k < len implies #[trigger] input.subrange(pos + off, pos + off + len)[k]
            == whole.subrange(off, off + len)[k] by {
            assert(input[pos + (off + k)] == whole[off + k]);
        }
    }
}

/// The base-256 digits of a 32-bit value recompose to the value.
proof fn lemma_le32_compose(y: nat)
    requires
        y < 0x100000000,
    ensures
        y % 0x100 + (y / 0x100 % 0x100) * 0x100 + (y / 0x10000 % 0x100) * 0x10000 + (y / 0x1000000
            % 0x100) * 0x1000000 == y,
{
    let yi = y as int;
    lemma_fundamental_div_mod(yi, 0x100);
    let q1 = yi / 0x100;
    lemma_fundamental_div_mod(q1, 0x100);
    let q2 = q1 / 0x100;
    lemma_fundamental_div_mod(q2, 0x100);
    let q3 = q2 / 0x100;
    lemma_div_denominator(yi, 0x100, 0x100);
    assert(q2 == yi / 0x10000);
    lemma_div_denominator(yi, 0x10000, 0x100);
    assert(q3 == yi / 0x1000000);
    lemma_fundamental_div_mod(yi, 0x1000000);
    assert(q3 < 0x100);
    lemma_small_mod(q3 as nat, 0x100);
}

/// Four little-endian digit bytes read back as their value.
proof fn lemma_le32_roundtrip(input: Seq<u8>, pos: int, y: nat)
    requires
        y < 0x100000000,
        0 <= pos,
        pos + 4 <= input.len(),
        input.subrange(pos, pos + 4) == le32_bytes(y),
    ensures
        le32(input, pos) == y,
{
    let e = le32_bytes(y);
    lemma_bytes_at(input, pos, e);
    assert(input[pos + 0] == e[0]);
    assert(input[pos + 1] == e[1]);
    assert(input[pos + 2] == e[2]);
    assert(input[pos + 3] == e[3]);
    lemma_le32_compose(y);
}

/// Eight little-endian digit bytes read back as their value.
proof fn lemma_le64_roundtrip(input: Seq<u8>, pos: int, x: u64)
    requires
        0 <= pos,
        pos + 8 <= input.len(),
        input.subrange(pos, pos + 8) == le64_bytes(x),
    ensures
        le64(input, pos) == x,
{
    let lo = (x as nat) % 0x100000000;
    let hi = (x as nat) / 0x100000000;
    let e = le64_bytes(x);
    assert(e.subrange(0, 4) =~= le32_bytes(lo));
    assert(e.subrange(4, 8) =~= le32_bytes(hi));
    lemma_sub_extract(input, pos, e, 0, 4);
    lemma_sub_extract(input, pos, e, 4, 4);
    lemma_fundamental_div_mod(x as int, 0x100000000);
    assert(hi < 0x100000000);
    lemma_le32_roundtrip(input, pos, lo);
    lemma_le32_roundtrip(input, pos + 4, hi);
}

/// A buffer carrying `enc_len(n)` at `pos` reads back as the plain
/// length `n`.
proof fn lemma_read_len_enc(input: Seq<u8>, pos: int, n: nat)
    requires
        n < 0x100000000,
        0 <= pos,
        pos + enc_len(n).len() <= input.len(),
        input.subrange(pos, pos + enc_len(n).len()) == enc_len(n),
    ensures
        spec_read_len(input, pos) == Ok::<((nat, bool), int), Fault>(
            ((n, true), pos + enc_len(n).len()),
        ),
{
    let e = enc_len(n);
    lemma_bytes_at(input, pos, e);
    if n < 64 {
        assert(input[pos + 0] == e[0]);
        assert(e[0] == n as u8);
        assert(e[0] / 64 == 0 && e[0] % 64 == n);
    } else if n < 16384 {
        assert(input[pos + 0] == e[0]);
        assert(input[pos + 1] == e[1]);
        let hi = n / 0x100;
        let lo = n % 0x100;
        lemma_fundamental_div_mod(n as int, 0x100);
        assert(hi < 64);
        assert(e[0] == (64 + hi) as u8 && e[1] == lo as u8);
        assert(e[0] / 64 == 1 && e[0] % 64 == hi);
        assert((e[0] % 64) * 0x100 + e[1] == n);
    } else {
        assert(input[pos + 0] == e[0]);
        assert(input[pos + 1] == e[1]);
        assert(input[pos + 2] == e[2]);
        assert(input[pos + 3] == e[3]);
        assert(input[pos + 4] == e[4]);
        assert(e[0] == 128u8);
        assert(e[0] / 64 == 2);
        lemma_le32_compose(n);
        assert(be32(input, pos + 1) == n);
    }
}

/// A buffer carrying `enc_string(s)` at `pos` reads back as `s`.
proof fn lemma_read_string_enc(input: Seq<u8>, pos: int, s: Seq<char>)
    requires
        encode_utf8(s).len() < 0x100000000,
        0 <= pos,
        pos + enc_string(s).len() <= input.len(),
        input.subrange(pos, pos + enc_string(s).len()) == enc_string(s),
    ensures
        spec_read_string(input, pos) == Ok::<(Seq<char>, int), Fault>(
            (s, pos + enc_string(s).len()),
        ),
{
    let content = encode_utf8(s);
    let n = content.len() as int;
    let lenb = enc_len(n as nat);
    let m = lenb.len() as int;
    let e = enc_string(s);
    assert(e.subrange(0, m) =~= lenb);
    assert(e.subrange(m, m + n) =~= content);
    lemma_sub_extract(input, pos, e, 0, m);
    lemma_sub_extract(input, pos, e, m, n);
    lemma_read_len_enc(input, pos, n as nat);
    encode_utf8_valid_utf8(s);
    encode_utf8_decode_utf8(s);
}

/// A buffer carrying `enc_entry(e)` reads back as that record.
#[verifier::rlimit(100)]
#[verifier::spinoff_prover]
proof fn lemma_kv_enc(input: Seq<u8>, pos: int, e: EntryV)
    requires
        wf_entry(e),
        0 <= pos,
        pos + enc_entry(e).len() <= input.len(),
        input.subrange(pos, pos + enc_entry(e).len()) == enc_entry(e),
    ensures
        0 <= pos < input.len(),
        input[pos] == (match e.expiration {
            None => 0u8,
            Some(x) => 0xFCu8,
        }),
        kv_rec(input, pos + 1, input[pos]) == Ok::<(EntryV, int), Fault>(
            (e, pos + enc_entry(e).len()),
        ),
{
    let eb = enc_entry(e);
    lemma_bytes_at(input, pos, eb);
    let ks = enc_string(e.key);
    let vs = enc_string(e.value);
    match e.expiration {
        None => {
            assert(eb =~= seq![0u8] + ks + vs);
            assert(input[pos + 0] == eb[0]);
            let p1 = pos + 1;
            assert(eb.subrange(1, 1 + ks.len() as int) =~= ks);
            lemma_sub_extract(input, pos, eb, 1, ks.len() as int);
            lemma_read_string_enc(input, p1, e.key);
            let p2 = p1 + ks.len();
            assert(eb.subrange(1 + ks.len() as int, 1 + ks.len() + vs.len() as int) =~= vs);
            lemma_sub_extract(input, pos, eb, 1 + ks.len() as int, vs.len() as int);
            lemma_read_string_enc(input, p2, e.value);
            assert(EntryV { key: e.key, value: e.value, expiration: None } == e);
        },
        Some(x) => {
            assert(eb =~= seq![0xFCu8] + le64_bytes(x) + seq![0u8] + ks + vs);
            assert(input[pos + 0] == eb[0]);
            let p1 = pos + 1;
            assert(eb.subrange(1, 9) =~= le64_bytes(x));
            lemma_sub_extract(input, pos, eb, 1, 8);
            lemma_le64_roundtrip(input, p1, x);
            assert(eb[9] == 0u8);
            assert(input[pos + 9] == eb[9]);
            let p2 = pos + 10;
            assert(eb.subrange(10, 10 + ks.len() as int) =~= ks);
            lemma_sub_extract(input, pos, eb, 10, ks.len() as int);
            lemma_read_string_enc(input, p2, e.key);
            let p3 = p2 + ks.len();
            assert(eb.subrange(10 + ks.len() as int, 10 + ks.len() + vs.len() as int) =~= vs);
            lemma_sub_extract(input, pos, eb, 10 + ks.len() as int, vs.len() as int);
            lemma_read_string_enc(input, p3, e.value);
            assert(spec_load_kv_expire(input, p1, 0xFC) == Ok::<(EntryV, int), Fault>(
                (EntryV { key: e.key, value: e.value, expiration: Some(x) }, p3 + vs.len()),
            ));
            assert(EntryV { key: e.key, value: e.value, expiration: Some(x) } == e);
        },
    }
}

/// A buffer carrying the records `es[i..]` and then the end marker reads
/// back as exactly those records.
proof fn lemma_load_kvs_enc(es: Seq<EntryV>, i: int, input: Seq<u8>, pos: int)
    requires
        0 <= i <= es.len(),
        forall|j: int| 0 <= j < es.len() ==> wf_entry(#[trigger] es[j]),
        0 <= pos,
        pos + enc_entries(es, i).len() + 1 <= input.len(),
        input.subrange(pos, pos + enc_entries(es, i).len()) == enc_entries(es, i),
        input[pos + enc_entries(es, i).len()] == 0xFFu8,
    ensures
        spec_load_kvs(input, pos) == Ok::<(Seq<EntryV>, int), Fault>(
            (es.subrange(i, es.len() as int), pos + enc_entries(es, i).len() + 1),
        ),
    decreases es.len() - i,
{
    if i == es.len() {
        assert(enc_entries(es, i).len() == 0);
        assert(es.subrange(i, es.len() as int) =~= Seq::<EntryV>::empty());
    } else {
        let head = enc_entry(es[i]);
        let tail = enc_entries(es, i + 1);
        let whole = enc_entries(es, i);
        assert(whole =~= head + tail);
        assert(whole.subrange(0, head.len() as int) =~= head);
        assert(whole.subrange(head.len() as int, whole.len() as int) =~= tail);
        lemma_sub_extract(input, pos, whole, 0, head.len() as int);
        lemma_sub_extract(input, pos, whole, head.len() as int, tail.len() as int);
        lemma_kv_enc(input, pos, es[i]);
        let p2 = pos + head.len();
        assert(input[p2 + tail.len()] == 0xFFu8);
        lemma_load_kvs_enc(es, i + 1, input, p2);
        assert(input[pos] != 0xFF);
        assert(seq![es[i]] + es.subrange(i + 1, es.len() as int) =~= es.subrange(
            i,
            es.len() as int,
        ));
    }
}

/// The layout of a reference snapshot: where each segment sits.
#[verifier::rlimit(100)]
#[verifier::spinoff_prover]
proof fn lemma_rdb_layout(es: Seq<EntryV>)
    ensures
        ({
            let input = rdb_encode(es);
            let m = enc_len(es.len()).len() as int;
            let body = enc_entries(es, 0);
            &&& input.len() == 13 + m + body.len() + 9
            &&& input.subrange(0, 9) == header_bytes()
            &&& input[9] == 0xFEu8
            &&& input[10] == 0u8
            &&& input[11] == 0xFBu8
            &&& input.subrange(12, 12 + m) == enc_len(es.len())
            &&& input[12 + m] == 0u8
            &&& input.subrange(13 + m, 13 + m + body.len()) == body
            &&& input[13 + m + body.len()] == 0xFFu8
        }),
{
    let input = rdb_encode(es);
    let lens = enc_len(es.len());
    let m = lens.len() as int;
    let body = enc_entries(es, 0);
    let pre = header_bytes() + seq![0xFEu8, 0u8, 0xFBu8] + lens + enc_len(0);
    let tail = seq![0xFFu8, 0u8, 0u8, 0u8, 0u8, 0u8, 0u8, 0u8, 0u8];
    assert(input =~= pre + body + tail);
    assert(pre.len() == 13 + m);
    assert(input.subrange(0, input.len() as int) =~= input);
    lemma_bytes_at(input, 0, pre + body + tail);
    assert forall|k: int| 0 <= k < pre.len() implies input[k] == #[trigger] pre[k] by {
        assert(input[0 + k] == (pre + body + tail)[k]);
    }
    assert forall|k: int| 0 <= k < body.len() implies input[pre.len() + k] == #[trigger] body[k] by {
        assert(input[0 + (pre.len() + k)] == (pre + body + tail)[pre.len() + k]);
    }
    let endpos = pre.len() + body.len() as int;
    assert(input[0 + endpos] == (pre + body + tail)[endpos]);
    assert(input.subrange(0, 9) =~= header_bytes()) by {
        assert forall|k: int| 0 <= k < 9 implies input.subrange(0, 9)[k]
            == #[trigger] header_bytes()[k] by {
            assert(input[k] == pre[k]);
        }
    }
    assert(pre[12 + m] == enc_len(0)[0]);
    assert(input.subrange(12, 12 + m) =~= lens) by {
        assert forall|k: int| 0 <= k < m implies input.subrange(12, 12 + m)[k]
            == #[trigger] lens[k] by {
            assert(input[12 + k] == pre[12 + k]);
            assert(pre[12 + k] == lens[k]);
        }
    }
    assert(input.subrange(13 + m, 13 + m + body.len()) =~= body) by {
        assert forall|k: int|
            0 <= k < body.len() implies input.subrange(13 + m, 13 + m + body.len())[k]
            == #[trigger] body[k] by {
            assert(input[pre.len() + k] == body[k]);
        }
    }
}

/// The snapshot round-trip law: loading a reference encoding of any
/// records yields exactly those records, in order, consuming the whole
/// file.
#[verifier::rlimit(100)]
#[verifier::spinoff_prover]
pub proof fn lemma_snapshot_round_trip(es: Seq<EntryV>)
    requires
        wf_entries(es),
    ensures
        spec_load(rdb_encode(es), 0) == Ok::<(Seq<EntryV>, int), Fault>(
            (es, rdb_encode(es).len() as int),
        ),
{
    let input = rdb_encode(es);
    let lens = enc_len(es.len());
    let m = lens.len() as int;
    let body = enc_entries(es, 0);
    lemma_rdb_layout(es);
    assert(spec_load_metadata(input, 9) == Ok::<(bool, int), Fault>((true, 10)));
    lemma_read_len_enc(input, 12, es.len());
    let p1 = 12 + m;
    assert(input.subrange(p1, p1 + 1) =~= enc_len(0));
    lemma_read_len_enc(input, p1, 0);
    let p2 = p1 + 1;
    lemma_load_kvs_enc(es, 0, input, p2);
    assert(es.subrange(0, es.len() as int) =~= es);
    let p3 = p2 + body.len() + 1;
    assert(spec_load_database(input, 10) == Ok::<(Seq<EntryV>, int), Fault>((es, p3)));
    assert(p3 + 8 == input.len());
}

} // verus!
