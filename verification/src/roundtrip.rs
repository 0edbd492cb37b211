//! The codec round-trip law: a well-formed reply frame parses back from
//! its own encoding.

use vstd::prelude::*;
use vstd::utf8::{
    encode_utf8,
    decode_utf8,
    valid_utf8,
    encode_utf8_valid_utf8,
    encode_utf8_decode_utf8,
};
use crate::error::Fault;
use crate::protocol::DataV;
use crate::write::{encode, encode_seq};
use crate::parser::{spec_parse, spec_parse_elems};
use crate::text::{
    is_line_end,
    find_line_end,
    lemma_line_end_found,
    dec_value,
    dec_digits,
    lemma_dec_digits_value,
    lemma_dec_digits_are_digits,
};
use crate::{CR, LF, PLUS, DOLLAR, STAR};

verus! {

/// The bytes carry no CR and no LF, so they fit on one protocol line.
pub open spec fn clean_bytes(s: Seq<u8>) -> bool {
    forall|i: int| 0 <= i < s.len() ==> s[i] != CR && s[i] != LF
}

/// A frame that the writer emits and the parser reads back unchanged:
/// its strings fit on one line (no CR or LF in their bytes), its sizes
/// fit the machine, and the two frames that never travel as replies —
/// the closed-connection sentinel and the full-resync block — do not
/// appear, at any depth.
pub open spec fn wf_frame(d: DataV) -> bool
    decreases d, 0int,
{
    match d {
        DataV::ConnectionClosed => false,
        DataV::SimpleString(s) => clean_bytes(encode_utf8(s)) && encode_utf8(s).len()
            <= usize::MAX,
        DataV::BulkString(s) => clean_bytes(encode_utf8(s)) && encode_utf8(s).len() <= usize::MAX,
        DataV::NullBuilkString => true,
        DataV::Array(items) => items.len() <= usize::MAX && wf_elems(items, 0),
        DataV::FullResyncBinaryConent(inner, bytes) => false,
    }
}

/// All frames of `items[i..]` are well formed.
pub open spec fn wf_elems(items: Seq<DataV>, i: int) -> bool
    decreases items, items.len() - i,
{
    i >= items.len() || (0 <= i && wf_frame(items[i]) && wf_elems(items, i + 1))
}

/// The encoding of a well-formed frame is never empty.
proof fn lemma_encode_nonempty(d: DataV)
    requires
        wf_frame(d),
    ensures
        encode(d).len() >= 3,
{
}

/// The bytes `content + CRLF` starting at `start` form one line whose
/// end the line scanner finds.
proof fn lemma_line_at(input: Seq<u8>, start: int, content: Seq<u8>)
    requires
        0 <= start,
        start + content.len() + 2 <= input.len(),
        forall|k: int| 0 <= k < content.len() ==> input[start + k] == content[k],
        forall|k: int| 0 <= k < content.len() ==> content[k] != CR,
        input[start + content.len()] == CR,
        input[start + content.len() + 1] == LF,
    ensures
        is_line_end(input, start, start + content.len()),
        find_line_end(input, start) == Some(start + content.len()),
        input.subrange(start, start + content.len()) == content,
{
    let e = start + content.len();
    assert forall|j: int| start <= j < e implies !crate::text::crlf_at(input, j) by {
        assert(input[j] == content[j - start]);
    }
    assert(is_line_end(input, start, e));
    lemma_line_end_found(input, start, e);
    assert(input.subrange(start, e) =~= content);
}

/// Pointwise reading of a known segment of the buffer.
pub(crate) proof fn lemma_bytes_at(input: Seq<u8>, pos: int, e: Seq<u8>)
    requires
        0 <= pos,
        pos + e.len() <= input.len(),
        input.subrange(pos, pos + e.len()) == e,
    ensures
        forall|k: int| 0 <= k < e.len() ==> input[pos + k] == #[trigger] e[k],
{
    assert forall|k: int| 0 <= k < e.len() implies input[pos + k] == #[trigger] e[k] by {
        assert(input.subrange(pos, pos + e.len())[k] == e[k]);
    }
}

/// Parsing from `pos` of a buffer that carries `encode(d)` there yields
/// exactly `d` and stops exactly past it.
pub proof fn lemma_parse_encode(d: DataV, input: Seq<u8>, pos: int)
    requires
        wf_frame(d),
        0 <= pos,
        pos + encode(d).len() <= input.len(),
        input.subrange(pos, pos + encode(d).len()) == encode(d),
    ensures
        spec_parse(input, pos) == Ok::<(DataV, int), Fault>((d, pos + encode(d).len())),
    decreases d, 0int,
{
    let e = encode(d);
    lemma_bytes_at(input, pos, e);
    match d {
        DataV::SimpleString(s) => {
            let content = encode_utf8(s);
            let n = content.len() as int;
            assert(e =~= seq![PLUS] + content + seq![CR, LF]);
            assert(e[0] == PLUS);
            assert(input[pos + 0] == e[0]);
            assert forall|k: int| 0 <= k < n implies input[pos + 1 + k] == #[trigger] content[k] by {
                assert(e[1 + k] == content[k]);
                assert(input[pos + (1 + k)] == e[1 + k]);
            }
            assert(e[1 + n] == CR && e[1 + n + 1] == LF);
            assert(input[pos + (1 + n)] == e[1 + n]);
            assert(input[pos + (1 + n + 1)] == e[1 + n + 1]);
            lemma_line_at(input, pos + 1, content);
            encode_utf8_valid_utf8(s);
            encode_utf8_decode_utf8(s);
        },
        DataV::BulkString(s) => {
            let content = encode_utf8(s);
            let n = content.len() as int;
            let digits = dec_digits(n as nat);
            lemma_dec_digits_are_digits(n as nat);
            lemma_dec_digits_value(n as nat);
            let m = digits.len() as int;
            assert(e =~= seq![DOLLAR] + digits + seq![CR, LF] + content + seq![CR, LF]);
            assert(e[0] == DOLLAR);
            assert(input[pos + 0] == e[0]);
            assert forall|k: int| 0 <= k < m implies input[pos + 1 + k] == #[trigger] digits[k] by {
                assert(e[1 + k] == digits[k]);
                assert(input[pos + (1 + k)] == e[1 + k]);
            }
            assert(e[1 + m] == CR && e[1 + m + 1] == LF);
            assert(input[pos + (1 + m)] == e[1 + m]);
            assert(input[pos + (1 + m + 1)] == e[1 + m + 1]);
            lemma_line_at(input, pos + 1, digits);
            let e1 = pos + 1 + m;
            let lenline = input.subrange(pos + 1, e1);
            assert(lenline == digits);
            assert(!(lenline.len() == 2 && lenline[0] == 45 && lenline[1] == 49));
            assert(dec_value(lenline) == Some(n as nat));
            assert forall|k: int| 0 <= k < n implies input[e1 + 2 + k] == #[trigger] content[k] by {
                assert(e[1 + m + 2 + k] == content[k]);
                assert(input[pos + (1 + m + 2 + k)] == e[1 + m + 2 + k]);
            }
            assert(e[1 + m + 2 + n] == CR && e[1 + m + 2 + n + 1] == LF);
            assert(input[pos + (1 + m + 2 + n)] == e[1 + m + 2 + n]);
            assert(input[pos + (1 + m + 2 + n + 1)] == e[1 + m + 2 + n + 1]);
            lemma_line_at(input, e1 + 2, content);
            let e2 = e1 + 2 + n;
            let data = input.subrange(e1 + 2, e2);
            assert(data == content);
            assert(data.subrange(0, n) =~= content);
            encode_utf8_valid_utf8(s);
            encode_utf8_decode_utf8(s);
            assert(pos + e.len() == e2 + 2);
        },
        DataV::NullBuilkString => {
            assert(e =~= seq![DOLLAR, 45u8, 49u8, CR, LF]);
            assert(input[pos + 0] == e[0]);
            assert(input[pos + 1] == e[1]);
            assert(input[pos + 2] == e[2]);
            assert(input[pos + 3] == e[3]);
            assert(input[pos + 4] == e[4]);
            lemma_line_at(input, pos + 1, seq![45u8, 49u8]);
            let lenline = input.subrange(pos + 1, pos + 3);
            assert(lenline.len() == 2 && lenline[0] == 45 && lenline[1] == 49);
        },
        DataV::Array(items) => {
            let n = items.len() as int;
            let digits = dec_digits(n as nat);
            lemma_dec_digits_are_digits(n as nat);
            lemma_dec_digits_value(n as nat);
            let m = digits.len() as int;
            let body = encode_seq(items, 0);
            assert(e =~= seq![STAR] + digits + seq![CR, LF] + body);
            assert(e[0] == STAR);
            assert(input[pos + 0] == e[0]);
            assert forall|k: int| 0 <= k < m implies input[pos + 1 + k] == #[trigger] digits[k] by {
                assert(e[1 + k] == digits[k]);
                assert(input[pos + (1 + k)] == e[1 + k]);
            }
            assert(e[1 + m] == CR && e[1 + m + 1] == LF);
            assert(input[pos + (1 + m)] == e[1 + m]);
            assert(input[pos + (1 + m + 1)] == e[1 + m + 1]);
            lemma_line_at(input, pos + 1, digits);
            let e1 = pos + 1 + m;
            assert(input.subrange(pos + 1, e1) == digits);
            assert(dec_value(input.subrange(pos + 1, e1)) == Some(n as nat));
            assert forall|k: int| 0 <= k < body.len() implies input[e1 + 2 + k]
                == #[trigger] body[k] by {
                assert(e[1 + m + 2 + k] == body[k]);
                assert(input[pos + (1 + m + 2 + k)] == e[1 + m + 2 + k]);
            }
            assert(input.subrange(e1 + 2, e1 + 2 + body.len()) =~= body);
            lemma_parse_encode_elems(items, 0, input, e1 + 2);
            assert(items.subrange(0, n) =~= items);
            assert(pos + e.len() == e1 + 2 + body.len());
        },
        _ => {
        },
    }
}

/// Parsing `items.len() - i` frames from a buffer that carries the
/// encodings of `items[i..]` yields exactly those frames.
proof fn lemma_parse_encode_elems(items: Seq<DataV>, i: int, input: Seq<u8>, pos: int)
    requires
        0 <= i <= items.len(),
        items.len() <= usize::MAX,
        wf_elems(items, i),
        0 <= pos,
        pos + encode_seq(items, i).len() <= input.len(),
        input.subrange(pos, pos + encode_seq(items, i).len()) == encode_seq(items, i),
    ensures
        spec_parse_elems(input, pos, (items.len() - i) as nat) == Ok::<(Seq<DataV>, int), Fault>(
            (items.subrange(i, items.len() as int), pos + encode_seq(items, i).len()),
        ),
    decreases items, items.len() - i,
{
    if i == items.len() {
        assert(items.subrange(i, items.len() as int) =~= Seq::<DataV>::empty());
        assert(encode_seq(items, i).len() == 0);
    } else {
        let head = encode(items[i]);
        let tail = encode_seq(items, i + 1);
        let whole = encode_seq(items, i);
        assert(whole =~= head + tail);
        lemma_bytes_at(input, pos, whole);
        assert forall|k: int| 0 <= k < head.len() implies input[pos + k] == #[trigger] head[k] by {
            assert(whole[k] == head[k]);
        }
        assert forall|k: int| 0 <= k < tail.len() implies input[pos + head.len() + k]
            == #[trigger] tail[k] by {
            assert(whole[head.len() + k] == tail[k]);
            assert(input[pos + (head.len() + k)] == whole[head.len() + k]);
        }
        assert(input.subrange(pos, pos + head.len()) =~= head);
        lemma_parse_encode(items[i], input, pos);
        lemma_encode_nonempty(items[i]);
        let p2 = pos + head.len();
        assert(input.subrange(p2, p2 + tail.len()) =~= tail);
        lemma_parse_encode_elems(items, i + 1, input, p2);
        assert(seq![items[i]] + items.subrange(i + 1, items.len() as int) =~= items.subrange(
            i,
            items.len() as int,
        ));
    }
}

/// The round-trip law: parsing the encoding of any well-formed reply
/// frame gives back exactly that frame, consuming the whole encoding.
pub proof fn lemma_parse_round_trip(d: DataV)
    requires
        wf_frame(d),
    ensures
        spec_parse(encode(d), 0) == Ok::<(DataV, int), Fault>((d, encode(d).len() as int)),
{
    let e = encode(d);
    assert(e.subrange(0, e.len() as int) =~= e);
    lemma_parse_encode(d, e, 0);
}

} // verus!
