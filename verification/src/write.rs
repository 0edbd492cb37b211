//! Serialization of RESP frames to wire bytes.

use vstd::prelude::*;
use vstd::utf8::encode_utf8;
use crate::error::Error;
use crate::protocol::{Data, DataV, seq_data_view, lemma_seq_data_view};
use crate::text::{dec_digits, push_dec, push_str_bytes, push_bytes};
use crate::{CR, LF, PLUS, DOLLAR, STAR};

verus! {

/// The wire bytes of a frame.
///
/// A `ConnectionClosed` frame emits nothing.  A full-resync frame emits
/// its inner frame, then `$<len>` CRLF, then the raw block with no
/// trailing CRLF.
pub open spec fn encode(d: DataV) -> Seq<u8>
    decreases d, 0int,
{
    match d {
        DataV::ConnectionClosed => Seq::empty(),
        DataV::SimpleString(s) => seq![PLUS] + encode_utf8(s) + seq![CR, LF],
        DataV::BulkString(s) => seq![DOLLAR] + dec_digits(encode_utf8(s).len()) + seq![CR, LF]
            + encode_utf8(s) + seq![CR, LF],
        DataV::NullBuilkString => seq![DOLLAR, 45u8, 49u8, CR, LF],
        DataV::Array(items) => seq![STAR] + dec_digits(items.len()) + seq![CR, LF] + encode_seq(
            items,
            0,
        ),
        DataV::FullResyncBinaryConent(inner, bytes) => encode(*inner) + seq![DOLLAR] + dec_digits(
            bytes.len(),
        ) + seq![CR, LF] + bytes,
    }
}

/// The concatenated wire bytes of the frames `items[i..]`.
pub open spec fn encode_seq(items: Seq<DataV>, i: int) -> Seq<u8>
    decreases items, items.len() - i,
{
    if i < 0 || i >= items.len() {
        Seq::empty()
    } else {
        encode(items[i]) + encode_seq(items, i + 1)
    }
}

impl Data {
    /// Append the frame's wire bytes to `out`.
    #[verifier::loop_isolation(false)]
    pub fn write_resp(&self, out: &mut Vec<u8>) -> (r: Result<(), Error>)
        ensures
            r is Ok,
            final(out)@ == old(out)@ + encode(self@),
        decreases self,
    {
        match self {
            Data::ConnectionClosed => {
                assert(out@ =~= old(out)@ + encode(self@));
                Ok(())
            },
            Data::SimpleString(s) => {
                out.push(PLUS);
                push_str_bytes(out, s.as_str());
                out.push(CR);
                out.push(LF);
                assert(out@ =~= old(out)@ + encode(self@));
                Ok(())
            },
            Data::BulkString(s) => {
                out.push(DOLLAR);
                let len = s.as_str().as_bytes().len();
                push_dec(out, len as u64);
                out.push(CR);
                out.push(LF);
                push_str_bytes(out, s.as_str());
                out.push(CR);
                out.push(LF);
                assert(out@ =~= old(out)@ + encode(self@));
                Ok(())
            },
            Data::NullBuilkString => {
                out.push(DOLLAR);
                out.push(45);  // '-'
                out.push(49);  // '1'
                out.push(CR);
                out.push(LF);
                assert(out@ =~= old(out)@ + encode(self@));
                Ok(())
            },
            Data::Array(items) => {
                let ghost itemsv = seq_data_view(items@);
                proof {
                    lemma_seq_data_view(items@);
                }
                out.push(STAR);
                let n = items.len();
                push_dec(out, n as u64);
                out.push(CR);
                out.push(LF);
                let mut i: usize = 0;
                loop
                    invariant
                        0 <= i <= n,
                        out@ + encode_seq(itemsv, i as int) =~= old(out)@ + encode(self@),
                    decreases n - i,
                {
                    if i == n {
                        assert(encode_seq(itemsv, i as int) =~= Seq::empty());
                        assert(out@ =~= old(out)@ + encode(self@));
                        break ;
                    }
                    let ghost before = out@;
                    let res = items[i].write_resp(out);
                    proof {
                        assert(out@ == before + encode(itemsv[i as int]));
                        assert(encode_seq(itemsv, i as int) == encode(itemsv[i as int])
                            + encode_seq(itemsv, i + 1));
                        assert(out@ + encode_seq(itemsv, i + 1) =~= before + encode_seq(
                            itemsv,
                            i as int,
                        ));
                    }
                    if let Err(e) = res {
                        return Err(e);
                    }
                    i = i + 1;
                }
                Ok(())
            },
            Data::FullResyncBinaryConent(inner, bytes) => {
                let res = (&**inner).write_resp(out);
                if let Err(e) = res {
                    return Err(e);
                }
                out.push(DOLLAR);
                push_dec(out, bytes.len() as u64);
                out.push(CR);
                out.push(LF);
                push_bytes(out, bytes.as_slice());
                assert(out@ =~= old(out)@ + encode(self@));
                Ok(())
            },
        }
    }
}

} // verus!
