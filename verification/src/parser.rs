//! Parsing RESP frames and command frames from wire bytes.
//!
//! The grammar lives in the spec functions `spec_parse`, `spec_parse_elems`
//! and `spec_parse_cmd`; the executable parsers return exactly what those
//! functions say, position for position and fault for fault.

use vstd::prelude::*;
use vstd::utf8::{valid_utf8, decode_utf8};
use crate::error::{Error, Fault, fault_matches};
use crate::protocol::{Data, DataV, Cmd, CmdV, cmd_of, seq_data_view, lemma_seq_data_view};
use crate::text::{find_line_end, is_line_end, dec_value, parse_dec, find_crlf, bytes_to_string};
use crate::{PLUS, DOLLAR, STAR};

verus! {

/// Parse one reply frame at `pos`.
///
/// `+` starts a simple string (content up to CRLF), `$` a bulk string
/// (decimal length line, then a CRLF-terminated data line whose first
/// `length` bytes are the content; length `-1` is the null bulk string),
/// `*` an array (decimal count line, then that many frames).  Any other
/// prefix is invalid; input ending mid-frame is an end-of-file fault.
pub open spec fn spec_parse(input: Seq<u8>, pos: int) -> Result<(DataV, int), Fault>
    decreases input.len() - pos, 0int,
{
    if pos < 0 {
        Err(Fault::Invalid)
    } else if pos >= input.len() {
        Err(Fault::Eof)
    } else if input[pos] == PLUS {
        match find_line_end(input, pos + 1) {
            None => Err(Fault::Eof),
            Some(e) => {
                let content = input.subrange(pos + 1, e);
                if valid_utf8(content) {
                    Ok((DataV::SimpleString(decode_utf8(content)), e + 2))
                } else {
                    Err(Fault::Invalid)
                }
            },
        }
    } else if input[pos] == DOLLAR {
        match find_line_end(input, pos + 1) {
            None => Err(Fault::Eof),
            Some(e1) => {
                let lenline = input.subrange(pos + 1, e1);
                if lenline.len() == 2 && lenline[0] == 45 && lenline[1] == 49 {
                    // the literal "-1": the null bulk string
                    Ok((DataV::NullBuilkString, e1 + 2))
                } else {
                    match dec_value(lenline) {
                        None => Err(Fault::BadInt),
                        Some(n) => match find_line_end(input, e1 + 2) {
                            None => Err(Fault::Eof),
                            Some(e2) => {
                                let data = input.subrange(e1 + 2, e2);
                                if n > data.len() {
                                    Err(Fault::Invalid)
                                } else {
                                    let taken = data.subrange(0, n as int);
                                    if valid_utf8(taken) {
                                        Ok((DataV::BulkString(decode_utf8(taken)), e2 + 2))
                                    } else {
                                        Err(Fault::Invalid)
                                    }
                                }
                            },
                        },
                    }
                }
            },
        }
    } else if input[pos] == STAR {
        match find_line_end(input, pos + 1) {
            None => Err(Fault::Eof),
            Some(e1) => {
                match dec_value(input.subrange(pos + 1, e1)) {
                    None => Err(Fault::BadInt),
                    Some(n) => match spec_parse_elems(input, e1 + 2, n) {
                        Err(f) => Err(f),
                        Ok((items, p)) => Ok((DataV::Array(items), p)),
                    },
                }
            },
        }
    } else {
        Err(Fault::Invalid)
    }
}

/// Parse `n` consecutive frames starting at `pos`.
pub open spec fn spec_parse_elems(input: Seq<u8>, pos: int, n: nat) -> Result<
    (Seq<DataV>, int),
    Fault,
>
    decreases input.len() - pos, 1int,
{
    if n == 0 {
        Ok((Seq::empty(), pos))
    } else if pos < 0 || pos > input.len() {
        Err(Fault::Invalid)
    } else {
        match spec_parse(input, pos) {
            Err(f) => Err(f),
            Ok((d, p2)) => {
                if p2 <= pos || p2 > input.len() {
                    Err(Fault::Invalid)
                } else {
                    match spec_parse_elems(input, p2, (n - 1) as nat) {
                        Err(f) => Err(f),
                        Ok((rest, pf)) => Ok((seq![d] + rest, pf)),
                    }
                }
            },
        }
    }
}

/// A successful parse consumes at least one byte and stays in bounds.
pub proof fn lemma_parse_bounds(input: Seq<u8>, pos: int)
    ensures
        spec_parse(input, pos) matches Ok((d, p2)) ==> pos < p2 <= input.len(),
    decreases input.len() - pos, 0int,
{
    if pos >= 0 && pos < input.len() && input[pos] == STAR {
        if let Some(e1) = find_line_end(input, pos + 1) {
            lemma_find_some(input, pos + 1, e1);
            if let Some(n) = dec_value(input.subrange(pos + 1, e1)) {
                lemma_parse_elems_bounds(input, e1 + 2, n);
            }
        }
    }
}

/// A successful element-sequence parse never moves backwards.
pub proof fn lemma_parse_elems_bounds(input: Seq<u8>, pos: int, n: nat)
    ensures
        spec_parse_elems(input, pos, n) matches Ok((items, pf)) ==> items.len() == n,
        n > 0 ==> (spec_parse_elems(input, pos, n) matches Ok((items, pf)) ==> pos < pf
            <= input.len()),
        spec_parse_elems(input, pos, n) matches Ok((items, pf)) ==> pos <= pf,
    decreases input.len() - pos, 1int,
{
    if n > 0 && 0 <= pos <= input.len() {
        lemma_parse_bounds(input, pos);
        if let Ok((d, p2)) = spec_parse(input, pos) {
            if pos < p2 <= input.len() {
                lemma_parse_elems_bounds(input, p2, (n - 1) as nat);
            }
        }
    }
}

/// A `Some` answer of `find_line_end` is a line end.
pub proof fn lemma_find_some(s: Seq<u8>, from: int, e: int)
    requires
        find_line_end(s, from) == Some(e),
    ensures
        is_line_end(s, from, e),
{
    if exists|w: int| is_line_end(s, from, w) {
        let w = choose|w: int| is_line_end(s, from, w);
        assert(w == e);
    }
}

/// Parse one command frame at `pos`.
///
/// An exhausted input is the closed connection; a frame that does not
/// start with `*` is taken as an inline probe and read as `PING`,
/// consuming one byte.  Otherwise the array is parsed, its first element
/// must be a bulk string, and that verb picks the command.
pub open spec fn spec_parse_cmd(input: Seq<u8>, pos: int) -> Result<(CmdV, int), Fault> {
    if pos < 0 {
        Err(Fault::Invalid)
    } else if pos >= input.len() {
        Ok((CmdV::ConnectionClosed, pos))
    } else if input[pos] != STAR {
        Ok((CmdV::Ping, pos + 1))
    } else {
        match spec_parse(input, pos) {
            Err(f) => Err(f),
            Ok((d, p)) => match d {
                DataV::Array(items) => {
                    if items.len() == 0 {
                        Err(Fault::Invalid)
                    } else {
                        match items[0] {
                            DataV::BulkString(verb) => match cmd_of(verb, items.drop_first()) {
                                Some(c) => Ok((c, p)),
                                None => Err(Fault::Unsup),
                            },
                            _ => Err(Fault::Invalid),
                        }
                    }
                },
                _ => Err(Fault::Invalid),
            },
        }
    }
}

impl Data {
    /// Parse one reply frame from `input` at `pos`, returning the frame
    /// and the position just past it.
    pub fn parse(input: &[u8], pos: usize) -> (r: Result<(Data, usize), Error>)
        ensures
            match r {
                Ok((d, p)) => spec_parse(input@, pos as int) == Ok::<(DataV, int), Fault>(
                    (d@, p as int),
                ),
                Err(e) => spec_parse(input@, pos as int) matches Err(f) && fault_matches(e, f),
            },
        decreases input@.len() - pos, 0int,
    {
        let n_in = input.len();
        if pos >= n_in {
            return Err(Error::IO);
        }
        let b = input[pos];
        if b == PLUS {
            match find_crlf(input, pos + 1) {
                None => Err(Error::IO),
                Some(e) => {
                    proof {
                        lemma_find_some(input@, pos + 1, e as int);
                    }
                    let content = &input[pos + 1..e];
                    match bytes_to_string(content) {
                        Some(s) => Ok((Data::SimpleString(s), e + 2)),
                        None => Err(Error::InvalidResp),
                    }
                },
            }
        } else if b == DOLLAR {
            match find_crlf(input, pos + 1) {
                None => Err(Error::IO),
                Some(e1) => {
                    proof {
                        lemma_find_some(input@, pos + 1, e1 as int);
                    }
                    let ghost lenline = input@.subrange(pos + 1 as int, e1 as int);
                    if e1 - (pos + 1) == 2 && input[pos + 1] == 45 && input[pos + 2] == 49 {
                        assert(lenline.len() == 2 && lenline[0] == 45 && lenline[1] == 49);
                        return Ok((Data::NullBuilkString, e1 + 2));
                    }
                    assert(!(lenline.len() == 2 && lenline[0] == 45 && lenline[1] == 49));
                    match parse_dec(input, pos + 1, e1) {
                        None => Err(Error::Parser),
                        Some(n) => {
                            match find_crlf(input, e1 + 2) {
                                None => Err(Error::IO),
                                Some(e2) => {
                                    proof {
                                        lemma_find_some(input@, e1 + 2 as int, e2 as int);
                                    }
                                    let ghost data = input@.subrange(e1 + 2 as int, e2 as int);
                                    if n > e2 - (e1 + 2) {
                                        assert(n > data.len());
                                        return Err(Error::InvalidResp);
                                    }
                                    assert(n <= data.len());
                                    let taken = &input[e1 + 2..e1 + 2 + n];
                                    assert(taken@ =~= data.subrange(0, n as int));
                                    match bytes_to_string(taken) {
                                        Some(s) => Ok((Data::BulkString(s), e2 + 2)),
                                        None => Err(Error::InvalidResp),
                                    }
                                },
                            }
                        },
                    }
                },
            }
        } else if b == STAR {
            match find_crlf(input, pos + 1) {
                None => Err(Error::IO),
                Some(e1) => {
                    proof {
                        lemma_find_some(input@, pos + 1, e1 as int);
                    }
                    match parse_dec(input, pos + 1, e1) {
                        None => Err(Error::Parser),
                        Some(n) => {
                            match parse_elems(input, e1 + 2, n) {
                                Err(e) => Err(e),
                                Ok((items, p)) => Ok((Data::Array(items), p)),
                            }
                        },
                    }
                },
            }
        } else {
            Err(Error::InvalidResp)
        }
    }

    /// Parse one command frame from `input` at `pos`, returning the
    /// command and the position just past it.
    pub fn parse_cmd(input: &[u8], pos: usize) -> (r: Result<(Cmd, usize), Error>)
        ensures
            match r {
                Ok((c, p)) => spec_parse_cmd(input@, pos as int) == Ok::<(CmdV, int), Fault>(
                    (c@, p as int),
                ),
                Err(e) => spec_parse_cmd(input@, pos as int) matches Err(f) && fault_matches(e, f),
            },
    {
        if pos >= input.len() {
            return Ok((Cmd::ConnectionClosed, pos));
        }
        if input[pos] != STAR {
            return Ok((Cmd::Ping, pos + 1));
        }
        match Data::parse(input, pos) {
            Err(e) => Err(e),
            Ok((d, p)) => {
                match d {
                    Data::Array(mut items) => {
                        proof {
                            lemma_seq_data_view(items@);
                        }
                        if items.len() == 0 {
                            return Err(Error::InvalidResp);
                        }
                        let ghost itemsv = seq_data_view(items@);
                        let ghost olditems = items@;
                        proof {
                            lemma_seq_data_view(olditems);
                        }
                        let first = items.remove(0);
                        proof {
                            lemma_seq_data_view(items@);
                            assert(first == olditems[0]);
                            assert(seq_data_view(items@) =~= itemsv.drop_first());
                        }
                        match first {
                            Data::BulkString(verb) => {
                                let rest = items;
                                match Cmd::from_str_args(verb.as_str(), rest) {
                                    Ok(c) => Ok((c, p)),
                                    Err(e) => Err(e),
                                }
                            },
                            _ => Err(Error::InvalidResp),
                        }
                    },
                    _ => Err(Error::InvalidResp),
                }
            },
        }
    }
}

/// Parse `n` consecutive frames starting at `pos`.
fn parse_elems(input: &[u8], pos: usize, n: usize) -> (r: Result<(Vec<Data>, usize), Error>)
    requires
        pos <= input@.len(),
    ensures
        match r {
            Ok((items, p)) => spec_parse_elems(input@, pos as int, n as nat) == Ok::<
                (Seq<DataV>, int),
                Fault,
            >((seq_data_view(items@), p as int)),
            Err(e) => spec_parse_elems(input@, pos as int, n as nat) matches Err(f)
                && fault_matches(e, f),
        },
    decreases input@.len() - pos, 1int,
{
    if n == 0 {
        let items: Vec<Data> = Vec::new();
        assert(seq_data_view(items@) =~= Seq::<DataV>::empty());
        return Ok((items, pos));
    }
    match Data::parse(input, pos) {
        Err(e) => Err(e),
        Ok((d, p2)) => {
            proof {
                lemma_parse_bounds(input@, pos as int);
            }
            match parse_elems(input, p2, n - 1) {
                Err(e) => Err(e),
                Ok((rest, pf)) => {
                    let ghost restv = seq_data_view(rest@);
                    let ghost oldrest = rest@;
                    proof {
                        lemma_seq_data_view(oldrest);
                    }
                    let mut items = rest;
                    items.insert(0, d);
                    proof {
                        lemma_seq_data_view(items@);
                        assert(seq_data_view(items@) =~= seq![d@] + restv);
                    }
                    Ok((items, pf))
                },
            }
        },
    }
}

} // verus!
