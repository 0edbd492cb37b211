//! The RESP data model: wire frames (`Data`) and parsed commands (`Cmd`),
//! together with their mathematical views.

use vstd::prelude::*;
use crate::error::Error;
use crate::text::matches_ic;

verus! {

/// One RESP frame.
///
/// `ConnectionClosed` is a sentinel produced when the peer closed the
/// socket before any byte of a new frame; `FullResyncBinaryConent` is the
/// reply to `PSYNC`: an inner frame followed by a length-prefixed raw
/// block with no trailing CRLF.
#[derive(Debug)]
pub enum Data {
    ConnectionClosed,
    SimpleString(String),
    BulkString(String),
    NullBuilkString,
    Array(Vec<Data>),
    FullResyncBinaryConent(Box<Data>, Vec<u8>),
}

/// The mathematical shape of a frame: strings become character
/// sequences, vectors become sequences.
pub enum DataV {
    ConnectionClosed,
    SimpleString(Seq<char>),
    BulkString(Seq<char>),
    NullBuilkString,
    Array(Seq<DataV>),
    FullResyncBinaryConent(Box<DataV>, Seq<u8>),
}

/// The view of one frame.
pub open spec fn data_view(d: Data) -> DataV
    decreases d,
{
    match d {
        Data::ConnectionClosed => DataV::ConnectionClosed,
        Data::SimpleString(s) => DataV::SimpleString(s@),
        Data::BulkString(s) => DataV::BulkString(s@),
        Data::NullBuilkString => DataV::NullBuilkString,
        Data::Array(items) => DataV::Array(seq_data_view(items@)),
        Data::FullResyncBinaryConent(inner, bytes) => DataV::FullResyncBinaryConent(
            Box::new(data_view(*inner)),
            bytes@,
        ),
    }
}

/// The views of a sequence of frames, element by element.
pub open spec fn seq_data_view(s: Seq<Data>) -> Seq<DataV>
    decreases s,
{
    if s.len() == 0 {
        Seq::empty()
    } else {
        seq_data_view(s.drop_last()).push(data_view(s.last()))
    }
}

/// `seq_data_view` maps `data_view` over the sequence.
pub proof fn lemma_seq_data_view(s: Seq<Data>)
    ensures
        seq_data_view(s).len() == s.len(),
        forall|i: int| 0 <= i < s.len() ==> #[trigger] seq_data_view(s)[i] == data_view(s[i]),
    decreases s.len(),
{
    if s.len() > 0 {
        lemma_seq_data_view(s.drop_last());
    }
}

/// Appending one frame appends its view.
pub proof fn lemma_seq_data_view_push(s: Seq<Data>, d: Data)
    ensures
        seq_data_view(s.push(d)) == seq_data_view(s).push(data_view(d)),
{
    let t = s.push(d);
    assert(t.drop_last() =~= s);
    assert(t.last() == d);
}

impl View for Data {
    type V = DataV;

    open spec fn view(&self) -> DataV {
        data_view(*self)
    }
}

impl Data {
    /// The `+OK` simple-string reply.
    pub fn ok_response() -> (r: Data)
        ensures
            r@ == DataV::SimpleString("OK"@),
    {
        Data::SimpleString("OK".to_owned())
    }

    /// A deep copy of the frame.
    #[verifier::loop_isolation(false)]
    pub fn clone_data(&self) -> (r: Data)
        ensures
            r@ == self@,
        decreases self,
    {
        match self {
            Data::ConnectionClosed => Data::ConnectionClosed,
            Data::SimpleString(s) => Data::SimpleString(s.clone()),
            Data::BulkString(s) => Data::BulkString(s.clone()),
            Data::NullBuilkString => Data::NullBuilkString,
            Data::Array(items) => {
                let n = items.len();
                let mut out: Vec<Data> = Vec::new();
                let mut i: usize = 0;
                loop
                    invariant
                        0 <= i <= n,
                        n == items@.len(),
                        out@.len() == i,
                        seq_data_view(out@) =~= seq_data_view(items@).subrange(0, i as int),
                    decreases n - i,
                {
                    proof {
                        lemma_seq_data_view(items@);
                        lemma_seq_data_view(out@);
                    }
                    if i == n {
                        assert(seq_data_view(out@) =~= seq_data_view(items@));
                        break ;
                    }
                    let c = items[i].clone_data();
                    let ghost prev = out@;
                    out.push(c);
                    proof {
                        lemma_seq_data_view_push(prev, c);
                        assert(seq_data_view(out@) =~= seq_data_view(items@).subrange(
                            0,
                            i + 1 as int,
                        ));
                    }
                    i = i + 1;
                }
                Data::Array(out)
            },
            Data::FullResyncBinaryConent(inner, bytes) => {
                let ci = (&**inner).clone_data();
                let cb = vstd::slice::slice_to_vec(bytes.as_slice());
                Data::FullResyncBinaryConent(Box::new(ci), cb)
            },
        }
    }
}

impl vstd::std_specs::cmp::PartialEqSpecImpl for Data {
    open spec fn obeys_eq_spec() -> bool {
        true
    }

    open spec fn eq_spec(&self, other: &Data) -> bool {
        self@ == other@
    }
}

impl PartialEq for Data {
    fn eq(&self, other: &Data) -> bool {
        data_eq(self, other)
    }
}

impl Eq for Data {

}

/// Structural equality of two frames, decided recursively; it coincides
/// with equality of the views.
#[verifier::loop_isolation(false)]
pub fn data_eq(a: &Data, b: &Data) -> (r: bool)
    ensures
        r == (a@ == b@),
    decreases a,
{
    match (a, b) {
        (Data::ConnectionClosed, Data::ConnectionClosed) => true,
        (Data::NullBuilkString, Data::NullBuilkString) => true,
        (Data::SimpleString(x), Data::SimpleString(y)) => crate::text::str_eq(
            x.as_str(),
            y.as_str(),
        ),
        (Data::BulkString(x), Data::BulkString(y)) => crate::text::str_eq(x.as_str(), y.as_str()),
        (Data::Array(xs), Data::Array(ys)) => {
            proof {
                lemma_seq_data_view(xs@);
                lemma_seq_data_view(ys@);
            }
            if xs.len() != ys.len() {
                return false;
            }
            let n = xs.len();
            let mut i: usize = 0;
            loop
                invariant
                    0 <= i <= n,
                    n == xs@.len() == ys@.len(),
                    forall|j: int| 0 <= j < i ==> seq_data_view(xs@)[j] == seq_data_view(ys@)[j],
                    seq_data_view(xs@).len() == n,
                    seq_data_view(ys@).len() == n,
                    forall|j: int|
                        0 <= j < n
                            ==> #[trigger] seq_data_view(xs@)[j] == data_view(xs@[j]),
                    forall|j: int|
                        0 <= j < n
                            ==> #[trigger] seq_data_view(ys@)[j] == data_view(ys@[j]),
                decreases n - i,
            {
                if i == n {
                    assert(seq_data_view(xs@) =~= seq_data_view(ys@));
                    return true;
                }
                if !data_eq(&xs[i], &ys[i]) {
                    assert(seq_data_view(xs@)[i as int] != seq_data_view(ys@)[i as int]);
                    return false;
                }
                i = i + 1;
            }
        },
        (Data::FullResyncBinaryConent(ia, ba), Data::FullResyncBinaryConent(ib, bb)) => {
            if !data_eq(&**ia, &**ib) {
                return false;
            }
            bytes_eq(ba.as_slice(), bb.as_slice())
        },
        _ => {
            false
        },
    }
}

/// Byte-for-byte equality of two slices.
pub fn bytes_eq(a: &[u8], b: &[u8]) -> (r: bool)
    ensures
        r == (a@ == b@),
{
    if a.len() != b.len() {
        return false;
    }
    let n = a.len();
    let mut i: usize = 0;
    loop
        invariant
            0 <= i <= n,
            n == a@.len() == b@.len(),
            forall|j: int| 0 <= j < i ==> a@[j] == b@[j],
        decreases n - i,
    {
        if i == n {
            assert(a@ =~= b@);
            return true;
        }
        if a[i] != b[i] {
            return false;
        }
        i = i + 1;
    }
}

/// One parsed command, carrying its argument frames.
#[derive(Debug)]
pub enum Cmd {
    ConnectionClosed,
    Ping,
    Echo { args: Vec<Data> },
    SetCmd { args: Vec<Data> },
    Get { args: Vec<Data> },
    Config { args: Vec<Data> },
    Command { args: Vec<Data> },
    Keys { args: Vec<Data> },
    Info { args: Vec<Data> },
    Replconf { args: Vec<Data> },
    Psync { args: Vec<Data> },
}

/// The mathematical shape of a command.
pub enum CmdV {
    ConnectionClosed,
    Ping,
    Echo(Seq<DataV>),
    SetCmd(Seq<DataV>),
    Get(Seq<DataV>),
    Config(Seq<DataV>),
    Command(Seq<DataV>),
    Keys(Seq<DataV>),
    Info(Seq<DataV>),
    Replconf(Seq<DataV>),
    Psync(Seq<DataV>),
}

impl View for Cmd {
    type V = CmdV;

    open spec fn view(&self) -> CmdV {
        match *self {
            Cmd::ConnectionClosed => CmdV::ConnectionClosed,
            Cmd::Ping => CmdV::Ping,
            Cmd::Echo { args } => CmdV::Echo(seq_data_view(args@)),
            Cmd::SetCmd { args } => CmdV::SetCmd(seq_data_view(args@)),
            Cmd::Get { args } => CmdV::Get(seq_data_view(args@)),
            Cmd::Config { args } => CmdV::Config(seq_data_view(args@)),
            Cmd::Command { args } => CmdV::Command(seq_data_view(args@)),
            Cmd::Keys { args } => CmdV::Keys(seq_data_view(args@)),
            Cmd::Info { args } => CmdV::Info(seq_data_view(args@)),
            Cmd::Replconf { args } => CmdV::Replconf(seq_data_view(args@)),
            Cmd::Psync { args } => CmdV::Psync(seq_data_view(args@)),
        }
    }
}

/// Which command a verb names, after ASCII upper-casing.
pub open spec fn cmd_of(verb: Seq<char>, args: Seq<DataV>) -> Option<CmdV> {
    if matches_ic(verb, "ECHO"@) {
        Some(CmdV::Echo(args))
    } else if matches_ic(verb, "PING"@) {
        Some(CmdV::Ping)
    } else if matches_ic(verb, "SET"@) {
        Some(CmdV::SetCmd(args))
    } else if matches_ic(verb, "GET"@) {
        Some(CmdV::Get(args))
    } else if matches_ic(verb, "CONFIG"@) {
        Some(CmdV::Config(args))
    } else if matches_ic(verb, "COMMAND"@) {
        Some(CmdV::Command(args))
    } else if matches_ic(verb, "KEYS"@) {
        Some(CmdV::Keys(args))
    } else if matches_ic(verb, "INFO"@) {
        Some(CmdV::Info(args))
    } else if matches_ic(verb, "REPLCONF"@) {
        Some(CmdV::Replconf(args))
    } else if matches_ic(verb, "PSYNC"@) {
        Some(CmdV::Psync(args))
    } else {
        None
    }
}

/// The wire frame a command serializes to when forwarded to a replica;
/// only `PING`, `REPLCONF`, `PSYNC` and `SET` have one.
pub open spec fn cmd_frame(c: CmdV) -> Option<DataV> {
    match c {
        CmdV::Ping => Some(DataV::Array(seq![DataV::BulkString("PING"@)])),
        CmdV::Replconf(args) => Some(DataV::Array(seq![DataV::BulkString("REPLCONF"@)] + args)),
        CmdV::Psync(args) => Some(DataV::Array(seq![DataV::BulkString("PSYNC"@)] + args)),
        CmdV::SetCmd(args) => Some(DataV::Array(seq![DataV::BulkString("SET"@)] + args)),
        _ => None,
    }
}

impl Cmd {
    /// Resolve an upper-cased verb into a command carrying `args`.
    pub fn from_str_args(cmd_str: &str, args: Vec<Data>) -> (r: Result<Cmd, Error>)
        ensures
            match r {
                Ok(c) => cmd_of(cmd_str@, seq_data_view(args@)) == Some(c@),
                Err(e) => cmd_of(cmd_str@, seq_data_view(args@)) is None && e is Unsupported,
            },
    {
        if crate::text::eq_ignore_case(cmd_str, "ECHO") {
            Ok(Cmd::Echo { args })
        } else if crate::text::eq_ignore_case(cmd_str, "PING") {
            Ok(Cmd::Ping)
        } else if crate::text::eq_ignore_case(cmd_str, "SET") {
            Ok(Cmd::SetCmd { args })
        } else if crate::text::eq_ignore_case(cmd_str, "GET") {
            Ok(Cmd::Get { args })
        } else if crate::text::eq_ignore_case(cmd_str, "CONFIG") {
            Ok(Cmd::Config { args })
        } else if crate::text::eq_ignore_case(cmd_str, "COMMAND") {
            Ok(Cmd::Command { args })
        } else if crate::text::eq_ignore_case(cmd_str, "KEYS") {
            Ok(Cmd::Keys { args })
        } else if crate::text::eq_ignore_case(cmd_str, "INFO") {
            Ok(Cmd::Info { args })
        } else if crate::text::eq_ignore_case(cmd_str, "REPLCONF") {
            Ok(Cmd::Replconf { args })
        } else if crate::text::eq_ignore_case(cmd_str, "PSYNC") {
            Ok(Cmd::Psync { args })
        } else {
            Err(Error::Unsupported(cmd_str.to_owned()))
        }
    }

    /// Serialize the command into the array frame sent to replicas.
    pub fn to_data(&self) -> (r: Result<Data, Error>)
        ensures
            match r {
                Ok(d) => cmd_frame(self@) == Some(d@),
                Err(e) => cmd_frame(self@) is None && e is Unsupported,
            },
    {
        match self {
            Cmd::Ping => {
                let mut items: Vec<Data> = Vec::new();
                items.push(Data::BulkString("PING".to_owned()));
                proof {
                    lemma_seq_data_view(items@);
                    assert(seq_data_view(items@) =~= seq![DataV::BulkString("PING"@)]);
                }
                Ok(Data::Array(items))
            },
            Cmd::Replconf { args } => Ok(Data::Array(frame_items("REPLCONF", args))),
            Cmd::Psync { args } => Ok(Data::Array(frame_items("PSYNC", args))),
            Cmd::SetCmd { args } => Ok(Data::Array(frame_items("SET", args))),
            _ => Err(Error::Unsupported("this command has no replica frame".to_owned())),
        }
    }

    /// A command mutates the store exactly when its verb is `SET`.
    pub fn is_write(&self) -> (r: bool)
        ensures
            r == (self@ is SetCmd),
    {
        matches!(self, Cmd::SetCmd { .. })
    }

    /// A deep copy of the command.
    pub fn clone_cmd(&self) -> (r: Cmd)
        ensures
            r@ == self@,
    {
        match self {
            Cmd::ConnectionClosed => Cmd::ConnectionClosed,
            Cmd::Ping => Cmd::Ping,
            Cmd::Echo { args } => Cmd::Echo { args: clone_args(args) },
            Cmd::SetCmd { args } => Cmd::SetCmd { args: clone_args(args) },
            Cmd::Get { args } => Cmd::Get { args: clone_args(args) },
            Cmd::Config { args } => Cmd::Config { args: clone_args(args) },
            Cmd::Command { args } => Cmd::Command { args: clone_args(args) },
            Cmd::Keys { args } => Cmd::Keys { args: clone_args(args) },
            Cmd::Info { args } => Cmd::Info { args: clone_args(args) },
            Cmd::Replconf { args } => Cmd::Replconf { args: clone_args(args) },
            Cmd::Psync { args } => Cmd::Psync { args: clone_args(args) },
        }
    }
}

/// A deep copy of an argument vector.
#[verifier::loop_isolation(false)]
pub fn clone_args(args: &Vec<Data>) -> (r: Vec<Data>)
    ensures
        seq_data_view(r@) == seq_data_view(args@),
{
    let n = args.len();
    let mut out: Vec<Data> = Vec::new();
    let mut i: usize = 0;
    loop
        invariant
            0 <= i <= n,
            n == args@.len(),
            out@.len() == i,
            seq_data_view(out@) =~= seq_data_view(args@).subrange(0, i as int),
        decreases n - i,
    {
        proof {
            lemma_seq_data_view(args@);
            lemma_seq_data_view(out@);
        }
        if i == n {
            assert(seq_data_view(out@) =~= seq_data_view(args@));
            return out;
        }
        let c = args[i].clone_data();
        let ghost prev = out@;
        out.push(c);
        proof {
            lemma_seq_data_view_push(prev, c);
            assert(seq_data_view(out@) =~= seq_data_view(args@).subrange(0, i + 1 as int));
        }
        i = i + 1;
    }
}

/// Build `[<verb>, args...]` as frames, deep-copying the arguments.
#[verifier::loop_isolation(false)]
fn frame_items(verb: &str, args: &Vec<Data>) -> (r: Vec<Data>)
    ensures
        seq_data_view(r@) == seq![DataV::BulkString(verb@)] + seq_data_view(args@),
{
    let mut out: Vec<Data> = Vec::new();
    out.push(Data::BulkString(verb.to_owned()));
    proof {
        lemma_seq_data_view(out@);
    }
    let n = args.len();
    let mut i: usize = 0;
    loop
        invariant
            0 <= i <= n,
            n == args@.len(),
            out@.len() == i + 1,
            seq_data_view(out@) =~= seq![DataV::BulkString(verb@)] + seq_data_view(
                args@,
            ).subrange(0, i as int),
        decreases n - i,
    {
        proof {
            lemma_seq_data_view(args@);
            lemma_seq_data_view(out@);
        }
        if i == n {
            assert(seq_data_view(args@).subrange(0, i as int) =~= seq_data_view(args@));
            break ;
        }
        let c = args[i].clone_data();
        let ghost prev = out@;
        out.push(c);
        proof {
            lemma_seq_data_view_push(prev, c);
            assert(seq_data_view(out@) =~= seq![DataV::BulkString(verb@)] + seq_data_view(
                args@,
            ).subrange(0, i + 1 as int));
        }
        i = i + 1;
    }
    out
}

} // verus!
