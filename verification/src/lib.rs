//! Streaming market-data library: a tick-driven event timer, a stream framer,
//! a binary wire codec, a synthetic quote generator, and the per-connection
//! state machines of the quote server and client.

pub mod client;
pub mod framer;
pub mod protocol;
pub mod quote;
pub mod server;
pub mod timer;

use vstd::prelude::*;

verus! {

/// The error taxonomy of the library.
#[derive(Debug, PartialEq, Eq, Structural, Clone, Copy)]
pub enum QuoteError {
    /// Malformed ticker configuration or tickers file.
    ConfigError,
    /// Unrecoverable socket or channel transport failure.
    TransportError,
    /// Unexpected message kind, failed decode, or source-address mismatch.
    ProtocolError,
    /// A declared frame length that cannot be satisfied.
    FramingError,
    /// A sibling worker died; treated as a stop request by receivers.
    ChannelClosed,
    /// A timer event name that was never registered.
    UnknownEvent,
    /// Client side: the ping worker ended, the server stopped answering.
    ServerUnreachable,
}

/// Whether an operator's console line asks for shutdown: the line, stripped
/// of surrounding whitespace, spells `exit` in any letter case.
pub open spec fn spec_is_exit(line: Seq<char>) -> bool {
    let t = crate::client::spec_trim(line);
    &&& t.len() == 4
    &&& (t[0] == 'e' || t[0] == 'E')
    &&& (t[1] == 'x' || t[1] == 'X')
    &&& (t[2] == 'i' || t[2] == 'I')
    &&& (t[3] == 't' || t[3] == 'T')
}

/// Whether an operator's console line asks for shutdown.
#[verifier::loop_isolation(false)]
pub fn is_exit_command(line: &str) -> (r: bool)
    ensures
        r == spec_is_exit(line@),
{
    let n = line.unicode_len();
    let mut lo: usize = 0;
    let mut hi: usize = n;
    proof {
        assert(line@.subrange(0, n as int) =~= line@);
    }
    while lo < hi && crate::client::is_blank_char(line.get_char(lo))
        invariant
            lo <= hi <= n,
            crate::client::spec_trim(line@) == crate::client::spec_trim(
                line@.subrange(lo as int, hi as int),
            ),
        decreases hi - lo,
    {
        proof {
            let cur = line@.subrange(lo as int, hi as int);
            assert(cur[0] == line@[lo as int]);
            assert(cur.drop_first() =~= line@.subrange(lo + 1, hi as int));
        }
        lo = lo + 1;
    }
    while hi > lo && crate::client::is_blank_char(line.get_char(hi - 1))
        invariant
            lo <= hi <= n,
            crate::client::spec_trim(line@) == crate::client::spec_trim(
                line@.subrange(lo as int, hi as int),
            ),
            lo == hi || !crate::client::is_blank(line@[lo as int]),
        decreases hi - lo,
    {
        proof {
            let cur = line@.subrange(lo as int, hi as int);
            assert(cur[0] == line@[lo as int]);
            assert(cur.last() == line@[hi - 1]);
            assert(cur.drop_last() =~= line@.subrange(lo as int, hi - 1));
        }
        hi = hi - 1;
    }
    proof {
        let cur = line@.subrange(lo as int, hi as int);
        if cur.len() > 0 {
            assert(cur[0] == line@[lo as int]);
            assert(cur.last() == line@[hi - 1]);
            assert(crate::client::spec_trim(cur) == cur);
        } else {
            assert(crate::client::spec_trim(cur) =~= cur);
        }
    }
    if hi - lo != 4 {
        return false;
    }
    let c0 = line.get_char(lo);
    let c1 = line.get_char(lo + 1);
    let c2 = line.get_char(lo + 2);
    let c3 = line.get_char(lo + 3);
    proof {
        let cur = line@.subrange(lo as int, hi as int);
        assert(cur[0] == line@[lo as int]);
        assert(cur[1] == line@[lo + 1]);
        assert(cur[2] == line@[lo + 2]);
        assert(cur[3] == line@[lo + 3]);
    }
    (c0 == 'e' || c0 == 'E') && (c1 == 'x' || c1 == 'X') && (c2 == 'i' || c2 == 'I') && (c3 == 't'
        || c3 == 'T')
}

/// The declared outside type of the receiving end of a standard channel.
#[verifier::external_type_specification]
#[verifier::external_body]
#[verifier::reject_recursive_types(T)]
pub struct ExReceiver<T>(std::sync::mpsc::Receiver<T>);

/// The outcome of one non-blocking poll of a channel.
pub enum ChannelPoll<T> {
    /// A value was waiting.
    Received(T),
    /// Nothing was waiting.
    Empty,
    /// The sending side is gone: the parent worker died.
    Disconnected,
}

/// Relies on `std::sync::mpsc::Receiver::try_recv`: takes one waiting value
/// without blocking, and tells an empty channel from a disconnected one.
#[verifier::external_body]
pub fn try_recv_poll<T>(rx: &std::sync::mpsc::Receiver<T>) -> (r: ChannelPoll<T>)
{
    match rx.try_recv() {
        Ok(v) => ChannelPoll::Received(v),
        Err(std::sync::mpsc::TryRecvError::Empty) => ChannelPoll::Empty,
        Err(std::sync::mpsc::TryRecvError::Disconnected) => ChannelPoll::Disconnected,
    }
}

} // verus!
