//! Client-side machinery: the subscription request, the decisions of the
//! quote receive worker, and the PING/PONG liveness worker's checks.
//!
//! As on the server side, the loops — sockets, channels, threads, sleeps —
//! live in the embedding program; the decisions they take are functions
//! here, verified against the bytes and addresses they are handed.

use vstd::prelude::*;
use std::sync::mpsc::Receiver;
use crate::{ChannelPoll, QuoteError, try_recv_poll};
use vstd::string::StrSliceExecFns;
use crate::protocol::{
    Message, MessageModel, StockQuote, TickerReqMessage, clone_strings, spec_encode_message,
    spec_parse_message, spec_u32_to_be_bytes, encode_message, decode_message,
    pack_message_with_len,
};

verus! {

/// How often the client sends a ping (milliseconds).
pub const PING_PERIOD_MILLIS: u64 = 30000;

/// How long the client waits for the answering pong (milliseconds).
pub const WAIT_PONG_MILLIS: u64 = 5000;

/// How often a client worker polls its control channel (milliseconds).
pub const HANDLE_CMD_PERIOD_MILLIS: u64 = 300;

/// How often the receive worker looks for a quote datagram (milliseconds).
pub const WAIT_QUOTES_MILLIS: u64 = 100;

/// Control commands understood by the client's workers.
pub enum ClientCmd {
    /// Stop the worker.
    Stop,
}

/// Whether a poll outcome tells the worker to stop: a waiting `Stop` does,
/// and so does a disconnected channel — the parent worker died.
pub fn stop_from_poll(p: ChannelPoll<ClientCmd>) -> (r: bool)
    ensures
        r == match p {
            ChannelPoll::Received(c) => c matches ClientCmd::Stop,
            ChannelPoll::Empty => false,
            ChannelPoll::Disconnected => true,
        },
{
    match p {
        ChannelPoll::Received(c) => match c {
            ClientCmd::Stop => true,
        },
        ChannelPoll::Empty => false,
        ChannelPoll::Disconnected => true,
    }
}

/// Polls a worker's control channel without blocking: whether a stop was
/// requested, where a disconnected channel counts as a stop.
pub fn is_stop_cmd(rx: &Receiver<ClientCmd>) -> bool {
    stop_from_poll(try_recv_poll(rx))
}

/// A socket address, as plain values: the verified core compares addresses
/// by value and leaves resolving and formatting to the embedding program.
#[derive(PartialEq, Eq, Structural, Clone, Copy, Debug)]
pub struct SockAddr {
    /// Whether the address is IPv6 (else IPv4).
    pub is_v6: bool,
    /// The IP address: 4 or 16 bytes, as one big-endian integer.
    pub ip: u128,
    /// The port.
    pub port: u16,
}

/// The PING worker's two states: waiting until the next ping is due, or
/// waiting for the answering pong.
#[derive(PartialEq, Eq, Structural, Clone, Copy, Debug)]
pub enum PingState {
    /// The ping period is running.
    WaitPing,
    /// A ping went out; the pong deadline is running.
    WaitPong,
}

/// The datagram the PING worker sends: one encoded `Ping`.
pub fn ping_datagram() -> (r: Vec<u8>)
    ensures
        r@ == spec_encode_message(MessageModel::Ping),
{
    encode_message(&Message::Ping)
}

/// Whether a datagram is the pong the PING worker awaits: present, from
/// exactly the server's address, and parsing to `Pong`.
pub open spec fn spec_pong_accepted(server_addr: SockAddr, datagram: Option<(SockAddr, Vec<u8>)>) -> bool {
    match datagram {
        Some(d) => d.0 == server_addr && spec_parse_message(d.1@) == Some(MessageModel::Pong),
        None => false,
    }
}

/// Whether a received datagram is the awaited pong: it must come from
/// exactly the server's address and decode to `Pong`. Anything else — no
/// datagram, a stranger's datagram, a different or undecodable message —
/// ends the PING worker.
pub fn accept_pong(server_addr: &SockAddr, datagram: &Option<(SockAddr, Vec<u8>)>) -> (r: bool)
    ensures
        r == spec_pong_accepted(*server_addr, *datagram),
{
    match datagram {
        Some(d) => {
            if d.0 == *server_addr {
                match decode_message(d.1.as_slice()) {
                    Ok(Message::Pong) => true,
                    _ => false,
                }
            } else {
                false
            }
        },
        None => false,
    }
}

/// What one deadline poll makes the PING worker do, besides moving state.
#[derive(PartialEq, Eq, Structural, Clone, Copy, Debug)]
pub enum PingAction {
    /// Nothing is due this tick.
    Idle,
    /// Send a ping to the server and start the pong deadline.
    SendPing,
    /// The awaited pong arrived: start the next ping period.
    PongAccepted,
    /// No pong from the server's address within the deadline: the worker
    /// exits, which the receive worker observes as `ServerUnreachable`.
    Exit,
}

/// One deadline poll of the PING worker's two-state machine. While the
/// deadline of the current state has not elapsed, nothing happens. An
/// elapsed ping period sends a ping and awaits the pong; an elapsed pong
/// deadline accepts exactly a `Pong` from the server's address (returning to
/// the ping period) and exits on anything else. The embedding program sends
/// the datagrams and swaps the timer events as the returned action says.
pub fn ping_step(
    state: &mut PingState,
    deadline_expired: bool,
    server_addr: &SockAddr,
    datagram: &Option<(SockAddr, Vec<u8>)>,
) -> (r: PingAction)
    ensures
        !deadline_expired ==> *final(state) == *old(state) && r == PingAction::Idle,
        deadline_expired && *old(state) == PingState::WaitPing ==> *final(state)
            == PingState::WaitPong && r == PingAction::SendPing,
        deadline_expired && *old(state) == PingState::WaitPong ==> if spec_pong_accepted(
            *server_addr,
            *datagram,
        ) {
            *final(state) == PingState::WaitPing && r == PingAction::PongAccepted
        } else {
            *final(state) == *old(state) && r == PingAction::Exit
        },
{
    if !deadline_expired {
        return PingAction::Idle;
    }
    match *state {
        PingState::WaitPing => {
            *state = PingState::WaitPong;
            PingAction::SendPing
        },
        PingState::WaitPong => {
            if accept_pong(server_addr, datagram) {
                *state = PingState::WaitPing;
                PingAction::PongAccepted
            } else {
                PingAction::Exit
            }
        },
    }
}

/// What the receive worker does about its liveness worker when a datagram
/// arrives: the first datagram ever starts the PING worker toward the
/// sender; afterwards, a PING worker that has terminated means the server
/// stopped answering pings, and the session is dead.
#[derive(PartialEq, Eq, Structural, Clone, Copy, Debug)]
pub enum PingLifecycle {
    /// No PING worker yet: start one toward the datagram's sender.
    Start,
    /// The PING worker is alive: carry on.
    Continue,
}

/// The receive worker's liveness decision on a datagram arrival, given
/// whether a PING worker exists and whether it has terminated.
pub fn ping_lifecycle_on_datagram(has_worker: bool, worker_finished: bool) -> (r: Result<
    PingLifecycle,
    QuoteError,
>)
    ensures
        r == if !has_worker {
            Ok::<PingLifecycle, QuoteError>(PingLifecycle::Start)
        } else if worker_finished {
            Err::<PingLifecycle, QuoteError>(QuoteError::ServerUnreachable)
        } else {
            Ok::<PingLifecycle, QuoteError>(PingLifecycle::Continue)
        },
{
    if !has_worker {
        Ok(PingLifecycle::Start)
    } else if worker_finished {
        Err(QuoteError::ServerUnreachable)
    } else {
        Ok(PingLifecycle::Continue)
    }
}

/// What the receive worker does with one datagram: a `Quote` is handed back
/// to print; any other well-formed message is ignored; bytes that decode to
/// no message end the worker with `ProtocolError`.
pub fn client_handle_datagram(bytes: &[u8]) -> (r: Result<Option<StockQuote>, QuoteError>)
    ensures
        match r {
            Ok(Some(q)) => spec_parse_message(bytes@) == Some(MessageModel::Quote(q@)),
            Ok(None) => spec_parse_message(bytes@) is Some && !(spec_parse_message(bytes@)
                matches Some(MessageModel::Quote(_))),
            Err(e) => e == QuoteError::ProtocolError && spec_parse_message(bytes@) is None,
        },
{
    match decode_message(bytes) {
        Ok(Message::Quote(resp)) => Ok(Some(resp.quote)),
        Ok(_) => Ok(None),
        Err(e) => Err(e),
    }
}

// ---------------------------------------------------------------------------
// The tickers file: one ticker per line, blank lines and surrounding
// whitespace stripped.
// ---------------------------------------------------------------------------

/// Whether a character is stripped from a line's ends.
pub open spec fn is_blank(c: char) -> bool {
    c == ' ' || c == '\t' || c == '\r' || c == '\n'
}

/// The number of characters before the first line break.
pub open spec fn spec_line_len(s: Seq<char>) -> nat
    decreases s.len(),
{
    if s.len() == 0 {
        0
    } else if s[0] == '\n' {
        0
    } else {
        1 + spec_line_len(s.drop_first())
    }
}

/// The first line ends at the first line break, or at the end of the text.
pub proof fn lemma_line_len_at(s: Seq<char>, k: int)
    requires
        0 <= k <= s.len(),
        forall|m: int| 0 <= m < k ==> s[m] != '\n',
        k == s.len() || s[k] == '\n',
    ensures
        spec_line_len(s) == k,
    decreases k,
{
    if k > 0 {
        assert(s[0] != '\n');
        assert(forall|m: int| 0 <= m < k - 1 ==> s.drop_first()[m] == s[m + 1]);
        if k < s.len() {
            assert(s.drop_first()[k - 1] == s[k]);
        }
        lemma_line_len_at(s.drop_first(), k - 1);
    }
}

/// A line stripped of its blank ends.
pub open spec fn spec_trim(l: Seq<char>) -> Seq<char>
    decreases l.len(),
{
    if l.len() == 0 {
        l
    } else if is_blank(l[0]) {
        spec_trim(l.drop_first())
    } else if is_blank(l.last()) {
        spec_trim(l.drop_last())
    } else {
        l
    }
}

/// The tickers a text holds: each line stripped of surrounding blanks, in
/// order, blank lines left out.
pub open spec fn spec_tickers_of(s: Seq<char>) -> Seq<Seq<char>>
    decreases s.len(),
{
    if s.len() == 0 {
        Seq::<Seq<char>>::empty()
    } else {
        let n = spec_line_len(s) as int;
        let line = s.take(n);
        let rest = if n + 1 <= s.len() {
            s.skip(n + 1)
        } else {
            Seq::<char>::empty()
        };
        let t = spec_trim(line);
        if t.len() == 0 {
            spec_tickers_of(rest)
        } else {
            seq![t] + spec_tickers_of(rest)
        }
    }
}

/// Whether a character is stripped from a line's ends.
pub(crate) fn is_blank_char(c: char) -> (r: bool)
    ensures
        r == is_blank(c),
{
    c == ' ' || c == '\t' || c == '\r' || c == '\n'
}

/// Reads the tickers from a text: one ticker per line, blank lines and
/// surrounding whitespace stripped.
#[verifier::loop_isolation(false)]
pub fn parse_tickers(text: &str) -> (r: Vec<String>)
    ensures
        r.deep_view() == spec_tickers_of(text@),
{
    let n = text.unicode_len();
    let mut out: Vec<String> = Vec::new();
    let mut pos: usize = 0;
    proof {
        assert(text@.skip(0) =~= text@);
        assert(out.deep_view() =~= Seq::<Seq<char>>::empty());
    }
    while pos < n
        invariant
            pos <= n,
            spec_tickers_of(text@) == out.deep_view() + spec_tickers_of(text@.skip(pos as int)),
        decreases n - pos,
    {
        let ghost sub = text@.skip(pos as int);
        let mut j: usize = pos;
        while j < n && text.get_char(j) != '\n'
            invariant
                pos <= j <= n,
                forall|m: int| pos <= m < j ==> text@[m] != '\n',
            decreases n - j,
        {
            j = j + 1;
        }
        proof {
            assert(forall|m: int| 0 <= m < j - pos ==> sub[m] == text@[m + pos]);
            if j < n {
                assert(sub[j - pos] == text@[j as int]);
            }
            lemma_line_len_at(sub, j - pos);
        }
        let ghost line = sub.take((j - pos) as int);
        proof {
            assert(line =~= text@.subrange(pos as int, j as int));
        }
        let mut lo: usize = pos;
        let mut hi: usize = j;
        while lo < hi && is_blank_char(text.get_char(lo))
            invariant
                pos <= lo <= hi <= j,
                spec_trim(line) == spec_trim(text@.subrange(lo as int, hi as int)),
            decreases hi - lo,
        {
            proof {
                let cur = text@.subrange(lo as int, hi as int);
                assert(cur[0] == text@[lo as int]);
                assert(cur.drop_first() =~= text@.subrange(lo + 1, hi as int));
            }
            lo = lo + 1;
        }
        while hi > lo && is_blank_char(text.get_char(hi - 1))
            invariant
                pos <= lo <= hi <= j,
                spec_trim(line) == spec_trim(text@.subrange(lo as int, hi as int)),
                lo == hi || !is_blank(text@[lo as int]),
            decreases hi - lo,
        {
            proof {
                let cur = text@.subrange(lo as int, hi as int);
                assert(cur[0] == text@[lo as int]);
                assert(cur.last() == text@[hi - 1]);
                assert(cur.drop_last() =~= text@.subrange(lo as int, hi - 1));
            }
            hi = hi - 1;
        }
        proof {
            let cur = text@.subrange(lo as int, hi as int);
            if cur.len() > 0 {
                assert(cur[0] == text@[lo as int]);
                assert(cur.last() == text@[hi - 1]);
                assert(spec_trim(cur) == cur);
            } else {
                assert(spec_trim(cur) =~= cur);
            }
        }
        let ghost trimmed = spec_trim(line);
        let ghost out0 = out.deep_view();
        if lo < hi {
            let piece = text.substring_char(lo, hi);
            let owned: String = piece.to_owned();
            proof {
                assert(owned@ == text@.subrange(lo as int, hi as int));
                assert(owned@ == trimmed);
            }
            out.push(owned);
            proof {
                assert(out.deep_view() =~= out0.push(trimmed));
            }
        }
        let new_pos = if j < n {
            j + 1
        } else {
            n
        };
        proof {
            let rest = text@.skip(new_pos as int);
            assert(sub.take((j - pos) as int) == line);
            if j < n {
                assert(sub.skip((j - pos) + 1) =~= rest);
            } else {
                assert(rest =~= Seq::<char>::empty());
            }
            if trimmed.len() == 0 {
                assert(spec_tickers_of(sub) == spec_tickers_of(rest));
            } else {
                assert(spec_tickers_of(sub) == seq![trimmed] + spec_tickers_of(rest));
                assert(out0 + (seq![trimmed] + spec_tickers_of(rest)) =~= out.deep_view()
                    + spec_tickers_of(rest));
            }
        }
        pos = new_pos;
    }
    proof {
        assert(text@.skip(n as int) =~= Seq::<char>::empty());
        assert(out.deep_view() + Seq::<Seq<char>>::empty() =~= out.deep_view());
    }
    out
}

// ---------------------------------------------------------------------------
// The client object.
// ---------------------------------------------------------------------------

/// The quote-receiving client: where the server listens, which local port
/// receives the quote datagrams, and which tickers to subscribe to.
pub struct QuotesClient {
    /// The server's stream address.
    pub server_addr: SockAddr,
    /// The local UDP port quotes arrive on.
    pub recv_quote_port: u16,
    /// The tickers to subscribe to.
    pub tickers: Vec<String>,
}

impl QuotesClient {
    /// Builds a client from the server's address, the local receive port,
    /// and the text of a tickers file (one ticker per line, blank lines and
    /// surrounding whitespace stripped).
    pub fn new(server_addr: SockAddr, recv_quote_port: u16, tickers_text: &str) -> (r: QuotesClient)
        ensures
            r.server_addr == server_addr,
            r.recv_quote_port == recv_quote_port,
            r.tickers.deep_view() == spec_tickers_of(tickers_text@),
    {
        QuotesClient { server_addr, recv_quote_port, tickers: parse_tickers(tickers_text) }
    }

    /// The one request the client writes on the stream: a length-prefixed
    /// `Tickers` message carrying the receive port and the subscribed names.
    pub fn subscription_request(&self) -> (r: Result<Vec<u8>, QuoteError>)
        ensures
            ({
                let body = spec_encode_message(
                    MessageModel::Tickers(
                        crate::protocol::TickerReqModel {
                            port: self.recv_quote_port,
                            tickers: self.tickers.deep_view(),
                        },
                    ),
                );
                match r {
                    Ok(v) => body.len() <= u32::MAX && v@ == spec_u32_to_be_bytes(
                        body.len() as u32,
                    ) + body,
                    Err(e) => e == QuoteError::FramingError && body.len() > u32::MAX,
                }
            }),
    {
        let msg = Message::Tickers(
            TickerReqMessage { port: self.recv_quote_port, tickers: clone_strings(&self.tickers) },
        );
        pack_message_with_len(&msg)
    }
}

} // verus!
