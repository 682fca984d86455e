//! Server-side per-connection machinery: the control-command plumbing, the
//! quote streamer's subscription and liveness state machine (datagram side),
//! and the command handler's framing state machine (stream side).
//!
//! The workers' loops — sockets, channels, threads, sleeps — live in the
//! embedding program; every decision they take is a function here, verified
//! against the state it reads and the bytes it is handed.

use vstd::prelude::*;
use std::sync::mpsc::Receiver;
use crate::{ChannelPoll, QuoteError, try_recv_poll};
use crate::framer::StreamReader;
use crate::protocol::{
    Message, MessageModel, QuoteRespMessage, StockQuote, TickerReqMessage, MAX_SIZE_DATAGRAM,
    clone_strings, spec_encode_message, spec_parse_message, spec_u32_from_be_bytes,
    u32_from_be_bytes, encode_message, decode_message,
};

verus! {

/// How often a streamer submits a callback to the generator (milliseconds).
pub const STREAMING_TIMEOUT_MILLIS: u64 = 1000;

/// How often the handler drains its stream (milliseconds).
pub const CHECK_TCP_CMD_MILLIS: u64 = 100;

/// How often a worker polls its control channel (milliseconds).
pub const HANDLE_CMD_PERIOD_MILLIS: u64 = 300;

/// How often a streamer looks for a ping (milliseconds).
pub const CHECK_PING_MILLIS: u64 = 100;

/// How long a streamer tolerates silence before exiting (milliseconds).
pub const PING_WAIT_MILLIS: u64 = 40000;

/// How often the server root polls for new connections (milliseconds).
pub const ACCEPT_MILLIS: u64 = 100;

/// After this many consecutive empty ping checks the streamer exits.
pub const MAX_SILENT_PING_CHECKS: u64 = PING_WAIT_MILLIS / CHECK_PING_MILLIS;

/// Control commands understood by the server's workers.
pub enum ControlCmd {
    /// Stop the worker.
    Stop,
    /// Replace the active subscription with the request's port and tickers.
    Quotes(TickerReqMessage),
    /// No command.
    Noop,
}

/// The command a poll outcome stands for: a waiting command is itself; an
/// empty channel is `Noop`; a disconnected channel means the parent worker
/// died and is treated as `Stop`.
pub fn cmd_from_poll(p: ChannelPoll<ControlCmd>) -> (r: ControlCmd)
    ensures
        r == match p {
            ChannelPoll::Received(c) => c,
            ChannelPoll::Empty => ControlCmd::Noop,
            ChannelPoll::Disconnected => ControlCmd::Stop,
        },
{
    match p {
        ChannelPoll::Received(c) => c,
        ChannelPoll::Empty => ControlCmd::Noop,
        ChannelPoll::Disconnected => ControlCmd::Stop,
    }
}

/// Polls a worker's control channel without blocking: a waiting command, or
/// `Noop` if none, or `Stop` if the channel's sending side is gone.
pub fn cmd_from_channel(rx: &Receiver<ControlCmd>) -> ControlCmd {
    cmd_from_poll(try_recv_poll(rx))
}

// ---------------------------------------------------------------------------
// Subscription filter: which datagrams one generator batch produces.
// ---------------------------------------------------------------------------

/// Whether `ticker` is one of the subscribed names (set membership: order
/// and multiplicity of the subscription list are irrelevant).
pub open spec fn subscribed(need: Seq<Seq<char>>, ticker: Seq<char>) -> bool {
    exists|i: int| 0 <= i < need.len() && need[i] == ticker
}

/// The datagram payloads a batch produces under a subscription: one encoded
/// `Quote` message per subscribed quote, in batch order.
pub open spec fn spec_datagrams(
    quotes: Seq<crate::protocol::QuoteModel>,
    need: Seq<Seq<char>>,
) -> Seq<Seq<u8>>
    decreases quotes.len(),
{
    if quotes.len() == 0 {
        Seq::<Seq<u8>>::empty()
    } else {
        let init = spec_datagrams(quotes.drop_last(), need);
        if subscribed(need, quotes.last().ticker) {
            init.push(spec_encode_message(MessageModel::Quote(quotes.last())))
        } else {
            init
        }
    }
}

/// Whether `d` is the encoding of a quote of the batch whose ticker is
/// subscribed.
pub open spec fn spec_is_subscribed_datagram(
    quotes: Seq<crate::protocol::QuoteModel>,
    need: Seq<Seq<char>>,
    d: Seq<u8>,
) -> bool {
    exists|i: int|
        0 <= i < quotes.len() && subscribed(need, #[trigger] quotes[i].ticker) && d
            == spec_encode_message(MessageModel::Quote(quotes[i]))
}

/// A datagram of a shorter batch is a datagram of the extended batch.
proof fn lemma_subscribed_datagram_extend(
    quotes: Seq<crate::protocol::QuoteModel>,
    need: Seq<Seq<char>>,
    d: Seq<u8>,
)
    requires
        quotes.len() > 0,
        spec_is_subscribed_datagram(quotes.drop_last(), need, d),
    ensures
        spec_is_subscribed_datagram(quotes, need, d),
{
    let i = choose|i: int|
        0 <= i < quotes.drop_last().len() && subscribed(
            need,
            #[trigger] quotes.drop_last()[i].ticker,
        ) && d == spec_encode_message(MessageModel::Quote(quotes.drop_last()[i]));
    assert(quotes.drop_last()[i] == quotes[i]);
    assert(subscribed(need, quotes[i].ticker) && d == spec_encode_message(
        MessageModel::Quote(quotes[i]),
    ));
}

/// Every datagram a batch produces is the encoding of a quote of that batch
/// whose ticker is subscribed: a streamer only emits datagrams for tickers
/// in its current subscription set.
pub proof fn lemma_datagrams_only_subscribed(
    quotes: Seq<crate::protocol::QuoteModel>,
    need: Seq<Seq<char>>,
)
    ensures
        forall|k: int|
            0 <= k < spec_datagrams(quotes, need).len() ==> spec_is_subscribed_datagram(
                quotes,
                need,
                #[trigger] spec_datagrams(quotes, need)[k],
            ),
    decreases quotes.len(),
{
    if quotes.len() > 0 {
        lemma_datagrams_only_subscribed(quotes.drop_last(), need);
        let init = spec_datagrams(quotes.drop_last(), need);
        let whole = spec_datagrams(quotes, need);
        let last: int = quotes.len() - 1;
        assert forall|k: int| 0 <= k < whole.len() implies spec_is_subscribed_datagram(
            quotes,
            need,
            whole[k],
        ) by {
            if k < init.len() {
                assert(whole[k] == init[k]);
                assert(spec_is_subscribed_datagram(quotes.drop_last(), need, init[k]));
                lemma_subscribed_datagram_extend(quotes, need, init[k]);
            } else {
                assert(subscribed(need, quotes.last().ticker));
                assert(whole[k] == spec_encode_message(MessageModel::Quote(quotes.last())));
                assert(quotes.last() == quotes[last]);
                assert(subscribed(need, quotes[last].ticker) && whole[k] == spec_encode_message(
                    MessageModel::Quote(quotes[last]),
                ));
            }
        }
    }
}

/// A copy of a quote with the same value.
fn clone_quote(q: &StockQuote) -> (r: StockQuote)
    ensures
        r@ == q@,
{
    StockQuote {
        ticker: q.ticker.clone(),
        price_bits: q.price_bits,
        volume: q.volume,
        timestamp: q.timestamp,
    }
}

/// Whether the name is in the subscription list.
fn contains_ticker(need: &Vec<String>, name: &String) -> (r: bool)
    ensures
        r == subscribed(need.deep_view(), name@),
{
    let mut i: usize = 0;
    while i < need.len()
        invariant
            i <= need@.len(),
            forall|j: int| 0 <= j < i ==> need.deep_view()[j] != name@,
        decreases need@.len() - i,
    {
        if need[i] == *name {
            proof {
                assert(need.deep_view()[i as int] == name@);
            }
            return true;
        }
        i = i + 1;
    }
    false
}

/// The datagram payloads to send for one batch under a subscription: for
/// each quote whose ticker is subscribed, in batch order, the encoded
/// `Quote` message. Fails with `ProtocolError` if a subscribed quote does
/// not fit a datagram, as no message the system sends may exceed
/// `MAX_SIZE_DATAGRAM` bytes.
#[verifier::loop_isolation(false)]
pub fn datagrams_for_batch(quotes: &Vec<StockQuote>, need_quotes: &Vec<String>) -> (r: Result<
    Vec<Vec<u8>>,
    QuoteError,
>)
    ensures
        match r {
            Ok(v) => {
                &&& v.deep_view() == spec_datagrams(quotes.deep_view(), need_quotes.deep_view())
                &&& forall|k: int| 0 <= k < v@.len() ==> (#[trigger] v@[k])@.len()
                    <= MAX_SIZE_DATAGRAM
            },
            Err(e) => {
                &&& e == QuoteError::ProtocolError
                &&& exists|i: int|
                    0 <= i < quotes@.len() && subscribed(
                        need_quotes.deep_view(),
                        (#[trigger] quotes@[i])@.ticker,
                    ) && spec_encode_message(MessageModel::Quote(quotes@[i]@)).len()
                        > MAX_SIZE_DATAGRAM
            },
        },
{
    let mut out: Vec<Vec<u8>> = Vec::new();
    let n = quotes.len();
    let mut i: usize = 0;
    while i < n
        invariant
            i <= n,
            out.deep_view() == spec_datagrams(
                quotes.deep_view().take(i as int),
                need_quotes.deep_view(),
            ),
            forall|k: int| 0 <= k < out@.len() ==> (#[trigger] out@[k])@.len() <= MAX_SIZE_DATAGRAM,
        decreases n - i,
    {
        proof {
            assert(quotes.deep_view().take(i + 1).drop_last() =~= quotes.deep_view().take(
                i as int,
            ));
            assert(quotes.deep_view().take(i + 1).last() == quotes.deep_view()[i as int]);
            assert(quotes.deep_view()[i as int].ticker == quotes@[i as int].ticker@);
        }
        if contains_ticker(need_quotes, &quotes[i].ticker) {
            let ghost old_out = out.deep_view();
            let msg = Message::Quote(QuoteRespMessage { quote: clone_quote(&quotes[i]) });
            let payload = encode_message(&msg);
            if payload.len() > MAX_SIZE_DATAGRAM {
                return Err(QuoteError::ProtocolError);
            }
            proof {
                assert(payload.deep_view() =~= payload@);
                assert(quotes.deep_view()[i as int] == quotes@[i as int]@);
                assert(payload@ == spec_encode_message(
                    MessageModel::Quote(quotes.deep_view()[i as int]),
                ));
            }
            out.push(payload);
            proof {
                assert(out.deep_view() =~= old_out.push(
                    spec_encode_message(MessageModel::Quote(quotes.deep_view()[i as int])),
                ));
            }
        }
        i = i + 1;
    }
    proof {
        assert(quotes.deep_view().take(n as int) =~= quotes.deep_view());
    }
    Ok(out)
}

// ---------------------------------------------------------------------------
// The streamer's state machine: subscription and liveness.
// ---------------------------------------------------------------------------

/// The mathematical value of a [`ControlCmd`].
pub enum ControlCmdModel {
    /// Stop the worker.
    Stop,
    /// Replace the subscription.
    Quotes(crate::protocol::TickerReqModel),
    /// No command.
    Noop,
}

impl View for ControlCmd {
    type V = ControlCmdModel;

    open spec fn view(&self) -> ControlCmdModel {
        match self {
            ControlCmd::Stop => ControlCmdModel::Stop,
            ControlCmd::Quotes(t) => ControlCmdModel::Quotes(t@),
            ControlCmd::Noop => ControlCmdModel::Noop,
        }
    }
}

/// The state a streamer keeps between ticks: the active subscription (none
/// until the first `Quotes` command arrives) and how many consecutive ping
/// checks found no datagram.
pub struct StreamerState {
    /// The UDP port of the subscriber, once a `Quotes` command arrived.
    pub cur_client_port: Option<u16>,
    /// The subscribed ticker names.
    pub need_quotes: Vec<String>,
    /// Consecutive ping checks that found nothing.
    pub silence_counter: u64,
}

/// The mathematical value of a [`StreamerState`].
pub struct StreamerModel {
    /// The subscriber's port, if subscribed.
    pub port: Option<u16>,
    /// The subscribed names.
    pub need: Seq<Seq<char>>,
    /// The silence counter.
    pub silence: u64,
}

impl View for StreamerState {
    type V = StreamerModel;

    open spec fn view(&self) -> StreamerModel {
        StreamerModel {
            port: self.cur_client_port,
            need: self.need_quotes.deep_view(),
            silence: self.silence_counter,
        }
    }
}

impl StreamerState {
    /// The silence counter never runs past its limit.
    pub open spec fn wf(self) -> bool {
        self.silence_counter <= MAX_SILENT_PING_CHECKS
    }

    /// A fresh streamer: no subscription, no silence observed.
    pub fn new() -> (r: StreamerState)
        ensures
            r@.port is None,
            r@.need == Seq::<Seq<char>>::empty(),
            r@.silence == 0,
            r.wf(),
    {
        let r = StreamerState {
            cur_client_port: None,
            need_quotes: Vec::new(),
            silence_counter: 0,
        };
        proof {
            assert(r@.need =~= Seq::<Seq<char>>::empty());
        }
        r
    }
}

/// What one control command does to a streamer: `Stop` ends the worker,
/// `Quotes` replaces the whole subscription, `Noop` changes nothing. The
/// boolean is whether the worker keeps running.
pub open spec fn spec_streamer_on_command(s: StreamerModel, cmd: ControlCmdModel) -> (
    StreamerModel,
    bool,
) {
    match cmd {
        ControlCmdModel::Stop => (s, false),
        ControlCmdModel::Quotes(t) => (
            StreamerModel { port: Some(t.port), need: t.tickers, silence: s.silence },
            true,
        ),
        ControlCmdModel::Noop => (s, true),
    }
}

/// Applies one control command to the streamer state; returns whether the
/// worker keeps running (`Stop` ends it).
pub fn streamer_on_command(state: &mut StreamerState, cmd: ControlCmd) -> (r: bool)
    ensures
        (final(state)@, r) == spec_streamer_on_command(old(state)@, cmd@),
        old(state).wf() ==> final(state).wf(),
{
    match cmd {
        ControlCmd::Stop => false,
        ControlCmd::Quotes(req) => {
            set_subscription(state, req);
            true
        },
        ControlCmd::Noop => true,
    }
}

/// Installs a subscription.
fn set_subscription(state: &mut StreamerState, req: TickerReqMessage)
    ensures
        final(state)@.port == Some(req.port),
        final(state)@.need == req@.tickers,
        final(state)@.silence == old(state)@.silence,
{
    state.cur_client_port = Some(req.port);
    state.need_quotes = req.tickers;
}

/// Answers one `check_ping` tick, given what the non-blocking receive
/// yielded (`None`: nothing arrived this tick; an empty datagram counts as
/// nothing too). A `Ping` is answered with the encoded `Pong` to send back
/// to the sender; any other decodable or undecodable message is a protocol
/// violation that ends the streamer.
pub fn ping_reply(datagram: Option<&Vec<u8>>) -> (r: Result<Option<Vec<u8>>, QuoteError>)
    ensures
        match r {
            Ok(reply) => match reply {
                None => datagram is None || datagram.unwrap()@.len() == 0,
                Some(pong) => {
                    &&& datagram is Some
                    &&& spec_parse_message(datagram.unwrap()@) == Some(MessageModel::Ping)
                    &&& pong@ == spec_encode_message(MessageModel::Pong)
                },
            },
            Err(e) => {
                &&& e == QuoteError::ProtocolError
                &&& datagram is Some
                &&& datagram.unwrap()@.len() > 0
                &&& spec_parse_message(datagram.unwrap()@) != Some(MessageModel::Ping)
            },
        },
{
    let bytes = match datagram {
        None => {
            return Ok(None);
        },
        Some(b) => b,
    };
    if bytes.len() == 0 {
        return Ok(None);
    }
    match decode_message(bytes.as_slice()) {
        Ok(Message::Ping) => Ok(Some(encode_message(&Message::Pong))),
        Ok(_) => Err(QuoteError::ProtocolError),
        Err(e) => Err(e),
    }
}

/// Accounts one `check_ping` tick's outcome: a received ping clears the
/// silence counter; an empty tick raises it (saturating at the limit).
/// Returns whether the worker keeps running: after
/// `MAX_SILENT_PING_CHECKS` consecutive empty ticks — at least
/// `PING_WAIT_MILLIS` without a ping — the streamer exits.
pub fn streamer_after_ping_check(state: &mut StreamerState, got_ping: bool) -> (r: bool)
    requires
        old(state).wf(),
    ensures
        final(state).wf(),
        final(state)@.port == old(state)@.port,
        final(state)@.need == old(state)@.need,
        got_ping ==> final(state)@.silence == 0 && r == true,
        !got_ping ==> final(state)@.silence == if old(state)@.silence < MAX_SILENT_PING_CHECKS {
            old(state)@.silence + 1
        } else {
            old(state)@.silence as int
        },
        !got_ping ==> r == (final(state)@.silence < MAX_SILENT_PING_CHECKS),
{
    if got_ping {
        state.silence_counter = 0;
        true
    } else {
        if state.silence_counter < MAX_SILENT_PING_CHECKS {
            state.silence_counter = state.silence_counter + 1;
        }
        state.silence_counter < MAX_SILENT_PING_CHECKS
    }
}

/// What one `stream` tick submits to the generator: the subscriber's port
/// and the subscribed names, or nothing while no subscription is active. A
/// streamer that has never received a `Quotes` command therefore emits no
/// datagrams.
pub fn streamer_stream_tick(state: &StreamerState) -> (r: Option<(u16, Vec<String>)>)
    ensures
        match r {
            Some(sub) => state@.port == Some(sub.0) && sub.1.deep_view() == state@.need,
            None => state@.port is None,
        },
{
    match &state.cur_client_port {
        Some(p) => Some((*p, clone_strings(&state.need_quotes))),
        None => None,
    }
}

/// The streamer state after a sequence of control commands.
pub open spec fn spec_apply_commands(s: StreamerModel, cmds: Seq<ControlCmdModel>) -> StreamerModel
    decreases cmds.len(),
{
    if cmds.len() == 0 {
        s
    } else {
        spec_apply_commands(spec_streamer_on_command(s, cmds[0]).0, cmds.drop_first())
    }
}

/// A streamer that has never received a `Quotes` command still has no
/// subscription, whatever other commands it saw — and
/// [`streamer_stream_tick`] submits nothing without a subscription, so such
/// a streamer emits no datagrams.
pub proof fn lemma_never_subscribed_stays_idle(s: StreamerModel, cmds: Seq<ControlCmdModel>)
    requires
        s.port is None,
        forall|i: int| 0 <= i < cmds.len() ==> !((#[trigger] cmds[i]) matches ControlCmdModel::Quotes(_)),
    ensures
        spec_apply_commands(s, cmds).port is None,
    decreases cmds.len(),
{
    if cmds.len() > 0 {
        let s1 = spec_streamer_on_command(s, cmds[0]).0;
        assert(!(cmds[0] matches ControlCmdModel::Quotes(_)));
        assert(s1.port is None);
        assert(forall|i: int|
            0 <= i < cmds.drop_first().len() ==> !((#[trigger] cmds.drop_first()[i])
                matches ControlCmdModel::Quotes(_)));
        lemma_never_subscribed_stays_idle(s1, cmds.drop_first());
    }
}

// ---------------------------------------------------------------------------
// The handler's framing state machine (stream side).
// ---------------------------------------------------------------------------

/// The quote server's root object: the one generator the whole fleet of
/// per-connection workers is served from. The embedding program owns the
/// listener, accepts connections, and runs the workers' loops.
#[derive(Debug)]
pub struct QuotesServer {
    /// The generator; started once, shared through its callback channel.
    pub quotes_generator: crate::quote::QuoteGenerator,
}

impl QuotesServer {
    /// Builds the server from the generator's configuration text (a JSON
    /// array of ticker records): succeeds exactly when the generator's
    /// constructor does, owning exactly that generator, and propagates its
    /// `ConfigError` otherwise (see
    /// [`crate::quote::spec_generator_from_config`]).
    pub fn new(config: &str) -> (r: Result<QuotesServer, QuoteError>)
        ensures
            match r {
                Ok(s) => crate::quote::spec_generator_from_config(
                    config@,
                    Ok(s.quotes_generator),
                ),
                Err(e) => crate::quote::spec_generator_from_config(
                    config@,
                    Err::<crate::quote::QuoteGenerator, QuoteError>(e),
                ),
            },
    {
        match crate::quote::QuoteGenerator::new(config) {
            Ok(g) => Ok(QuotesServer { quotes_generator: g }),
            Err(e) => Err(e),
        }
    }
}

/// Where the handler stands in the framed stream: waiting for the four-byte
/// big-endian length, or waiting for that many payload bytes.
#[derive(PartialEq, Eq, Structural, Clone, Copy, Debug)]
pub enum HandlerState {
    /// Waiting for a four-byte big-endian frame length.
    WaitPackLen,
    /// Waiting for a frame of the given length.
    WaitPack(u32),
}

/// One framing step at the specification level: what a handler poll does to
/// the state and the buffered bytes, and what it yields — nothing while
/// bytes are missing, a decoded `Tickers` request for a complete frame, and
/// a protocol error for a frame that is anything else.
pub open spec fn spec_handler_step(state: HandlerState, buf: Seq<u8>) -> (
    HandlerState,
    Seq<u8>,
    Result<Option<crate::protocol::TickerReqModel>, QuoteError>,
) {
    match state {
        HandlerState::WaitPackLen => if buf.len() >= 4 {
            (HandlerState::WaitPack(spec_u32_from_be_bytes(buf.take(4))), buf.skip(4), Ok(None))
        } else {
            (state, buf, Ok(None))
        },
        HandlerState::WaitPack(len) => if buf.len() >= len {
            match spec_parse_message(buf.take(len as int)) {
                Some(MessageModel::Tickers(t)) => (
                    HandlerState::WaitPackLen,
                    buf.skip(len as int),
                    Ok(Some(t)),
                ),
                _ => (state, buf.skip(len as int), Err(QuoteError::ProtocolError)),
            }
        } else {
            (state, buf, Ok(None))
        },
    }
}

/// One framing step, at the handler's `check_tcp_cmd` cadence. In
/// `WaitPackLen`, four buffered bytes become the next frame's length; with
/// fewer buffered the state stays. In `WaitPack(len)`, `len` buffered bytes
/// are decoded: a `Tickers` request is handed back (to forward to the
/// streamer) and the handler waits for the next length; fewer buffered bytes
/// stay; any other message, or bytes that decode to no message, are a
/// protocol violation that ends the handler. The step is exactly
/// [`spec_handler_step`] on the state and the buffered bytes.
pub fn handler_poll(state: &mut HandlerState, reader: &mut StreamReader) -> (r: Result<
    Option<TickerReqMessage>,
    QuoteError,
>)
    ensures
        ({
            let (post_state, post_buf, res) = spec_handler_step(*old(state), old(reader)@);
            &&& *final(state) == post_state
            &&& final(reader)@ == post_buf
            &&& match res {
                Ok(None) => r matches Ok(None),
                Ok(Some(t)) => r matches Ok(Some(req)) && req@ == t,
                Err(e) => r matches Err(e2) && e2 == e,
            }
        }),
{
    match *state {
        HandlerState::WaitPackLen => {
            match reader.extract_chunk(4) {
                Some(len_bytes) => {
                    let len = u32_from_be_bytes(len_bytes.as_slice());
                    *state = HandlerState::WaitPack(len);
                    Ok(None)
                },
                None => Ok(None),
            }
        },
        HandlerState::WaitPack(len) => {
            match reader.extract_chunk(len as usize) {
                Some(frame) => match decode_message(frame.as_slice()) {
                    Ok(Message::Tickers(t)) => {
                        *state = HandlerState::WaitPackLen;
                        Ok(Some(t))
                    },
                    Ok(_) => Err(QuoteError::ProtocolError),
                    Err(e) => Err(e),
                },
                None => Ok(None),
            }
        },
    }
}

/// The handler after `n` framing steps: the final state, the remaining
/// bytes, and the requests handed back along the way, in order; or the first
/// protocol error met.
pub open spec fn spec_handler_run(state: HandlerState, buf: Seq<u8>, n: nat) -> Result<
    (HandlerState, Seq<u8>, Seq<crate::protocol::TickerReqModel>),
    QuoteError,
>
    decreases n,
{
    if n == 0 {
        Ok((state, buf, Seq::<crate::protocol::TickerReqModel>::empty()))
    } else {
        let (s1, b1, res) = spec_handler_step(state, buf);
        match res {
            Err(e) => Err(e),
            Ok(opt) => match spec_handler_run(s1, b1, (n - 1) as nat) {
                Err(e) => Err(e),
                Ok((s2, b2, out)) => Ok(
                    (
                        s2,
                        b2,
                        match opt {
                            Some(t) => seq![t] + out,
                            None => out,
                        },
                    ),
                ),
            },
        }
    }
}

/// One framed `Tickers` request on the wire: its four-byte big-endian length
/// and its encoding.
pub open spec fn spec_frame(t: crate::protocol::TickerReqModel) -> Seq<u8> {
    crate::protocol::spec_u32_to_be_bytes(
        spec_encode_message(MessageModel::Tickers(t)).len() as u32,
    ) + spec_encode_message(MessageModel::Tickers(t))
}

/// The concatenation of the frames of a sequence of requests.
pub open spec fn spec_frames(reqs: Seq<crate::protocol::TickerReqModel>) -> Seq<u8>
    decreases reqs.len(),
{
    if reqs.len() == 0 {
        Seq::<u8>::empty()
    } else {
        spec_frame(reqs[0]) + spec_frames(reqs.drop_first())
    }
}

/// Framing robustness: a buffer holding exactly the concatenated frames of
/// `k` well-formed `Tickers` requests — in whatever pieces it was fed — is
/// parsed by `2·k` handler steps into exactly those `k` requests, in order,
/// leaving no residual bytes and the handler waiting for the next length.
#[verifier::rlimit(100)]
pub proof fn lemma_handler_parses_all_frames(reqs: Seq<crate::protocol::TickerReqModel>)
    requires
        forall|i: int|
            0 <= i < reqs.len() ==> crate::protocol::spec_msg_wf(
                MessageModel::Tickers(#[trigger] reqs[i]),
            ) && spec_encode_message(MessageModel::Tickers(reqs[i])).len() <= u32::MAX,
    ensures
        spec_handler_run(HandlerState::WaitPackLen, spec_frames(reqs), (2 * reqs.len()) as nat)
            == Ok::<(HandlerState, Seq<u8>, Seq<crate::protocol::TickerReqModel>), QuoteError>(
            (HandlerState::WaitPackLen, Seq::<u8>::empty(), reqs),
        ),
    decreases reqs.len(),
{
    if reqs.len() == 0 {
        assert(spec_frames(reqs) =~= Seq::<u8>::empty());
        assert(reqs =~= Seq::<crate::protocol::TickerReqModel>::empty());
    } else {
        let head = reqs[0];
        let rest = reqs.drop_first();
        let body = spec_encode_message(MessageModel::Tickers(head));
        let len: u32 = body.len() as u32;
        let prefix = crate::protocol::spec_u32_to_be_bytes(len);
        let buf = spec_frames(reqs);
        assert(buf =~= prefix + (body + spec_frames(rest)));
        assert(prefix.len() == 4);

        // First step: the length arrives.
        assert(buf.take(4) =~= prefix);
        crate::protocol::lemma_u32_be_bytes_round_trip(len);
        let (s1, b1, res1) = spec_handler_step(HandlerState::WaitPackLen, buf);
        assert(s1 == HandlerState::WaitPack(len));
        assert(b1 =~= body + spec_frames(rest));
        assert(res1 == Ok::<Option<crate::protocol::TickerReqModel>, QuoteError>(None));

        // Second step: the frame arrives and decodes to the request.
        assert(b1.take(len as int) =~= body);
        crate::protocol::lemma_message_round_trip(MessageModel::Tickers(head));
        let (s2, b2, res2) = spec_handler_step(s1, b1);
        assert(s2 == HandlerState::WaitPackLen);
        assert(b2 =~= spec_frames(rest));
        assert(res2 == Ok::<Option<crate::protocol::TickerReqModel>, QuoteError>(Some(head)));

        assert(forall|i: int|
            0 <= i < rest.len() ==> crate::protocol::spec_msg_wf(
                MessageModel::Tickers(#[trigger] rest[i]),
            ) && spec_encode_message(MessageModel::Tickers(rest[i])).len() <= u32::MAX) by {
            assert(forall|i: int| 0 <= i < rest.len() ==> rest[i] == reqs[i + 1]);
        }
        lemma_handler_parses_all_frames(rest);

        let n = 2 * reqs.len();
        assert(n - 2 == 2 * rest.len());
        assert(spec_handler_run(s2, b2, (n - 2) as nat) == Ok::<
            (HandlerState, Seq<u8>, Seq<crate::protocol::TickerReqModel>),
            QuoteError,
        >((HandlerState::WaitPackLen, Seq::<u8>::empty(), rest)));
        assert(seq![head] + rest =~= reqs);
        assert(spec_handler_run(s1, b1, (n - 1) as nat) == Ok::<
            (HandlerState, Seq<u8>, Seq<crate::protocol::TickerReqModel>),
            QuoteError,
        >((HandlerState::WaitPackLen, Seq::<u8>::empty(), reqs)));
        assert(spec_handler_run(HandlerState::WaitPackLen, buf, n as nat) == Ok::<
            (HandlerState, Seq<u8>, Seq<crate::protocol::TickerReqModel>),
            QuoteError,
        >((HandlerState::WaitPackLen, Seq::<u8>::empty(), reqs)));
    }
}

} // verus!
