//! Wire protocol: the tagged-union message codec and the length-prefixed
//! framing helper for stream transports.
//!
//! The encoding is a compact, self-delimiting binary format: a message is a
//! leading variant discriminant, unsigned integers are variable-length
//! little-endian (seven data bits per byte, high bit announcing a
//! continuation), strings are length-prefixed UTF-8, and the 64-bit price is
//! carried as its eight IEEE-754 bytes, little-endian. Stream payloads put a
//! four-byte big-endian length in front of the encoded message.

use vstd::prelude::*;
use vstd::utf8::{encode_utf8, decode_utf8, valid_utf8, encode_utf8_valid_utf8, encode_utf8_decode_utf8};
use vstd::arithmetic::div_mod::{lemma_fundamental_div_mod, lemma_div_is_ordered};
use crate::QuoteError;

verus! {

/// Maximum size of a datagram payload in bytes. Every datagram message the
/// system sends (quote, ping, pong) must encode within this bound.
pub const MAX_SIZE_DATAGRAM: usize = 100;

/// One generated quote: the unit of output of the system.
#[derive(Debug, PartialEq)]
pub struct StockQuote {
    /// Short symbol of the financial instrument.
    pub ticker: String,
    /// Current price: the IEEE-754 bits of a 64-bit float. The verified
    /// library carries the price opaquely; the embedding program converts.
    pub price_bits: u64,
    /// Current traded volume.
    pub volume: u32,
    /// Monotonically increasing sequence number of the generator batch that
    /// produced this quote (not wall-clock time).
    pub timestamp: u64,
}

/// The mathematical value of a [`StockQuote`].
pub struct QuoteModel {
    /// The symbol's characters.
    pub ticker: Seq<char>,
    /// The price bits.
    pub price_bits: u64,
    /// The volume.
    pub volume: u32,
    /// The batch sequence number.
    pub timestamp: u64,
}

impl View for StockQuote {
    type V = QuoteModel;

    open spec fn view(&self) -> QuoteModel {
        QuoteModel {
            ticker: self.ticker@,
            price_bits: self.price_bits,
            volume: self.volume,
            timestamp: self.timestamp,
        }
    }
}

impl DeepView for StockQuote {
    type V = QuoteModel;

    open spec fn deep_view(&self) -> QuoteModel {
        self.view()
    }
}

/// Server-to-client answer: one quote.
#[derive(Debug, PartialEq)]
pub struct QuoteRespMessage {
    /// The quote.
    pub quote: StockQuote,
}

impl View for QuoteRespMessage {
    type V = QuoteModel;

    open spec fn view(&self) -> QuoteModel {
        self.quote@
    }
}

/// Client-to-server request for quotes.
#[derive(Debug, PartialEq)]
pub struct TickerReqMessage {
    /// UDP port on which the client receives the quotes.
    pub port: u16,
    /// Names of the financial instruments to stream. They should be present
    /// in the server's configuration; unknown names produce no output.
    pub tickers: Vec<String>,
}

/// The mathematical value of a [`TickerReqMessage`].
pub struct TickerReqModel {
    /// The receive port.
    pub port: u16,
    /// The requested symbols.
    pub tickers: Seq<Seq<char>>,
}

impl View for TickerReqMessage {
    type V = TickerReqModel;

    open spec fn view(&self) -> TickerReqModel {
        TickerReqModel { port: self.port, tickers: self.tickers.deep_view() }
    }
}

/// The message kinds of the protocol.
#[derive(Debug, PartialEq)]
pub enum Message {
    /// A quote (server to client, datagram).
    Quote(QuoteRespMessage),
    /// A subscription request (client to server, framed stream).
    Tickers(TickerReqMessage),
    /// Liveness probe (client to server, datagram).
    Ping,
    /// Liveness answer (server to client, datagram).
    Pong,
    /// An unsupported kind.
    Unknown,
}

/// The mathematical value of a [`Message`].
pub enum MessageModel {
    /// A quote.
    Quote(QuoteModel),
    /// A subscription request.
    Tickers(TickerReqModel),
    /// Liveness probe.
    Ping,
    /// Liveness answer.
    Pong,
    /// An unsupported kind.
    Unknown,
}

impl View for Message {
    type V = MessageModel;

    open spec fn view(&self) -> MessageModel {
        match self {
            Message::Quote(q) => MessageModel::Quote(q@),
            Message::Tickers(t) => MessageModel::Tickers(t@),
            Message::Ping => MessageModel::Ping,
            Message::Pong => MessageModel::Pong,
            Message::Unknown => MessageModel::Unknown,
        }
    }
}

// ---------------------------------------------------------------------------
// Variable-length unsigned integers: seven data bits per byte, least
// significant group first, high bit set on every byte but the last.
// ---------------------------------------------------------------------------

/// The largest value `v` such that `v * 128 + 127` still fits in 64 bits;
/// the guard against overflow when a parsed varint gains one more byte.
pub open spec fn varint_carry_max() -> u64 {
    0x01ff_ffff_ffff_ffff
}

/// The variable-length encoding of `x`.
pub open spec fn spec_varint(x: u64) -> Seq<u8>
    decreases x,
{
    if x < 128 {
        seq![x as u8]
    } else {
        seq![(x % 128 + 128) as u8] + spec_varint((x / 128) as u64)
    }
}

/// Parses one variable-length integer from the front of `s`: the value and
/// the number of bytes consumed, or `None` if `s` starts with no complete
/// varint or the value overflows 64 bits.
pub open spec fn spec_parse_varint(s: Seq<u8>) -> Option<(u64, int)>
    decreases s.len(),
{
    if s.len() == 0 {
        None
    } else {
        let b = s[0];
        if b < 128 {
            Some((b as u64, 1))
        } else {
            match spec_parse_varint(s.skip(1)) {
                None => None,
                Some((v, n)) => if v <= varint_carry_max() {
                    Some((((v * 128 + (b - 128)) as u64), n + 1))
                } else {
                    None
                },
            }
        }
    }
}

/// Parsing a varint from its own encoding, whatever follows, yields the
/// encoded value and consumes exactly the encoding.
pub proof fn lemma_varint_round_trip(x: u64, rest: Seq<u8>)
    ensures
        spec_parse_varint(spec_varint(x) + rest) == Some::<(u64, int)>(
            (x, spec_varint(x).len() as int),
        ),
    decreases x,
{
    let s = spec_varint(x) + rest;
    if x < 128 {
        assert(s[0] == x as u8);
    } else {
        let b: u8 = (x % 128 + 128) as u8;
        let hi: u64 = (x / 128) as u64;
        lemma_varint_round_trip(hi, rest);
        assert(s.skip(1) =~= spec_varint(hi) + rest);
        lemma_fundamental_div_mod(x as int, 128);
        lemma_div_is_ordered(x as int, u64::MAX as int, 128);
        assert(hi <= varint_carry_max());
        assert(b - 128 == x % 128);
        assert(hi * 128 + (x % 128) == x as int);
    }
}

/// Appends the variable-length encoding of `x` to `out`.
pub fn encode_varint(x: u64, out: &mut Vec<u8>)
    ensures
        final(out)@ == old(out)@ + spec_varint(x),
    decreases x,
{
    if x < 128 {
        out.push(x as u8);
        proof {
            assert(final(out)@ =~= old(out)@ + spec_varint(x));
        }
    } else {
        out.push((x % 128 + 128) as u8);
        proof {
            lemma_fundamental_div_mod(x as int, 128);
        }
        encode_varint(x / 128, out);
        proof {
            assert(final(out)@ =~= old(out)@ + spec_varint(x));
        }
    }
}

/// Parses one variable-length integer at position `pos` of `bytes`,
/// returning the value and the number of bytes consumed.
pub fn parse_varint(bytes: &[u8], pos: usize) -> (r: Result<(u64, usize), QuoteError>)
    requires
        pos <= bytes@.len(),
    ensures
        match r {
            Ok((v, n)) => {
                &&& spec_parse_varint(bytes@.skip(pos as int)) == Some::<(u64, int)>(
                    (v, n as int),
                )
                &&& n >= 1
                &&& pos + n <= bytes@.len()
            },
            Err(e) => e == QuoteError::ProtocolError && spec_parse_varint(
                bytes@.skip(pos as int),
            ) is None,
        },
    decreases bytes@.len() - pos,
{
    if pos >= bytes.len() {
        proof {
            assert(bytes@.skip(pos as int).len() == 0);
        }
        return Err(QuoteError::ProtocolError);
    }
    let b = bytes[pos];
    proof {
        assert(bytes@.skip(pos as int)[0] == bytes@[pos as int]);
    }
    if b < 128 {
        Ok((b as u64, 1))
    } else {
        proof {
            assert(bytes@.skip(pos as int).skip(1) =~= bytes@.skip(pos as int + 1));
        }
        match parse_varint(bytes, pos + 1) {
            Err(e) => Err(e),
            Ok((v, n)) => {
                if v <= 0x01ff_ffff_ffff_ffff {
                    Ok((v * 128 + (b as u64 - 128), n + 1))
                } else {
                    Err(QuoteError::ProtocolError)
                }
            },
        }
    }
}

// ---------------------------------------------------------------------------
// Four-byte big-endian length prefix for stream transports.
// ---------------------------------------------------------------------------

/// The four big-endian bytes of `x`.
pub open spec fn spec_u32_to_be_bytes(x: u32) -> Seq<u8> {
    seq![
        (x / 0x100_0000) as u8,
        ((x / 0x1_0000) % 0x100) as u8,
        ((x / 0x100) % 0x100) as u8,
        (x % 0x100) as u8,
    ]
}

/// The value of four big-endian bytes.
pub open spec fn spec_u32_from_be_bytes(s: Seq<u8>) -> u32
    recommends
        s.len() == 4,
{
    (s[0] as u32 * 0x100_0000 + s[1] as u32 * 0x1_0000 + s[2] as u32 * 0x100 + s[3] as u32) as u32
}

/// The big-endian bytes of a value read back give the value.
pub proof fn lemma_u32_be_bytes_round_trip(x: u32)
    ensures
        spec_u32_from_be_bytes(spec_u32_to_be_bytes(x)) == x,
{
    assert(((x / 0x100_0000) % 0x100) as u32 * 0x100_0000 + ((x / 0x1_0000) % 0x100) as u32
        * 0x1_0000 + ((x / 0x100) % 0x100) as u32 * 0x100 + (x % 0x100) as u32 == x)
        by (bit_vector);
    assert(x / 0x100_0000 < 0x100);
}

/// The four big-endian bytes of `x`, as a vector.
pub fn u32_to_be_bytes(x: u32) -> (r: Vec<u8>)
    ensures
        r@ == spec_u32_to_be_bytes(x),
{
    let mut out: Vec<u8> = Vec::new();
    out.push((x / 0x100_0000) as u8);
    out.push(((x / 0x1_0000) % 0x100) as u8);
    out.push(((x / 0x100) % 0x100) as u8);
    out.push((x % 0x100) as u8);
    proof {
        assert(out@ =~= spec_u32_to_be_bytes(x));
    }
    out
}

/// Reads a big-endian 32-bit value from four bytes.
pub fn u32_from_be_bytes(bytes: &[u8]) -> (r: u32)
    requires
        bytes@.len() == 4,
    ensures
        r == spec_u32_from_be_bytes(bytes@),
{
    let b0 = bytes[0] as u32;
    let b1 = bytes[1] as u32;
    let b2 = bytes[2] as u32;
    let b3 = bytes[3] as u32;
    assert(b0 * 0x100_0000 + b1 * 0x1_0000 + b2 * 0x100 + b3 <= 0xffff_ffff) by {
        assert(b0 <= 255 && b1 <= 255 && b2 <= 255 && b3 <= 255);
    };
    b0 * 0x100_0000 + b1 * 0x1_0000 + b2 * 0x100 + b3
}

// ---------------------------------------------------------------------------
// Strings: a varint byte length followed by that many UTF-8 bytes.
// ---------------------------------------------------------------------------

/// Relies on `str::as_bytes`: the bytes of a string slice are exactly the
/// UTF-8 encoding of its characters.
#[verifier::external_body]
fn str_utf8_bytes(s: &str) -> (r: Vec<u8>)
    ensures
        r@ == encode_utf8(s@),
{
    s.as_bytes().to_vec()
}

/// Relies on `String::from_utf8`: it succeeds exactly on valid UTF-8 input
/// and returns the string whose characters the input bytes encode.
#[verifier::external_body]
fn string_from_utf8_bytes(bytes: Vec<u8>) -> (r: Option<String>)
    ensures
        r is Some <==> valid_utf8(bytes@),
        r matches Some(s) ==> s@ == decode_utf8(bytes@),
{
    String::from_utf8(bytes).ok()
}

/// The encoding of one string: its UTF-8 byte length as a varint, then the
/// UTF-8 bytes themselves.
pub open spec fn spec_encode_str(s: Seq<char>) -> Seq<u8> {
    spec_varint(encode_utf8(s).len() as u64) + encode_utf8(s)
}

/// Parses one length-prefixed string from the front of `s`: the characters
/// and the number of bytes consumed.
pub open spec fn spec_parse_str(s: Seq<u8>) -> Option<(Seq<char>, int)> {
    match spec_parse_varint(s) {
        None => None,
        Some((len, n)) => if n + len <= s.len() {
            let bytes = s.skip(n).take(len as int);
            if valid_utf8(bytes) {
                Some((decode_utf8(bytes), n + len))
            } else {
                None
            }
        } else {
            None
        },
    }
}

/// Parsing a string from its own encoding, whatever follows, yields the
/// encoded characters and consumes exactly the encoding.
pub proof fn lemma_str_round_trip(s: Seq<char>, rest: Seq<u8>)
    requires
        encode_utf8(s).len() <= u64::MAX,
    ensures
        spec_parse_str(spec_encode_str(s) + rest) == Some::<(Seq<char>, int)>(
            (s, spec_encode_str(s).len() as int),
        ),
{
    broadcast use encode_utf8_valid_utf8, encode_utf8_decode_utf8;

    let bytes = encode_utf8(s);
    let len: u64 = bytes.len() as u64;
    let whole = spec_encode_str(s) + rest;
    assert(whole =~= spec_varint(len) + (bytes + rest));
    lemma_varint_round_trip(len, bytes + rest);
    let n = spec_varint(len).len() as int;
    assert(whole.skip(n) =~= bytes + rest);
    assert(whole.skip(n).take(len as int) =~= bytes);
}

/// Appends the encoding of the string to `out`.
pub fn encode_str(s: &str, out: &mut Vec<u8>)
    ensures
        final(out)@ == old(out)@ + spec_encode_str(s@),
{
    let mut bytes = str_utf8_bytes(s);
    encode_varint(bytes.len() as u64, out);
    out.append(&mut bytes);
    proof {
        assert(final(out)@ =~= old(out)@ + spec_encode_str(s@));
    }
}

/// Parses one length-prefixed string at position `pos` of `bytes`,
/// returning the string and the number of bytes consumed.
pub fn parse_str(bytes: &[u8], pos: usize) -> (r: Result<(String, usize), QuoteError>)
    requires
        pos <= bytes@.len(),
    ensures
        match r {
            Ok((s, n)) => {
                &&& spec_parse_str(bytes@.skip(pos as int)) == Some::<(Seq<char>, int)>(
                    (s@, n as int),
                )
                &&& n >= 1
                &&& pos + n <= bytes@.len()
            },
            Err(e) => e == QuoteError::ProtocolError && spec_parse_str(
                bytes@.skip(pos as int),
            ) is None,
        },
{
    let ghost sub = bytes@.skip(pos as int);
    let (len64, n) = match parse_varint(bytes, pos) {
        Ok(v) => v,
        Err(e) => {
            return Err(e);
        },
    };
    let remaining = bytes.len() - (pos + n);
    if len64 > remaining as u64 {
        return Err(QuoteError::ProtocolError);
    }
    let len = len64 as usize;
    let chunk_slice = vstd::slice::slice_subrange(bytes, pos + n, pos + n + len);
    let chunk = vstd::slice::slice_to_vec(chunk_slice);
    proof {
        assert(chunk@ =~= sub.skip(n as int).take(len64 as int));
    }
    match string_from_utf8_bytes(chunk) {
        Some(s) => Ok((s, n + len)),
        None => Err(QuoteError::ProtocolError),
    }
}

// ---------------------------------------------------------------------------
// Quotes: symbol, price bits (eight little-endian bytes), volume, timestamp.
// ---------------------------------------------------------------------------

/// The encoding of one quote.
pub open spec fn spec_encode_quote(q: QuoteModel) -> Seq<u8> {
    spec_encode_str(q.ticker) + vstd::bytes::spec_u64_to_le_bytes(q.price_bits) + spec_varint(
        q.volume as u64,
    ) + spec_varint(q.timestamp)
}

/// Parses one quote from the front of `s`: the quote and the number of bytes
/// consumed.
pub open spec fn spec_parse_quote(s: Seq<u8>) -> Option<(QuoteModel, int)> {
    match spec_parse_str(s) {
        None => None,
        Some((ticker, n1)) => {
            let s1 = s.skip(n1);
            if s1.len() < 8 {
                None
            } else {
                let price_bits = vstd::bytes::spec_u64_from_le_bytes(s1.take(8));
                let s2 = s1.skip(8);
                match spec_parse_varint(s2) {
                    None => None,
                    Some((vol, n2)) => if vol <= u32::MAX as u64 {
                        match spec_parse_varint(s2.skip(n2)) {
                            None => None,
                            Some((ts, n3)) => Some(
                                (
                                    QuoteModel {
                                        ticker,
                                        price_bits,
                                        volume: vol as u32,
                                        timestamp: ts,
                                    },
                                    n1 + 8 + n2 + n3,
                                ),
                            ),
                        }
                    } else {
                        None
                    },
                }
            }
        },
    }
}

/// Whether a quote's symbol is short enough to encode. Always true of a
/// quote held in memory; stated for the spec-level round trip.
pub open spec fn spec_quote_wf(q: QuoteModel) -> bool {
    encode_utf8(q.ticker).len() <= u64::MAX
}

/// Parsing a quote from its own encoding, whatever follows, yields the
/// encoded quote and consumes exactly the encoding.
pub proof fn lemma_quote_round_trip(q: QuoteModel, rest: Seq<u8>)
    requires
        spec_quote_wf(q),
    ensures
        spec_parse_quote(spec_encode_quote(q) + rest) == Some::<(QuoteModel, int)>(
            (q, spec_encode_quote(q).len() as int),
        ),
{
    vstd::bytes::lemma_auto_spec_u64_to_from_le_bytes();
    let price = vstd::bytes::spec_u64_to_le_bytes(q.price_bits);
    let vol = spec_varint(q.volume as u64);
    let ts = spec_varint(q.timestamp);
    let whole = spec_encode_quote(q) + rest;
    assert(whole =~= spec_encode_str(q.ticker) + (price + vol + ts + rest));
    lemma_str_round_trip(q.ticker, price + vol + ts + rest);
    let n1 = spec_encode_str(q.ticker).len() as int;
    let s1 = whole.skip(n1);
    assert(s1 =~= price + vol + ts + rest);
    assert(s1.take(8) =~= price);
    let s2 = s1.skip(8);
    assert(s2 =~= vol + (ts + rest));
    lemma_varint_round_trip(q.volume as u64, ts + rest);
    let n2 = vol.len() as int;
    assert(s2.skip(n2) =~= ts + rest);
    lemma_varint_round_trip(q.timestamp, rest);
}

/// Appends the encoding of the quote to `out`.
pub fn encode_quote(q: &StockQuote, out: &mut Vec<u8>)
    ensures
        final(out)@ == old(out)@ + spec_encode_quote(q@),
{
    encode_str(string_as_str(&q.ticker), out);
    let mut price = vstd::bytes::u64_to_le_bytes(q.price_bits);
    out.append(&mut price);
    encode_varint(q.volume as u64, out);
    encode_varint(q.timestamp, out);
    proof {
        assert(final(out)@ =~= old(out)@ + spec_encode_quote(q@));
    }
}

/// The string slice of a `String`; the view is unchanged.
fn string_as_str(s: &String) -> (r: &str)
    ensures
        r@ == s@,
{
    s.as_str()
}

/// Parses one quote at position `pos` of `bytes`, returning the quote and
/// the number of bytes consumed.
pub fn parse_quote(bytes: &[u8], pos: usize) -> (r: Result<(StockQuote, usize), QuoteError>)
    requires
        pos <= bytes@.len(),
    ensures
        match r {
            Ok((q, n)) => {
                &&& spec_parse_quote(bytes@.skip(pos as int)) == Some::<(QuoteModel, int)>(
                    (q@, n as int),
                )
                &&& pos + n <= bytes@.len()
            },
            Err(e) => e == QuoteError::ProtocolError && spec_parse_quote(
                bytes@.skip(pos as int),
            ) is None,
        },
{
    let ghost sub = bytes@.skip(pos as int);
    let (ticker, n1) = match parse_str(bytes, pos) {
        Ok(v) => v,
        Err(e) => {
            return Err(e);
        },
    };
    proof {
        assert(sub.skip(n1 as int) =~= bytes@.skip(pos + n1 as int));
    }
    if bytes.len() - (pos + n1) < 8 {
        return Err(QuoteError::ProtocolError);
    }
    let price_slice = vstd::slice::slice_subrange(bytes, pos + n1, pos + n1 + 8);
    proof {
        assert(price_slice@ =~= sub.skip(n1 as int).take(8));
    }
    let price_bits = vstd::bytes::u64_from_le_bytes(price_slice);
    proof {
        assert(sub.skip(n1 as int).skip(8) =~= bytes@.skip(pos + n1 + 8));
    }
    let (vol64, n2) = match parse_varint(bytes, pos + n1 + 8) {
        Ok(v) => v,
        Err(e) => {
            return Err(e);
        },
    };
    if vol64 > u32::MAX as u64 {
        return Err(QuoteError::ProtocolError);
    }
    proof {
        assert(sub.skip(n1 as int).skip(8).skip(n2 as int) =~= bytes@.skip(
            pos + n1 + 8 + n2 as int,
        ));
    }
    let (ts, n3) = match parse_varint(bytes, pos + n1 + 8 + n2) {
        Ok(v) => v,
        Err(e) => {
            return Err(e);
        },
    };
    let q = StockQuote { ticker, price_bits, volume: vol64 as u32, timestamp: ts };
    Ok((q, n1 + 8 + n2 + n3))
}

// ---------------------------------------------------------------------------
// Whole messages: a varint discriminant, then the variant's payload.
// ---------------------------------------------------------------------------

/// The concatenated encodings of a sequence of strings.
pub open spec fn spec_encode_str_seq(names: Seq<Seq<char>>) -> Seq<u8>
    decreases names.len(),
{
    if names.len() == 0 {
        Seq::<u8>::empty()
    } else {
        spec_encode_str(names[0]) + spec_encode_str_seq(names.drop_first())
    }
}

/// Parses `count` consecutive length-prefixed strings from the front of `s`:
/// the strings and the number of bytes consumed.
pub open spec fn spec_parse_str_seq(s: Seq<u8>, count: int) -> Option<(Seq<Seq<char>>, int)>
    decreases count,
{
    if count <= 0 {
        Some((Seq::<Seq<char>>::empty(), 0))
    } else {
        match spec_parse_str(s) {
            None => None,
            Some((name, n)) => match spec_parse_str_seq(s.skip(n), count - 1) {
                None => None,
                Some((rest_names, m)) => Some((seq![name] + rest_names, n + m)),
            },
        }
    }
}

/// A parsed varint consumed at least one byte and no more than there were.
pub proof fn lemma_parse_varint_bounds(s: Seq<u8>)
    ensures
        spec_parse_varint(s) matches Some((v, n)) ==> 1 <= n <= s.len(),
    decreases s.len(),
{
    if s.len() > 0 && s[0] >= 128 {
        lemma_parse_varint_bounds(s.skip(1));
    }
}

/// A parsed string consumed at least one byte and no more than there were.
pub proof fn lemma_parse_str_bounds(s: Seq<u8>)
    ensures
        spec_parse_str(s) matches Some((name, n)) ==> 1 <= n <= s.len(),
{
    lemma_parse_varint_bounds(s);
}

/// Parsing `count` strings yields `count` names and consumes at least one
/// byte per name.
pub proof fn lemma_parse_str_seq_bounds(s: Seq<u8>, count: int)
    ensures
        spec_parse_str_seq(s, count) matches Some((names, m)) ==> names.len() == if count <= 0 {
            0
        } else {
            count
        } && (if count <= 0 {
            0
        } else {
            count
        }) <= m <= s.len(),
    decreases count,
{
    if count > 0 {
        lemma_parse_str_bounds(s);
        if spec_parse_str(s) is Some {
            let (name, n) = spec_parse_str(s).unwrap();
            lemma_parse_str_seq_bounds(s.skip(n), count - 1);
        }
    }
}

/// Parsing a sequence of strings from its own encoding, whatever follows,
/// yields the encoded strings and consumes exactly the encoding.
pub proof fn lemma_str_seq_round_trip(names: Seq<Seq<char>>, rest: Seq<u8>)
    requires
        forall|i: int| 0 <= i < names.len() ==> encode_utf8(#[trigger] names[i]).len() <= u64::MAX,
    ensures
        spec_parse_str_seq(spec_encode_str_seq(names) + rest, names.len() as int) == Some::<
            (Seq<Seq<char>>, int),
        >((names, spec_encode_str_seq(names).len() as int)),
    decreases names.len(),
{
    if names.len() == 0 {
        assert(names =~= Seq::<Seq<char>>::empty());
    } else {
        let head = names[0];
        let tail = names.drop_first();
        let tail_enc = spec_encode_str_seq(tail);
        let whole = spec_encode_str_seq(names) + rest;
        assert(whole =~= spec_encode_str(head) + (tail_enc + rest));
        lemma_str_round_trip(head, tail_enc + rest);
        let n = spec_encode_str(head).len() as int;
        assert(whole.skip(n) =~= tail_enc + rest);
        lemma_str_seq_round_trip(tail, rest);
        assert(seq![head] + tail =~= names);
    }
}

/// Appending one more string to a sequence appends its encoding.
pub proof fn lemma_encode_str_seq_push(names: Seq<Seq<char>>, x: Seq<char>)
    ensures
        spec_encode_str_seq(names.push(x)) == spec_encode_str_seq(names) + spec_encode_str(x),
    decreases names.len(),
{
    if names.len() == 0 {
        assert(names.push(x)[0] == x);
        assert(names.push(x).drop_first() =~= Seq::<Seq<char>>::empty());
        assert(spec_encode_str_seq(Seq::<Seq<char>>::empty()) == Seq::<u8>::empty());
        assert(spec_encode_str_seq(names.push(x)) == spec_encode_str(x) + Seq::<u8>::empty());
        assert(spec_encode_str(x) + Seq::<u8>::empty() =~= spec_encode_str(x));
        assert(spec_encode_str_seq(names) + spec_encode_str(x) =~= spec_encode_str(x));
    } else {
        assert(names.push(x)[0] == names[0]);
        assert(names.push(x).drop_first() =~= names.drop_first().push(x));
        lemma_encode_str_seq_push(names.drop_first(), x);
        assert(spec_encode_str_seq(names.push(x)) =~= spec_encode_str_seq(names)
            + spec_encode_str(x));
    }
}

/// The encoding of a message: the variant's discriminant as a varint, then
/// the variant's payload.
pub open spec fn spec_encode_message(m: MessageModel) -> Seq<u8> {
    match m {
        MessageModel::Quote(q) => spec_varint(0) + spec_encode_quote(q),
        MessageModel::Tickers(t) => spec_varint(1) + spec_varint(t.port as u64) + spec_varint(
            t.tickers.len() as u64,
        ) + spec_encode_str_seq(t.tickers),
        MessageModel::Ping => spec_varint(2),
        MessageModel::Pong => spec_varint(3),
        MessageModel::Unknown => spec_varint(4),
    }
}

/// Parses one message from the front of `s`: the message and the number of
/// bytes consumed.
pub open spec fn spec_parse_message_prefix(s: Seq<u8>) -> Option<(MessageModel, int)> {
    match spec_parse_varint(s) {
        None => None,
        Some((tag, n)) => if tag == 0 {
            match spec_parse_quote(s.skip(n)) {
                None => None,
                Some((q, m)) => Some((MessageModel::Quote(q), n + m)),
            }
        } else if tag == 1 {
            match spec_parse_varint(s.skip(n)) {
                None => None,
                Some((port, n1)) => if port <= u16::MAX as u64 {
                    match spec_parse_varint(s.skip(n + n1)) {
                        None => None,
                        Some((count, n2)) => match spec_parse_str_seq(
                            s.skip(n + n1 + n2),
                            count as int,
                        ) {
                            None => None,
                            Some((names, m)) => Some(
                                (
                                    MessageModel::Tickers(
                                        TickerReqModel { port: port as u16, tickers: names },
                                    ),
                                    n + n1 + n2 + m,
                                ),
                            ),
                        },
                    }
                } else {
                    None
                },
            }
        } else if tag == 2 {
            Some((MessageModel::Ping, n))
        } else if tag == 3 {
            Some((MessageModel::Pong, n))
        } else if tag == 4 {
            Some((MessageModel::Unknown, n))
        } else {
            None
        },
    }
}

/// Parses a complete message: `s` must hold exactly one encoded message and
/// nothing else.
pub open spec fn spec_parse_message(s: Seq<u8>) -> Option<MessageModel> {
    match spec_parse_message_prefix(s) {
        None => None,
        Some((m, n)) => if n == s.len() {
            Some(m)
        } else {
            None
        },
    }
}

/// Whether a message's strings are short enough to encode, and its ticker
/// list short enough to count. Always true of a message held in memory;
/// stated for the spec-level round trip.
pub open spec fn spec_msg_wf(m: MessageModel) -> bool {
    match m {
        MessageModel::Quote(q) => spec_quote_wf(q),
        MessageModel::Tickers(t) => t.tickers.len() <= u64::MAX && (forall|i: int|
            0 <= i < t.tickers.len() ==> encode_utf8(#[trigger] t.tickers[i]).len()
                <= u64::MAX),
        _ => true,
    }
}

/// Parsing a message from its own encoding, whatever follows, yields the
/// encoded message and consumes exactly the encoding.
#[verifier::rlimit(50)]
pub proof fn lemma_message_prefix_round_trip(m: MessageModel, rest: Seq<u8>)
    requires
        spec_msg_wf(m),
    ensures
        spec_parse_message_prefix(spec_encode_message(m) + rest) == Some::<(MessageModel, int)>(
            (m, spec_encode_message(m).len() as int),
        ),
{
    let whole = spec_encode_message(m) + rest;
    match m {
        MessageModel::Quote(q) => {
            assert(whole =~= spec_varint(0) + (spec_encode_quote(q) + rest));
            lemma_varint_round_trip(0, spec_encode_quote(q) + rest);
            assert(whole.skip(1) =~= spec_encode_quote(q) + rest);
            lemma_quote_round_trip(q, rest);
        },
        MessageModel::Tickers(t) => {
            let port_enc = spec_varint(t.port as u64);
            let count_enc = spec_varint(t.tickers.len() as u64);
            let names_enc = spec_encode_str_seq(t.tickers);
            assert(whole =~= spec_varint(1) + (port_enc + (count_enc + (names_enc + rest))));
            lemma_varint_round_trip(1, port_enc + (count_enc + (names_enc + rest)));
            assert(whole.skip(1) =~= port_enc + (count_enc + (names_enc + rest)));
            lemma_varint_round_trip(t.port as u64, count_enc + (names_enc + rest));
            let n1 = port_enc.len() as int;
            assert(whole.skip(1 + n1) =~= count_enc + (names_enc + rest));
            lemma_varint_round_trip(t.tickers.len() as u64, names_enc + rest);
            let n2 = count_enc.len() as int;
            assert(whole.skip(1 + n1 + n2) =~= names_enc + rest);
            lemma_str_seq_round_trip(t.tickers, rest);
        },
        MessageModel::Ping => {
            lemma_varint_round_trip(2, rest);
            assert(whole =~= spec_varint(2) + rest);
        },
        MessageModel::Pong => {
            lemma_varint_round_trip(3, rest);
            assert(whole =~= spec_varint(3) + rest);
        },
        MessageModel::Unknown => {
            lemma_varint_round_trip(4, rest);
            assert(whole =~= spec_varint(4) + rest);
        },
    }
}

/// Round trip: decoding the encoding of any message gives the message back.
pub proof fn lemma_message_round_trip(m: MessageModel)
    requires
        spec_msg_wf(m),
    ensures
        spec_parse_message(spec_encode_message(m)) == Some(m),
{
    lemma_message_prefix_round_trip(m, Seq::<u8>::empty());
    assert(spec_encode_message(m) + Seq::<u8>::empty() =~= spec_encode_message(m));
}

/// Encodes a message.
pub fn encode_message(msg: &Message) -> (r: Vec<u8>)
    ensures
        r@ == spec_encode_message(msg@),
{
    let mut out: Vec<u8> = Vec::new();
    match msg {
        Message::Quote(q) => {
            encode_varint(0, &mut out);
            encode_quote(&q.quote, &mut out);
        },
        Message::Tickers(t) => {
            encode_varint(1, &mut out);
            encode_varint(t.port as u64, &mut out);
            encode_varint(t.tickers.len() as u64, &mut out);
            let ghost prefix = out@;
            let n = t.tickers.len();
            let mut i: usize = 0;
            while i < n
                invariant
                    n == t.tickers@.len(),
                    i <= n,
                    out@ == prefix + spec_encode_str_seq(t.tickers.deep_view().take(i as int)),
                decreases n - i,
            {
                encode_str(string_as_str(&t.tickers[i]), &mut out);
                proof {
                    assert(t.tickers.deep_view().take(i + 1) =~= t.tickers.deep_view().take(
                        i as int,
                    ).push(t.tickers.deep_view()[i as int]));
                    lemma_encode_str_seq_push(
                        t.tickers.deep_view().take(i as int),
                        t.tickers.deep_view()[i as int],
                    );
                    assert(t.tickers.deep_view()[i as int] == t.tickers@[i as int]@);
                }
                i = i + 1;
            }
            proof {
                assert(t.tickers.deep_view().take(n as int) =~= t.tickers.deep_view());
            }
        },
        Message::Ping => {
            encode_varint(2, &mut out);
        },
        Message::Pong => {
            encode_varint(3, &mut out);
        },
        Message::Unknown => {
            encode_varint(4, &mut out);
        },
    }
    out
}

/// Decodes a complete message: the bytes must hold exactly one encoded
/// message. Anything else — truncated input, trailing bytes, an unknown
/// discriminant, an oversized field — fails with `ProtocolError`.
#[verifier::loop_isolation(false)]
#[verifier::rlimit(50)]
pub fn decode_message(bytes: &[u8]) -> (r: Result<Message, QuoteError>)
    ensures
        match r {
            Ok(m) => spec_parse_message(bytes@) == Some(m@),
            Err(e) => e == QuoteError::ProtocolError && spec_parse_message(bytes@) is None,
        },
{
    let total = bytes.len();
    proof {
        assert(bytes@.skip(0) =~= bytes@);
    }
    let (tag, n) = match parse_varint(bytes, 0) {
        Ok(v) => v,
        Err(e) => {
            return Err(e);
        },
    };
    if tag == 0 {
        let (q, m) = match parse_quote(bytes, n) {
            Ok(v) => v,
            Err(e) => {
                return Err(e);
            },
        };
        if n + m == bytes.len() {
            Ok(Message::Quote(QuoteRespMessage { quote: q }))
        } else {
            Err(QuoteError::ProtocolError)
        }
    } else if tag == 1 {
        let (port64, n1) = match parse_varint(bytes, n) {
            Ok(v) => v,
            Err(e) => {
                return Err(e);
            },
        };
        if port64 > u16::MAX as u64 {
            return Err(QuoteError::ProtocolError);
        }
        let (count64, n2) = match parse_varint(bytes, n + n1) {
            Ok(v) => v,
            Err(e) => {
                return Err(e);
            },
        };
        let pos0 = n + n1 + n2;
        let ghost tail0 = bytes@.skip(pos0 as int);
        if count64 > (bytes.len() - pos0) as u64 {
            proof {
                lemma_parse_str_seq_bounds(tail0, count64 as int);
            }
            return Err(QuoteError::ProtocolError);
        }
        let count = count64 as usize;
        let mut names: Vec<String> = Vec::new();
        let mut pos: usize = pos0;
        let mut i: usize = 0;
        while i < count
            invariant
                i <= count,
                pos0 <= pos <= bytes@.len(),
                count64 == count,
                tail0 == bytes@.skip(pos0 as int),
                names.deep_view().len() == i,
                spec_parse_str_seq(tail0, count64 as int) == match spec_parse_str_seq(
                    bytes@.skip(pos as int),
                    count64 - i,
                ) {
                    None => None::<(Seq<Seq<char>>, int)>,
                    Some((more, m)) => Some((names.deep_view() + more, (pos - pos0) + m)),
                },
            decreases count - i,
        {
            let (name, consumed) = match parse_str(bytes, pos) {
                Ok(v) => v,
                Err(e) => {
                    proof {
                        assert(spec_parse_str_seq(bytes@.skip(pos as int), count64 - i) is None);
                        assert(spec_parse_str_seq(tail0, count64 as int) is None);
                        assert(spec_parse_message_prefix(bytes@) is None);
                    }
                    return Err(e);
                },
            };
            proof {
                assert(bytes@.skip(pos as int).skip(consumed as int) =~= bytes@.skip(
                    pos + consumed as int,
                ));
            }
            let ghost old_names = names.deep_view();
            names.push(name);
            proof {
                assert(names.deep_view() =~= old_names.push(name@));
                assert forall|more: Seq<Seq<char>>| true implies old_names + (seq![name@] + more)
                    =~= names.deep_view() + more by {}
            }
            pos = pos + consumed;
            i = i + 1;
        }
        if pos == bytes.len() {
            proof {
                assert(spec_parse_str_seq(bytes@.skip(pos as int), 0) == Some::<
                    (Seq<Seq<char>>, int),
                >((Seq::<Seq<char>>::empty(), 0)));
                assert(names.deep_view() + Seq::<Seq<char>>::empty() =~= names.deep_view());
            }
            Ok(Message::Tickers(TickerReqMessage { port: port64 as u16, tickers: names }))
        } else {
            proof {
                assert(spec_parse_str_seq(bytes@.skip(pos as int), 0) == Some::<
                    (Seq<Seq<char>>, int),
                >((Seq::<Seq<char>>::empty(), 0)));
                assert(names.deep_view() + Seq::<Seq<char>>::empty() =~= names.deep_view());
            }
            Err(QuoteError::ProtocolError)
        }
    } else if tag == 2 {
        if n == bytes.len() {
            Ok(Message::Ping)
        } else {
            Err(QuoteError::ProtocolError)
        }
    } else if tag == 3 {
        if n == bytes.len() {
            Ok(Message::Pong)
        } else {
            Err(QuoteError::ProtocolError)
        }
    } else if tag == 4 {
        if n == bytes.len() {
            Ok(Message::Unknown)
        } else {
            Err(QuoteError::ProtocolError)
        }
    } else {
        Err(QuoteError::ProtocolError)
    }
}

/// Puts the four-byte big-endian length of the encoded message in front of
/// the encoding, for stream transports. Fails with `FramingError` on a
/// message too large for a 32-bit length.
pub fn pack_message_with_len(msg: &Message) -> (r: Result<Vec<u8>, QuoteError>)
    ensures
        match r {
            Ok(v) => spec_encode_message(msg@).len() <= u32::MAX && v@ == spec_u32_to_be_bytes(
                spec_encode_message(msg@).len() as u32,
            ) + spec_encode_message(msg@),
            Err(e) => e == QuoteError::FramingError && spec_encode_message(msg@).len()
                > u32::MAX,
        },
{
    let mut body = encode_message(msg);
    if body.len() as u64 > u32::MAX as u64 {
        return Err(QuoteError::FramingError);
    }
    let mut out = u32_to_be_bytes(body.len() as u32);
    out.append(&mut body);
    Ok(out)
}


/// Framing round trip: a length-prefixed message, split back into its
/// four-byte big-endian length and that many payload bytes, parses to the
/// message that was packed.
pub proof fn lemma_frame_round_trip(m: MessageModel)
    requires
        spec_msg_wf(m),
        spec_encode_message(m).len() <= u32::MAX,
    ensures
        ({
            let body = spec_encode_message(m);
            let packed = spec_u32_to_be_bytes(body.len() as u32) + body;
            &&& packed.len() == 4 + body.len()
            &&& spec_u32_from_be_bytes(packed.take(4)) == body.len() as u32
            &&& spec_parse_message(packed.skip(4)) == Some(m)
        }),
{
    let body = spec_encode_message(m);
    let prefix = spec_u32_to_be_bytes(body.len() as u32);
    let packed = prefix + body;
    assert(packed.take(4) =~= prefix);
    lemma_u32_be_bytes_round_trip(body.len() as u32);
    assert(packed.skip(4) =~= body);
    lemma_message_round_trip(m);
}

/// A copy of a list of names with the same value.
pub fn clone_strings(v: &Vec<String>) -> (r: Vec<String>)
    ensures
        r.deep_view() == v.deep_view(),
{
    let mut out: Vec<String> = Vec::new();
    let n = v.len();
    let mut i: usize = 0;
    while i < n
        invariant
            n == v@.len(),
            i <= n,
            out@.len() == i,
            forall|k: int| 0 <= k < i ==> (#[trigger] out@[k])@ == v@[k]@,
        decreases n - i,
    {
        out.push(v[i].clone());
        i = i + 1;
    }
    proof {
        assert forall|k: int| 0 <= k < n implies out.deep_view()[k] == v.deep_view()[k] by {
            assert(out.deep_view()[k] == out@[k]@);
            assert(v.deep_view()[k] == v@[k]@);
        }
        assert(out.deep_view() =~= v.deep_view());
    }
    out
}

} // verus!
