//! Synthetic quote generator: a set of configured tickers, a shared batch
//! sequence number, and per-batch generation of one quote per ticker.
//!
//! The volume of each quote is drawn uniformly and folded into the ticker's
//! configured volume range; the timestamp is the generator's sequence number,
//! identical within a batch and incremented once at end of batch. The price
//! is a floating-point random walk that the verified core cannot reason
//! about: it carries prices as opaque IEEE-754 bits, and the embedding
//! program computes each batch's new price bits from the current ones
//! (see [`QuoteGenerator::price_states`]).

use vstd::prelude::*;
use crate::QuoteError;
use crate::protocol::StockQuote;

verus! {

/// The bound fields of one ticker record, exactly as the configuration text
/// holds them: plain values, prices as IEEE-754 bits. What a record *means*
/// (the bounds check, the ticker built from it) is decided by verified code.
#[derive(Debug, PartialEq)]
pub struct TickerRecord {
    /// Bits of the configured upper bound price.
    pub upper_bound_price_bits: u64,
    /// Bits of half the configured upper bound price: the initial price of
    /// the walk. Halving a float cannot stand in verified code, so the
    /// trusted parser hands the half in alongside the bound.
    pub half_price_bits: u64,
    /// The configured volume upper bound, as parsed (64 bits; verified code
    /// rejects values over 32 bits).
    pub upper_bound_volume: u64,
    /// The configured volume lower bound, as parsed.
    pub lower_bound_volume: u64,
}

/// The mathematical value of a [`TickerRecord`].
pub struct TickerRecordModel {
    /// Bits of the upper bound price.
    pub upper_bound_price_bits: u64,
    /// Bits of half the upper bound price.
    pub half_price_bits: u64,
    /// The volume upper bound.
    pub upper_bound_volume: u64,
    /// The volume lower bound.
    pub lower_bound_volume: u64,
}

impl View for TickerRecord {
    type V = TickerRecordModel;

    open spec fn view(&self) -> TickerRecordModel {
        TickerRecordModel {
            upper_bound_price_bits: self.upper_bound_price_bits,
            half_price_bits: self.half_price_bits,
            upper_bound_volume: self.upper_bound_volume,
            lower_bound_volume: self.lower_bound_volume,
        }
    }
}

impl DeepView for TickerRecord {
    type V = TickerRecordModel;

    open spec fn deep_view(&self) -> TickerRecordModel {
        self.view()
    }
}

/// One element of the configuration array: a name and its bounds.
#[derive(Debug, PartialEq)]
pub struct ConfigRecord {
    /// The ticker's name.
    pub name: String,
    /// The ticker's bounds.
    pub ticker: TickerRecord,
}

/// The mathematical value of a [`ConfigRecord`].
pub struct ConfigRecordModel {
    /// The name's characters.
    pub name: Seq<char>,
    /// The bounds.
    pub ticker: TickerRecordModel,
}

impl View for ConfigRecord {
    type V = ConfigRecordModel;

    open spec fn view(&self) -> ConfigRecordModel {
        ConfigRecordModel { name: self.name@, ticker: self.ticker@ }
    }
}

impl DeepView for ConfigRecord {
    type V = ConfigRecordModel;

    open spec fn deep_view(&self) -> ConfigRecordModel {
        self.view()
    }
}

/// Names the records that the configuration text parses to: the result of
/// reading the text as a JSON array of objects, each with a string `name`, a
/// float `upper_bound_price` (carried as its bits and the bits of its half),
/// and integer `upper_bound_volume` and `lower_bound_volume`. `None` when
/// the text is not such an array. A function of the text alone.
pub uninterp spec fn spec_config_records(text: Seq<char>) -> Option<Seq<ConfigRecordModel>>;

/// Names the record that a single-object configuration text parses to: as
/// [`spec_config_records`], for one object without a name. A function of the
/// text alone.
pub uninterp spec fn spec_ticker_record(text: Seq<char>) -> Option<TickerRecordModel>;

/// Relies on `serde_json::from_str` and `Value::{get, as_str, as_u64,
/// as_f64}`: reads the whole configuration as plain records, or nothing if
/// the text is not a JSON array of well-typed records. The only arithmetic
/// is halving the parsed price — the generator's initial price, unverifiable
/// float work — and the divisor 2 is itself read back from JSON because
/// float literals cannot appear in this crate's sources.
#[verifier::external_body]
fn parse_config_records(text: &str) -> (r: Option<Vec<ConfigRecord>>)
    ensures
        r is Some <==> spec_config_records(text@) is Some,
        r matches Some(v) ==> v.deep_view() == spec_config_records(text@).unwrap(),
{
    let two = serde_json::from_str::<serde_json::Value>("2").ok()?.as_f64()?;
    let values: Vec<serde_json::Value> = serde_json::from_str(text).ok()?;
    values.iter().map(|v| {
        let price = v.get("upper_bound_price")?.as_f64()?;
        let ticker = TickerRecord {
            upper_bound_price_bits: price.to_bits(),
            half_price_bits: (price / two).to_bits(),
            upper_bound_volume: v.get("upper_bound_volume")?.as_u64()?,
            lower_bound_volume: v.get("lower_bound_volume")?.as_u64()?,
        };
        Some(ConfigRecord { name: v.get("name")?.as_str()?.to_string(), ticker })
    }).collect()
}

/// Relies on `serde_json::from_str` and `Value::{get, as_u64, as_f64}`: reads
/// one ticker object as a plain record, or nothing if a field is missing or
/// mistyped. The halving and the JSON-read divisor are as in
/// [`parse_config_records`].
#[verifier::external_body]
fn parse_ticker_record(text: &str) -> (r: Option<TickerRecord>)
    ensures
        r is Some <==> spec_ticker_record(text@) is Some,
        r matches Some(rec) ==> rec@ == spec_ticker_record(text@).unwrap(),
{
    let two = serde_json::from_str::<serde_json::Value>("2").ok()?.as_f64()?;
    let v: serde_json::Value = serde_json::from_str(text).ok()?;
    let price = v.get("upper_bound_price")?.as_f64()?;
    Some(TickerRecord {
        upper_bound_price_bits: price.to_bits(),
        half_price_bits: (price / two).to_bits(),
        upper_bound_volume: v.get("upper_bound_volume")?.as_u64()?,
        lower_bound_volume: v.get("lower_bound_volume")?.as_u64()?,
    })
}

/// Relies on `rand::random::<u32>`: a fresh uniformly distributed 32-bit
/// value. Nothing can be promised of a random value.
#[verifier::external_body]
fn random_u32() -> u32
{
    rand::random::<u32>()
}

/// Control commands understood by the generator worker.
pub enum GeneratorCmd {
    /// Stop the generator worker.
    Stop,
}

/// Whether a poll of the generator's control channel tells the worker to
/// stop: a waiting `Stop` does, and so does a disconnected channel — the
/// parent worker died.
pub fn generator_should_stop(p: crate::ChannelPoll<GeneratorCmd>) -> (r: bool)
    ensures
        r == !(p matches crate::ChannelPoll::Empty),
{
    match p {
        crate::ChannelPoll::Received(cmd) => match cmd {
            GeneratorCmd::Stop => true,
        },
        crate::ChannelPoll::Empty => false,
        crate::ChannelPoll::Disconnected => true,
    }
}

/// One configured financial instrument, as the generator tracks it. Prices
/// are IEEE-754 bits, opaque to the verified core.
#[derive(Debug, PartialEq)]
pub struct Ticker {
    /// Bits of the largest price the random walk may reach (a float > 0).
    pub upper_bound_price_bits: u64,
    /// Exclusive upper bound of the generated volume.
    pub upper_bound_volume: u32,
    /// Inclusive lower bound of the generated volume.
    pub lower_bound_volume: u32,
    /// Bits of the current price of the walk; starts at half the upper bound.
    pub current_price_bits: u64,
}

/// Whether a parsed record's volume bounds are usable: a non-empty range
/// that fits 32 bits.
pub open spec fn record_valid(rec: TickerRecordModel) -> bool {
    rec.lower_bound_volume < rec.upper_bound_volume && rec.upper_bound_volume <= u32::MAX as u64
}

/// The ticker a valid record configures: the parsed bounds, and the walk's
/// current price starting at half the upper bound price.
pub open spec fn ticker_of_record(rec: TickerRecordModel) -> Ticker {
    Ticker {
        upper_bound_price_bits: rec.upper_bound_price_bits,
        upper_bound_volume: rec.upper_bound_volume as u32,
        lower_bound_volume: rec.lower_bound_volume as u32,
        current_price_bits: rec.half_price_bits,
    }
}

impl Ticker {
    /// The volume bounds form a non-empty range.
    pub open spec fn wf(self) -> bool {
        self.lower_bound_volume < self.upper_bound_volume
    }

    /// The ticker a parsed record configures, exactly when the record is
    /// valid: volume bounds with `lower < upper`, both within 32 bits.
    pub fn from_record(record: &TickerRecord) -> (r: Option<Ticker>)
        ensures
            r == if record_valid(record@) {
                Some(ticker_of_record(record@))
            } else {
                None::<Ticker>
            },
            r matches Some(t) ==> t.wf(),
    {
        if record.upper_bound_volume > u32::MAX as u64 || record.lower_bound_volume
            >= record.upper_bound_volume {
            return None;
        }
        Some(
            Ticker {
                upper_bound_price_bits: record.upper_bound_price_bits,
                upper_bound_volume: record.upper_bound_volume as u32,
                lower_bound_volume: record.lower_bound_volume as u32,
                current_price_bits: record.half_price_bits,
            },
        )
    }

    /// Reads one ticker from the text of a JSON object of the shape
    /// `{"upper_bound_price": 1000.0, "upper_bound_volume": 1000000,
    /// "lower_bound_volume": 1000}`: exactly the ticker of the text's named
    /// parse result when that record exists and is valid; nothing when a
    /// field is missing or wrong-typed, a volume bound exceeds 32 bits, or
    /// the volume bounds do not satisfy `lower < upper`. The current price
    /// starts at half the upper bound price.
    pub fn from_json(text: &str) -> (r: Option<Ticker>)
        ensures
            r == match spec_ticker_record(text@) {
                None => None::<Ticker>,
                Some(rec) => if record_valid(rec) {
                    Some(ticker_of_record(rec))
                } else {
                    None::<Ticker>
                },
            },
    {
        match parse_ticker_record(text) {
            None => None,
            Some(rec) => Ticker::from_record(&rec),
        }
    }
}

/// The tickers a sequence of configuration records sets up: one per distinct
/// name, at the name's first position, with the last record of that name
/// winning (duplicate names collapse).
pub open spec fn spec_collapse(records: Seq<ConfigRecordModel>) -> Seq<(Seq<char>, Ticker)>
    decreases records.len(),
{
    if records.len() == 0 {
        Seq::<(Seq<char>, Ticker)>::empty()
    } else {
        let init = spec_collapse(records.drop_last());
        let rec = records.last();
        if exists|k: int| 0 <= k < init.len() && init[k].0 == rec.name {
            let k = choose|k: int| 0 <= k < init.len() && init[k].0 == rec.name;
            init.update(k, (rec.name, ticker_of_record(rec.ticker)))
        } else {
            init.push((rec.name, ticker_of_record(rec.ticker)))
        }
    }
}

/// The collapsed tickers carry distinct names.
pub proof fn lemma_collapse_unique(records: Seq<ConfigRecordModel>)
    ensures
        forall|i: int, j: int|
            0 <= i < j < spec_collapse(records).len() ==> spec_collapse(records)[i].0
                != spec_collapse(records)[j].0,
    decreases records.len(),
{
    if records.len() > 0 {
        lemma_collapse_unique(records.drop_last());
        let init = spec_collapse(records.drop_last());
        let rec = records.last();
        let whole = spec_collapse(records);
        if exists|k: int| 0 <= k < init.len() && init[k].0 == rec.name {
            let k = choose|k: int| 0 <= k < init.len() && init[k].0 == rec.name;
            assert(whole == init.update(k, (rec.name, ticker_of_record(rec.ticker))));
            assert forall|i: int, j: int| 0 <= i < j < whole.len() implies whole[i].0
                != whole[j].0 by {
                assert(whole[i].0 == init[i].0);
                assert(whole[j].0 == init[j].0);
            }
        } else {
            assert(whole == init.push((rec.name, ticker_of_record(rec.ticker))));
            assert forall|i: int, j: int| 0 <= i < j < whole.len() implies whole[i].0
                != whole[j].0 by {
                if j == whole.len() - 1 {
                    assert(whole[i].0 == init[i].0);
                    assert(!(init[i].0 == rec.name));
                } else {
                    assert(whole[i].0 == init[i].0);
                    assert(whole[j].0 == init[j].0);
                }
            }
        }
    }
}

/// What constructing a generator from a configuration text yields: success
/// exactly when the text parses to records (see [`spec_config_records`])
/// that are all valid, and then a generator holding exactly the collapsed
/// tickers with the batch sequence number starting at 1; otherwise
/// `ConfigError`.
pub open spec fn spec_generator_from_config(
    config: Seq<char>,
    r: Result<QuoteGenerator, QuoteError>,
) -> bool {
    match r {
        Ok(g) => match spec_config_records(config) {
            Some(records) => {
                &&& (forall|i: int|
                    0 <= i < records.len() ==> record_valid((#[trigger] records[i]).ticker))
                &&& g.tickers_view() == spec_collapse(records)
                &&& g.wf()
                &&& g.counter() == 1
            },
            None => false,
        },
        Err(e) => {
            &&& e == QuoteError::ConfigError
            &&& match spec_config_records(config) {
                None => true,
                Some(records) => exists|i: int|
                    0 <= i < records.len() && !record_valid((#[trigger] records[i]).ticker),
            }
        },
    }
}

/// What one generation step promises: the batch holds one quote per ticker,
/// in ticker order; every quote carries the pre-step sequence number as its
/// timestamp, its ticker's name and the price bits supplied for it; its
/// volume lies in the ticker's configured range; and the step advances the
/// sequence number by exactly one.
pub open spec fn spec_generates(
    tickers: Seq<(Seq<char>, Ticker)>,
    prices: Seq<u64>,
    pre_counter: u64,
    post_counter: u64,
    batch: Seq<crate::protocol::QuoteModel>,
) -> bool {
    &&& post_counter == pre_counter + 1
    &&& batch.len() == tickers.len()
    &&& (forall|i: int|
        0 <= i < batch.len() ==> {
            &&& (#[trigger] batch[i]).ticker == tickers[i].0
            &&& batch[i].price_bits == prices[i]
            &&& batch[i].timestamp == pre_counter
            &&& tickers[i].1.lower_bound_volume <= batch[i].volume < tickers[i].1.upper_bound_volume
        })
}

/// The quote generator: configured tickers and the shared batch sequence
/// number.
#[derive(Debug)]
pub struct QuoteGenerator {
    tickers: Vec<(String, Ticker)>,
    timestamp_counter: u64,
}

impl QuoteGenerator {
    /// The configured tickers: name and state, in configuration order with
    /// duplicates collapsed (last wins).
    pub closed spec fn tickers_view(self) -> Seq<(Seq<char>, Ticker)> {
        self.tickers@.map_values(|p: (String, Ticker)| (p.0@, p.1))
    }

    /// The sequence number the next batch will carry.
    pub closed spec fn counter(self) -> u64 {
        self.timestamp_counter
    }

    /// Ticker names are unique and every ticker is well formed.
    pub closed spec fn wf(self) -> bool {
        &&& (forall|i: int, j: int|
            0 <= i < j < self.tickers@.len() ==> self.tickers@[i].0@ != self.tickers@[j].0@)
        &&& (forall|i: int| 0 <= i < self.tickers@.len() ==> (#[trigger] self.tickers@[i]).1.wf())
    }

    /// How many tickers are configured.
    pub fn ticker_count(&self) -> (r: usize)
        ensures
            r == self.tickers_view().len(),
    {
        self.tickers.len()
    }

    /// The sequence number the next batch will carry.
    pub fn current_timestamp(&self) -> (r: u64)
        ensures
            r == self.counter(),
    {
        self.timestamp_counter
    }

    /// The position of the named ticker, if configured.
    fn find_idx(&self, name: &String) -> (r: Option<usize>)
        ensures
            match r {
                Some(i) => i < self.tickers@.len() && self.tickers@[i as int].0@ == name@,
                None => forall|j: int| 0 <= j < self.tickers@.len() ==> self.tickers@[j].0@ != name@,
            },
    {
        let mut i: usize = 0;
        while i < self.tickers.len()
            invariant
                i <= self.tickers@.len(),
                forall|j: int| 0 <= j < i ==> self.tickers@[j].0@ != name@,
            decreases self.tickers@.len() - i,
        {
            if self.tickers[i].0 == *name {
                return Some(i);
            }
            i = i + 1;
        }
        None
    }

    /// Builds a generator from a configuration text: a JSON array of ticker
    /// objects, each with a `name` and the three bounds of [`Ticker`].
    /// Succeeds exactly when the text parses to records that are all valid,
    /// and then holds exactly the collapsed tickers (duplicate names, last
    /// wins) with the first batch carrying sequence number 1; fails with
    /// `ConfigError` if the text is not such an array, a required field is
    /// missing or wrong-typed, or a record's volume bounds are unusable.
    #[verifier::loop_isolation(false)]
    pub fn new(config: &str) -> (r: Result<QuoteGenerator, QuoteError>)
        ensures
            spec_generator_from_config(config@, r),
    {
        let records = match parse_config_records(config) {
            Some(v) => v,
            None => {
                return Err(QuoteError::ConfigError);
            },
        };
        let ghost recs = spec_config_records(config@).unwrap();
        proof {
            assert(records.deep_view() == recs);
        }
        let mut gen = QuoteGenerator { tickers: Vec::new(), timestamp_counter: 1 };
        let n = records.len();
        let mut i: usize = 0;
        proof {
            assert(recs.take(0) =~= Seq::<ConfigRecordModel>::empty());
            assert(gen.tickers_view() =~= spec_collapse(recs.take(0)));
        }
        while i < n
            invariant
                i <= n,
                gen.timestamp_counter == 1,
                gen.wf(),
                gen.tickers_view() == spec_collapse(recs.take(i as int)),
                forall|j: int| 0 <= j < i ==> record_valid((#[trigger] recs[j]).ticker),
            decreases n - i,
        {
            proof {
                assert(records.deep_view()[i as int] == records@[i as int]@);
            }
            let ticker = match Ticker::from_record(&records[i].ticker) {
                Some(t) => t,
                None => {
                    proof {
                        assert(!record_valid(recs[i as int].ticker));
                    }
                    return Err(QuoteError::ConfigError);
                },
            };
            let name = records[i].name.clone();
            let ghost prev = spec_collapse(recs.take(i as int));
            proof {
                assert(name@ == recs[i as int].name);
                assert(ticker == ticker_of_record(recs[i as int].ticker));
                assert(recs.take(i + 1).drop_last() =~= recs.take(i as int));
                assert(recs.take(i + 1).last() == recs[i as int]);
                lemma_collapse_unique(recs.take(i as int));
            }
            match gen.find_idx(&name) {
                Some(idx) => {
                    proof {
                        assert(prev[idx as int].0 == recs[i as int].name);
                        let k = choose|k: int|
                            0 <= k < prev.len() && prev[k].0 == recs[i as int].name;
                        assert(k == idx) by {
                            if k < idx {
                                assert(prev[k].0 != prev[idx as int].0);
                            } else if idx < k {
                                assert(prev[idx as int].0 != prev[k].0);
                            }
                        }
                    }
                    gen.tickers.set(idx, (name, ticker));
                    proof {
                        assert(gen.tickers_view() =~= prev.update(
                            idx as int,
                            (recs[i as int].name, ticker_of_record(recs[i as int].ticker)),
                        ));
                        assert(gen.tickers_view() == spec_collapse(recs.take(i + 1)));
                        assert forall|a: int, b: int|
                            0 <= a < b < gen.tickers@.len() implies gen.tickers@[a].0@
                            != gen.tickers@[b].0@ by {
                            assert(gen.tickers_view()[a].0 == gen.tickers@[a].0@);
                            assert(gen.tickers_view()[b].0 == gen.tickers@[b].0@);
                            assert(prev[a].0 == gen.tickers_view()[a].0);
                            assert(prev[b].0 == gen.tickers_view()[b].0);
                        }
                    }
                },
                None => {
                    proof {
                        assert forall|k: int| 0 <= k < prev.len() implies prev[k].0 != recs[i
                            as int].name by {
                            assert(prev[k].0 == gen.tickers@[k].0@);
                        }
                    }
                    gen.tickers.push((name, ticker));
                    proof {
                        assert(gen.tickers_view() =~= prev.push(
                            (recs[i as int].name, ticker_of_record(recs[i as int].ticker)),
                        ));
                        assert(gen.tickers_view() == spec_collapse(recs.take(i + 1)));
                    }
                },
            }
            i = i + 1;
        }
        proof {
            assert(recs.take(n as int) =~= recs);
        }
        Ok(gen)
    }

    /// The price state of each ticker, in ticker order: the bits of its
    /// current price and of its upper bound price. The embedding program
    /// feeds these to the floating-point random walk and hands the resulting
    /// new price bits to [`QuoteGenerator::generate_quotes`].
    pub fn price_states(&self) -> (r: Vec<(u64, u64)>)
        ensures
            r@.len() == self.tickers_view().len(),
            forall|i: int|
                0 <= i < r@.len() ==> #[trigger] r@[i] == (
                    self.tickers_view()[i].1.current_price_bits,
                    self.tickers_view()[i].1.upper_bound_price_bits,
                ),
    {
        let mut out: Vec<(u64, u64)> = Vec::new();
        let n = self.tickers.len();
        let mut i: usize = 0;
        while i < n
            invariant
                n == self.tickers@.len(),
                i <= n,
                out@.len() == i,
                forall|j: int|
                    0 <= j < i ==> #[trigger] out@[j] == (
                        self.tickers_view()[j].1.current_price_bits,
                        self.tickers_view()[j].1.upper_bound_price_bits,
                    ),
            decreases n - i,
        {
            let t = &self.tickers[i].1;
            out.push((t.current_price_bits, t.upper_bound_price_bits));
            i = i + 1;
        }
        out
    }

    /// Generates one batch: one quote per configured ticker, in ticker
    /// order. Each quote takes its ticker's name, the new price bits
    /// supplied for it (which also become the ticker's current price), a
    /// volume drawn uniformly and folded into the ticker's configured range,
    /// and the generator's sequence number as its timestamp — identical for
    /// the whole batch and incremented once at the end.
    pub fn generate_quotes(&mut self, new_price_bits: &Vec<u64>) -> (r: Vec<StockQuote>)
        requires
            old(self).wf(),
            new_price_bits@.len() == old(self).tickers_view().len(),
            old(self).counter() < u64::MAX,
        ensures
            final(self).wf(),
            spec_generates(
                old(self).tickers_view(),
                new_price_bits@,
                old(self).counter(),
                final(self).counter(),
                r.deep_view(),
            ),
            final(self).tickers_view().len() == old(self).tickers_view().len(),
            forall|i: int|
                0 <= i < final(self).tickers_view().len() ==> {
                    &&& (#[trigger] final(self).tickers_view()[i]).0 == old(
                        self,
                    ).tickers_view()[i].0
                    &&& final(self).tickers_view()[i].1 == (Ticker {
                        current_price_bits: new_price_bits@[i],
                        ..old(self).tickers_view()[i].1
                    })
                },
    {
        let mut quotes: Vec<StockQuote> = Vec::new();
        let n = self.tickers.len();
        let mut i: usize = 0;
        while i < n
            invariant
                n == self.tickers@.len(),
                old(self).wf(),
                self.tickers@.len() == old(self).tickers@.len(),
                new_price_bits@.len() == old(self).tickers@.len(),
                i <= n,
                self.timestamp_counter == old(self).timestamp_counter,
                old(self).counter() < u64::MAX,
                quotes.deep_view().len() == i,
                forall|j: int|
                    0 <= j < n ==> (#[trigger] self.tickers@[j]).0@ == old(self).tickers@[j].0@,
                forall|j: int|
                    i <= j < n ==> (#[trigger] self.tickers@[j]).1 == old(self).tickers@[j].1,
                forall|j: int|
                    0 <= j < i ==> (#[trigger] self.tickers@[j]).1 == (Ticker {
                        current_price_bits: new_price_bits@[j],
                        ..old(self).tickers@[j].1
                    }),
                forall|j: int|
                    0 <= j < i ==> {
                        &&& (#[trigger] quotes.deep_view()[j]).ticker == old(self).tickers@[j].0@
                        &&& quotes.deep_view()[j].price_bits == new_price_bits@[j]
                        &&& quotes.deep_view()[j].timestamp == old(self).timestamp_counter
                        &&& old(self).tickers@[j].1.lower_bound_volume
                            <= quotes.deep_view()[j].volume < old(
                            self,
                        ).tickers@[j].1.upper_bound_volume
                    },
            decreases n - i,
        {
            let name = self.tickers[i].0.clone();
            let ticker = Ticker {
                upper_bound_price_bits: self.tickers[i].1.upper_bound_price_bits,
                upper_bound_volume: self.tickers[i].1.upper_bound_volume,
                lower_bound_volume: self.tickers[i].1.lower_bound_volume,
                current_price_bits: new_price_bits[i],
            };
            proof {
                assert(self.tickers@[i as int].1 == old(self).tickers@[i as int].1);
                assert(old(self).tickers@[i as int].1.wf());
            }
            let range = ticker.upper_bound_volume - ticker.lower_bound_volume;
            let volume = random_u32() % range + ticker.lower_bound_volume;
            let quote = StockQuote {
                ticker: name.clone(),
                price_bits: new_price_bits[i],
                volume,
                timestamp: self.timestamp_counter,
            };
            let ghost prev_quotes = quotes.deep_view();
            quotes.push(quote);
            proof {
                assert(quotes.deep_view() =~= prev_quotes.push(quote@));
            }
            self.tickers.set(i, (name, ticker));
            i = i + 1;
        }
        self.timestamp_counter = self.timestamp_counter + 1;
        quotes
    }
}

/// Timestamps are identical within one batch and strictly increasing across
/// successive batches of one generator: every quote of an earlier batch
/// carries a strictly smaller timestamp than every quote of a later one.
pub proof fn lemma_timestamps_monotone(
    tickers1: Seq<(Seq<char>, Ticker)>,
    tickers2: Seq<(Seq<char>, Ticker)>,
    prices1: Seq<u64>,
    prices2: Seq<u64>,
    c0: u64,
    c1: u64,
    c2: u64,
    batch1: Seq<crate::protocol::QuoteModel>,
    batch2: Seq<crate::protocol::QuoteModel>,
)
    requires
        spec_generates(tickers1, prices1, c0, c1, batch1),
        spec_generates(tickers2, prices2, c1, c2, batch2),
    ensures
        forall|i: int, j: int|
            0 <= i < batch1.len() && 0 <= j < batch1.len() ==> #[trigger] batch1[i].timestamp
                == #[trigger] batch1[j].timestamp,
        forall|i: int, j: int|
            0 <= i < batch1.len() && 0 <= j < batch2.len() ==> #[trigger] batch1[i].timestamp
                < #[trigger] batch2[j].timestamp,
{
}

} // verus!
