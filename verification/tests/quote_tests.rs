use streaming_quotes::QuoteError;
use streaming_quotes::quote::{QuoteGenerator, Ticker, TickerRecord};

const EPSILON: f64 = 1e-6;

const CONFIG: &str = r#"[
    {
        "name": "AMD",
        "upper_bound_price": 1000.0,
        "upper_bound_volume": 1000000,
        "lower_bound_volume": 1000
    },
    {
        "name": "INT",
        "upper_bound_price": 2000.0,
        "upper_bound_volume": 2000000,
        "lower_bound_volume": 1000
    }
]"#;

fn current_prices(generator: &QuoteGenerator) -> Vec<u64> {
    generator.price_states().iter().map(|(current, _)| *current).collect()
}

#[test]
fn test_ticker_from_json() {
    let ticker = Ticker::from_json(
        r#"{
            "upper_bound_price": 2.0,
            "upper_bound_volume": 10,
            "lower_bound_volume": 2
        }"#,
    )
    .unwrap();
    assert!((f64::from_bits(ticker.upper_bound_price_bits) - 2.0).abs() < EPSILON);
    assert_eq!(ticker.upper_bound_volume, 10);
    assert_eq!(ticker.lower_bound_volume, 2);
}

#[test]
fn test_quotes() {
    let mut generator = QuoteGenerator::new(CONFIG).unwrap();
    let prices = current_prices(&generator);
    let quotes = generator.generate_quotes(&prices);
    assert!(quotes.iter().any(|item| item.ticker == "AMD"));
    assert!(quotes.iter().any(|item| item.ticker == "INT"));
    assert!(!quotes.iter().any(|item| item.ticker == "GAZ"));
}

#[test]
fn initial_price_is_half_the_upper_bound() {
    let ticker = Ticker::from_json(
        r#"{"upper_bound_price": 2.0, "upper_bound_volume": 10, "lower_bound_volume": 2}"#,
    )
    .unwrap();
    assert!((f64::from_bits(ticker.current_price_bits) - 1.0).abs() < EPSILON);
}

#[test]
fn from_json_rejects_bad_records() {
    let missing = r#"{"upper_bound_price": 2.0, "upper_bound_volume": 10}"#;
    assert!(Ticker::from_json(missing).is_none());

    let wrong_typed =
        r#"{"upper_bound_price": "x", "upper_bound_volume": 10, "lower_bound_volume": 2}"#;
    assert!(Ticker::from_json(wrong_typed).is_none());

    let inverted =
        r#"{"upper_bound_price": 2.0, "upper_bound_volume": 2, "lower_bound_volume": 10}"#;
    assert!(Ticker::from_json(inverted).is_none());

    let oversized_volume = r#"{"upper_bound_price": 2.0,
        "upper_bound_volume": 4294967297, "lower_bound_volume": 2}"#;
    assert!(Ticker::from_json(oversized_volume).is_none());
}

#[test]
fn from_record_checks_the_volume_bounds() {
    let good = TickerRecord {
        upper_bound_price_bits: 2.0f64.to_bits(),
        half_price_bits: 1.0f64.to_bits(),
        upper_bound_volume: 10,
        lower_bound_volume: 2,
    };
    let ticker = Ticker::from_record(&good).unwrap();
    assert_eq!(ticker.upper_bound_volume, 10);
    assert_eq!(ticker.lower_bound_volume, 2);
    assert_eq!(ticker.current_price_bits, 1.0f64.to_bits());

    let inverted = TickerRecord { upper_bound_volume: 2, lower_bound_volume: 10, ..good };
    assert!(Ticker::from_record(&inverted).is_none());
}

#[test]
fn config_errors_are_config_errors() {
    assert_eq!(QuoteGenerator::new("not json").unwrap_err(), QuoteError::ConfigError);
    assert_eq!(QuoteGenerator::new("{}").unwrap_err(), QuoteError::ConfigError);
    assert_eq!(
        QuoteGenerator::new(r#"[{"upper_bound_price": 1.0}]"#).unwrap_err(),
        QuoteError::ConfigError
    );
    assert_eq!(
        QuoteGenerator::new(
            r#"[{"name": "A", "upper_bound_price": 1.0,
                "upper_bound_volume": 5, "lower_bound_volume": 5}]"#
        )
        .unwrap_err(),
        QuoteError::ConfigError
    );
}

#[test]
fn duplicate_names_collapse_last_wins() {
    let config = r#"[
        {"name": "AMD", "upper_bound_price": 1.0,
         "upper_bound_volume": 10, "lower_bound_volume": 1},
        {"name": "AMD", "upper_bound_price": 1.0,
         "upper_bound_volume": 200, "lower_bound_volume": 100}
    ]"#;
    let mut generator = QuoteGenerator::new(config).unwrap();
    assert_eq!(generator.ticker_count(), 1);
    let prices = current_prices(&generator);
    let quotes = generator.generate_quotes(&prices);
    assert_eq!(quotes.len(), 1);
    assert!(quotes[0].volume >= 100 && quotes[0].volume < 200);
}

#[test]
fn volumes_stay_in_the_configured_range() {
    let mut generator = QuoteGenerator::new(CONFIG).unwrap();
    for _ in 0..50 {
        let prices = current_prices(&generator);
        let quotes = generator.generate_quotes(&prices);
        for q in &quotes {
            if q.ticker == "AMD" {
                assert!(q.volume >= 1000 && q.volume < 1000000);
            } else {
                assert!(q.volume >= 1000 && q.volume < 2000000);
            }
        }
    }
}

#[test]
fn timestamps_equal_within_and_increase_across_batches() {
    let mut generator = QuoteGenerator::new(CONFIG).unwrap();
    let prices = current_prices(&generator);
    let first = generator.generate_quotes(&prices);
    let prices = current_prices(&generator);
    let second = generator.generate_quotes(&prices);
    assert!(first.iter().all(|q| q.timestamp == 1));
    assert!(second.iter().all(|q| q.timestamp == 2));
}

#[test]
fn generated_prices_are_the_supplied_bits() {
    let mut generator = QuoteGenerator::new(CONFIG).unwrap();
    let new_prices: Vec<u64> = vec![10.5f64.to_bits(), 20.25f64.to_bits()];
    let quotes = generator.generate_quotes(&new_prices);
    let by_bits: Vec<u64> = quotes.iter().map(|q| q.price_bits).collect();
    assert_eq!(by_bits, new_prices);
    // The supplied bits become the tickers' current prices.
    let now: Vec<u64> = current_prices(&generator);
    assert_eq!(now, new_prices);
}
