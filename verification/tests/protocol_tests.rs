use streaming_quotes::protocol::{
    Message, QuoteRespMessage, StockQuote, TickerReqMessage, MAX_SIZE_DATAGRAM, decode_message,
    encode_message, encode_varint, pack_message_with_len, u32_from_be_bytes, u32_to_be_bytes,
};

fn sample_quote() -> StockQuote {
    StockQuote {
        ticker: "AMD".to_string(),
        price_bits: 512.25f64.to_bits(),
        volume: 5000,
        timestamp: 7,
    }
}

#[test]
fn round_trip_quote() {
    let msg = Message::Quote(QuoteRespMessage { quote: sample_quote() });
    let bytes = encode_message(&msg);
    assert_eq!(decode_message(&bytes).unwrap(), msg);
}

#[test]
fn round_trip_tickers() {
    let msg = Message::Tickers(TickerReqMessage {
        port: 4242,
        tickers: vec!["AMD".to_string(), "INT".to_string(), "".to_string()],
    });
    let bytes = encode_message(&msg);
    assert_eq!(decode_message(&bytes).unwrap(), msg);
}

#[test]
fn round_trip_unit_variants() {
    for msg in [Message::Ping, Message::Pong, Message::Unknown] {
        let bytes = encode_message(&msg);
        assert_eq!(decode_message(&bytes).unwrap(), msg);
    }
}

#[test]
fn round_trip_non_ascii_ticker() {
    let msg = Message::Quote(QuoteRespMessage {
        quote: StockQuote {
            ticker: "株式".to_string(),
            price_bits: 1.5f64.to_bits(),
            volume: 1,
            timestamp: 1,
        },
    });
    let bytes = encode_message(&msg);
    assert_eq!(decode_message(&bytes).unwrap(), msg);
}

#[test]
fn varint_matches_postcard() {
    for value in [0u64, 1, 127, 128, 300, 65535, 65536, 1u64 << 40, u64::MAX] {
        let mut mine = Vec::new();
        encode_varint(value, &mut mine);
        assert_eq!(mine, postcard::to_stdvec(&value).unwrap());
    }
}

#[test]
fn string_encoding_matches_postcard() {
    let mut mine = Vec::new();
    streaming_quotes::protocol::encode_str("AMD", &mut mine);
    assert_eq!(mine, postcard::to_stdvec("AMD").unwrap());
}

#[test]
fn quote_message_bytes_match_postcard_pieces() {
    // The wire form of a quote message is the variant discriminant followed
    // by the postcard encodings of its fields in order.
    let msg = Message::Quote(QuoteRespMessage { quote: sample_quote() });
    let bytes = encode_message(&msg);
    let mut expected = vec![0u8];
    expected.extend(postcard::to_stdvec("AMD").unwrap());
    expected.extend(postcard::to_stdvec(&512.25f64).unwrap());
    expected.extend(postcard::to_stdvec(&5000u32).unwrap());
    expected.extend(postcard::to_stdvec(&7u64).unwrap());
    assert_eq!(bytes, expected);
}

#[test]
fn tickers_message_bytes_match_postcard_pieces() {
    let msg = Message::Tickers(TickerReqMessage {
        port: 4242,
        tickers: vec!["AMD".to_string(), "INT".to_string()],
    });
    let bytes = encode_message(&msg);
    let mut expected = vec![1u8];
    expected.extend(postcard::to_stdvec(&4242u16).unwrap());
    expected.extend(postcard::to_stdvec(&2u64).unwrap());
    expected.extend(postcard::to_stdvec("AMD").unwrap());
    expected.extend(postcard::to_stdvec("INT").unwrap());
    assert_eq!(bytes, expected);
}

#[test]
fn ping_encodes_to_its_discriminant() {
    assert_eq!(encode_message(&Message::Ping), vec![2u8]);
    assert_eq!(encode_message(&Message::Pong), vec![3u8]);
    assert_eq!(encode_message(&Message::Unknown), vec![4u8]);
}

#[test]
fn pack_prefixes_the_big_endian_length() {
    let packed = pack_message_with_len(&Message::Ping).unwrap();
    assert_eq!(packed, vec![0u8, 0, 0, 1, 2]);

    let msg = Message::Tickers(TickerReqMessage { port: 80, tickers: vec!["A".to_string()] });
    let body = encode_message(&msg);
    let packed = pack_message_with_len(&msg).unwrap();
    assert_eq!(&packed[..4], (body.len() as u32).to_be_bytes());
    assert_eq!(&packed[4..], &body[..]);
}

#[test]
fn be32_round_trip() {
    for value in [0u32, 1, 255, 256, 0xdead_beef, u32::MAX] {
        let bytes = u32_to_be_bytes(value);
        assert_eq!(bytes, value.to_be_bytes().to_vec());
        assert_eq!(u32_from_be_bytes(&bytes), value);
    }
}

#[test]
fn decode_rejects_bad_input() {
    // Empty input holds no message.
    assert!(decode_message(&[]).is_err());
    // An unassigned discriminant.
    assert!(decode_message(&[9u8]).is_err());
    // Trailing bytes after a complete message.
    assert!(decode_message(&[2u8, 0]).is_err());
    // A truncated quote.
    let bytes = encode_message(&Message::Quote(QuoteRespMessage { quote: sample_quote() }));
    assert!(decode_message(&bytes[..bytes.len() - 1]).is_err());
    // A string length that runs past the input.
    assert!(decode_message(&[0u8, 200]).is_err());
}

#[test]
fn quote_fits_a_datagram() {
    let bytes = encode_message(&Message::Quote(QuoteRespMessage { quote: sample_quote() }));
    assert!(bytes.len() <= MAX_SIZE_DATAGRAM);
}
