use std::sync::mpsc;
use streaming_quotes::QuoteError;
use streaming_quotes::framer::StreamReader;
use streaming_quotes::protocol::{
    Message, QuoteRespMessage, StockQuote, TickerReqMessage, decode_message, encode_message,
    pack_message_with_len,
};
use streaming_quotes::server::{
    ControlCmd, HandlerState, QuotesServer, StreamerState, MAX_SILENT_PING_CHECKS,
    cmd_from_channel, datagrams_for_batch, handler_poll, ping_reply, streamer_after_ping_check,
    streamer_on_command, streamer_stream_tick,
};

fn quote(ticker: &str, volume: u32, timestamp: u64) -> StockQuote {
    StockQuote { ticker: ticker.to_string(), price_bits: 1.0f64.to_bits(), volume, timestamp }
}

#[test]
fn never_subscribed_streamer_emits_nothing() {
    let mut state = StreamerState::new();
    assert!(streamer_stream_tick(&state).is_none());
    // Commands other than Quotes never install a subscription.
    assert!(streamer_on_command(&mut state, ControlCmd::Noop));
    assert!(streamer_stream_tick(&state).is_none());
    assert!(streamer_after_ping_check(&mut state, false));
    assert!(streamer_stream_tick(&state).is_none());
}

#[test]
fn quotes_command_installs_the_subscription() {
    let mut state = StreamerState::new();
    let req = TickerReqMessage { port: 9999, tickers: vec!["AMD".to_string()] };
    assert!(streamer_on_command(&mut state, ControlCmd::Quotes(req)));
    let (port, tickers) = streamer_stream_tick(&state).unwrap();
    assert_eq!(port, 9999);
    assert_eq!(tickers, vec!["AMD".to_string()]);
    // A later Quotes command replaces the subscription wholesale.
    let req = TickerReqMessage { port: 1111, tickers: vec!["INT".to_string()] };
    assert!(streamer_on_command(&mut state, ControlCmd::Quotes(req)));
    let (port, tickers) = streamer_stream_tick(&state).unwrap();
    assert_eq!(port, 1111);
    assert_eq!(tickers, vec!["INT".to_string()]);
}

#[test]
fn stop_command_ends_the_streamer() {
    let mut state = StreamerState::new();
    assert!(!streamer_on_command(&mut state, ControlCmd::Stop));
}

#[test]
fn only_subscribed_tickers_produce_datagrams() {
    let batch = vec![quote("AMD", 5000, 1), quote("INT", 6000, 1)];
    let need = vec!["AMD".to_string(), "XYZ".to_string()];
    let datagrams = datagrams_for_batch(&batch, &need).unwrap();
    // The unknown ticker XYZ produces nothing and surfaces no error; INT is
    // not subscribed; exactly the AMD quote goes out.
    assert_eq!(datagrams.len(), 1);
    match decode_message(&datagrams[0]).unwrap() {
        Message::Quote(resp) => assert_eq!(resp.quote.ticker, "AMD"),
        other => panic!("unexpected message: {:?}", other),
    }
}

#[test]
fn unsubscribed_batch_produces_no_datagrams() {
    let batch = vec![quote("AMD", 5000, 1)];
    let datagrams = datagrams_for_batch(&batch, &Vec::new()).unwrap();
    assert!(datagrams.is_empty());
}

#[test]
fn oversized_subscribed_quote_fails_the_batch() {
    let long_name = "X".repeat(200);
    let batch = vec![quote(&long_name, 5000, 1)];
    let need = vec![long_name.clone()];
    assert_eq!(datagrams_for_batch(&batch, &need).unwrap_err(), QuoteError::ProtocolError);
}

#[test]
fn ping_gets_a_pong_and_resets_the_silence() {
    let ping = encode_message(&Message::Ping);
    let reply = ping_reply(Some(&ping)).unwrap().unwrap();
    assert_eq!(decode_message(&reply).unwrap(), Message::Pong);

    let mut state = StreamerState::new();
    assert!(streamer_after_ping_check(&mut state, false));
    assert!(streamer_after_ping_check(&mut state, true));
    // A received ping clears the silence counter; the worker keeps running.
}

#[test]
fn silence_is_not_an_error_but_a_wrong_message_is() {
    assert_eq!(ping_reply(None).unwrap(), None);
    let empty: Vec<u8> = Vec::new();
    assert_eq!(ping_reply(Some(&empty)).unwrap(), None);

    let pong = encode_message(&Message::Pong);
    assert_eq!(ping_reply(Some(&pong)).unwrap_err(), QuoteError::ProtocolError);
    let garbage = vec![99u8, 1, 2];
    assert_eq!(ping_reply(Some(&garbage)).unwrap_err(), QuoteError::ProtocolError);
}

#[test]
fn forty_seconds_of_silence_end_the_streamer() {
    let mut state = StreamerState::new();
    for _ in 0..MAX_SILENT_PING_CHECKS - 1 {
        assert!(streamer_after_ping_check(&mut state, false));
    }
    // The 400th consecutive empty check - at least 40 s of silence - exits.
    assert!(!streamer_after_ping_check(&mut state, false));
}

#[test]
fn framing_robustness_two_messages_in_seven_byte_chunks() {
    let first = Message::Tickers(TickerReqMessage {
        port: 4000,
        tickers: vec!["AMD".to_string(), "INT".to_string()],
    });
    let second = Message::Tickers(TickerReqMessage { port: 4001, tickers: vec!["GAZ".to_string()] });
    let mut wire = pack_message_with_len(&first).unwrap();
    wire.extend(pack_message_with_len(&second).unwrap());

    let mut reader = StreamReader::new();
    let mut state = HandlerState::WaitPackLen;
    let mut commands: Vec<TickerReqMessage> = Vec::new();
    let mut offset = 0;
    while offset < wire.len() {
        let end = (offset + 7).min(wire.len());
        reader.feed(&wire[offset..end]);
        offset = end;
        if let Some(req) = handler_poll(&mut state, &mut reader).unwrap() {
            commands.push(req);
        }
    }
    // Each poll advances by at most one state transition; a few more ticks
    // drain what is buffered.
    for _ in 0..10 {
        if let Some(req) = handler_poll(&mut state, &mut reader).unwrap() {
            commands.push(req);
        }
    }
    // Exactly two subscription commands, in order, and no residual bytes.
    assert_eq!(commands.len(), 2);
    assert_eq!(commands[0].port, 4000);
    assert_eq!(commands[0].tickers, vec!["AMD".to_string(), "INT".to_string()]);
    assert_eq!(commands[1].port, 4001);
    assert_eq!(commands[1].tickers, vec!["GAZ".to_string()]);
    assert!(reader.extract_chunk(1).is_none());
}

#[test]
fn handler_rejects_a_non_tickers_frame() {
    let mut reader = StreamReader::new();
    let mut state = HandlerState::WaitPackLen;
    let wire = pack_message_with_len(&Message::Ping).unwrap();
    reader.feed(&wire);
    assert!(handler_poll(&mut state, &mut reader).unwrap().is_none());
    assert_eq!(
        handler_poll(&mut state, &mut reader).unwrap_err(),
        QuoteError::ProtocolError
    );
}

#[test]
fn commands_flow_through_a_real_channel() {
    let (tx, rx) = mpsc::channel();
    assert!(matches!(cmd_from_channel(&rx), ControlCmd::Noop));
    tx.send(ControlCmd::Stop).unwrap();
    assert!(matches!(cmd_from_channel(&rx), ControlCmd::Stop));
    tx.send(ControlCmd::Quotes(TickerReqMessage { port: 1, tickers: vec![] })).unwrap();
    assert!(matches!(cmd_from_channel(&rx), ControlCmd::Quotes(_)));
    drop(tx);
    // A disconnected channel reads as Stop: the parent worker died.
    assert!(matches!(cmd_from_channel(&rx), ControlCmd::Stop));
}

#[test]
fn server_construction_follows_the_generator() {
    assert!(QuotesServer::new("[]").is_ok());
    assert_eq!(QuotesServer::new("nope").unwrap_err(), QuoteError::ConfigError);
}

#[test]
fn quote_callback_data_round_trips_to_the_client() {
    // One generator batch, filtered and encoded on the server, decodes on
    // the client side to the same quote.
    let batch = vec![quote("AMD", 1234, 9)];
    let need = vec!["AMD".to_string()];
    let datagrams = datagrams_for_batch(&batch, &need).unwrap();
    assert_eq!(datagrams.len(), 1);
    let got = streaming_quotes::client::client_handle_datagram(&datagrams[0]).unwrap().unwrap();
    assert_eq!(got, quote("AMD", 1234, 9));
}

#[test]
fn subscription_happy_path_through_the_stack() {
    // Client side: the framed subscription request for AMD.
    let client = streaming_quotes::client::QuotesClient::new(
        streaming_quotes::client::SockAddr { is_v6: false, ip: 0x7f000001, port: 8080 },
        4433,
        "AMD\n",
    );
    let wire = client.subscription_request().unwrap();

    // Handler side: frame and decode the request from the stream bytes.
    let mut reader = StreamReader::new();
    let mut state = HandlerState::WaitPackLen;
    reader.feed(&wire);
    assert!(handler_poll(&mut state, &mut reader).unwrap().is_none());
    let req = handler_poll(&mut state, &mut reader).unwrap().unwrap();
    assert_eq!(req.port, 4433);

    // Streamer side: the command installs the subscription.
    let mut streamer = StreamerState::new();
    assert!(streamer_on_command(&mut streamer, ControlCmd::Quotes(req)));
    let (port, need) = streamer_stream_tick(&streamer).unwrap();
    assert_eq!(port, 4433);

    // Generator side: one batch for the configured ticker.
    let config = r#"[{"name": "AMD", "upper_bound_price": 1000.0,
                     "upper_bound_volume": 1000000, "lower_bound_volume": 1000}]"#;
    let mut generator = streaming_quotes::quote::QuoteGenerator::new(config).unwrap();
    let prices: Vec<u64> =
        generator.price_states().iter().map(|(current, _)| *current).collect();
    let batch = generator.generate_quotes(&prices);

    // Callback: the batch filtered to the subscription, sent as datagrams,
    // arrives on the client as an AMD quote within the configured bounds.
    let datagrams = datagrams_for_batch(&batch, &need).unwrap();
    assert_eq!(datagrams.len(), 1);
    let got = streaming_quotes::client::client_handle_datagram(&datagrams[0]).unwrap().unwrap();
    assert_eq!(got.ticker, "AMD");
    assert!(got.volume >= 1000 && got.volume < 1000000);
    assert_eq!(got.timestamp, 1);
    let price = f64::from_bits(got.price_bits);
    assert!((0.0..=1000.0).contains(&price));
}

#[test]
fn quote_message_survives_the_wire() {
    let msg = Message::Quote(QuoteRespMessage { quote: quote("INT", 77, 3) });
    let bytes = encode_message(&msg);
    assert_eq!(decode_message(&bytes).unwrap(), msg);
}
