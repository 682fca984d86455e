use std::sync::mpsc;
use streaming_quotes::QuoteError;
use streaming_quotes::client::{
    ClientCmd, PingAction, PingLifecycle, PingState, QuotesClient, SockAddr, accept_pong,
    client_handle_datagram, is_stop_cmd, parse_tickers, ping_datagram, ping_lifecycle_on_datagram,
    ping_step,
};
use streaming_quotes::protocol::{
    Message, QuoteRespMessage, StockQuote, TickerReqMessage, decode_message, encode_message,
};

fn addr(ip: u128, port: u16) -> SockAddr {
    SockAddr { is_v6: false, ip, port }
}

#[test]
fn tickers_file_parses_line_by_line() {
    let text = "AMD\n  INT \n\n\tGAZ\r\n";
    assert_eq!(
        parse_tickers(text),
        vec!["AMD".to_string(), "INT".to_string(), "GAZ".to_string()]
    );
}

#[test]
fn blank_tickers_files_hold_nothing() {
    assert_eq!(parse_tickers(""), Vec::<String>::new());
    assert_eq!(parse_tickers("\n\n  \n\t\n"), Vec::<String>::new());
}

#[test]
fn ticker_without_trailing_newline_counts() {
    assert_eq!(parse_tickers("AMD"), vec!["AMD".to_string()]);
    assert_eq!(parse_tickers("AMD\nINT"), vec!["AMD".to_string(), "INT".to_string()]);
}

#[test]
fn client_holds_what_it_was_built_from() {
    let client = QuotesClient::new(addr(0x7f000001, 8080), 4433, "AMD\nINT\n");
    assert_eq!(client.server_addr, addr(0x7f000001, 8080));
    assert_eq!(client.recv_quote_port, 4433);
    assert_eq!(client.tickers, vec!["AMD".to_string(), "INT".to_string()]);
}

#[test]
fn subscription_request_is_a_framed_tickers_message() {
    let client = QuotesClient::new(addr(1, 80), 4433, "AMD\n");
    let wire = client.subscription_request().unwrap();
    let body = &wire[4..];
    assert_eq!(&wire[..4], (body.len() as u32).to_be_bytes());
    assert_eq!(
        decode_message(body).unwrap(),
        Message::Tickers(TickerReqMessage { port: 4433, tickers: vec!["AMD".to_string()] })
    );
}

#[test]
fn ping_datagram_decodes_to_ping() {
    assert_eq!(decode_message(&ping_datagram()).unwrap(), Message::Ping);
}

#[test]
fn pong_is_accepted_only_from_the_server_address() {
    let server = addr(10, 5555);
    let pong = encode_message(&Message::Pong);

    assert!(accept_pong(&server, &Some((server, pong.clone()))));
    // A stranger's pong does not count.
    assert!(!accept_pong(&server, &Some((addr(11, 5555), pong.clone()))));
    // Same host, different port: not the server address.
    assert!(!accept_pong(&server, &Some((addr(10, 5556), pong))));
    // The right sender with the wrong message does not count.
    let ping = encode_message(&Message::Ping);
    assert!(!accept_pong(&server, &Some((server, ping))));
    // Garbage from the right sender does not count.
    assert!(!accept_pong(&server, &Some((server, vec![200u8]))));
    // An empty read does not count.
    assert!(!accept_pong(&server, &None));
}

#[test]
fn receive_worker_prints_quotes_and_ignores_the_rest() {
    let quote = StockQuote {
        ticker: "AMD".to_string(),
        price_bits: 3.5f64.to_bits(),
        volume: 10,
        timestamp: 4,
    };
    let bytes = encode_message(&Message::Quote(QuoteRespMessage { quote }));
    let got = client_handle_datagram(&bytes).unwrap().unwrap();
    assert_eq!(got.ticker, "AMD");
    assert_eq!(got.volume, 10);
    assert_eq!(got.timestamp, 4);
    assert_eq!(f64::from_bits(got.price_bits), 3.5);

    // A well-formed non-quote message is ignored, not fatal.
    let pong = encode_message(&Message::Pong);
    assert_eq!(client_handle_datagram(&pong).unwrap(), None);

    // Undecodable bytes are fatal.
    assert_eq!(client_handle_datagram(&[200u8]).unwrap_err(), QuoteError::ProtocolError);
}

#[test]
fn ping_worker_walks_its_two_states() {
    let server = addr(10, 5555);
    let mut state = PingState::WaitPing;

    // Nothing due: nothing happens.
    assert_eq!(ping_step(&mut state, false, &server, &None), PingAction::Idle);
    assert_eq!(state, PingState::WaitPing);

    // The ping period elapsed: send and await the pong.
    assert_eq!(ping_step(&mut state, true, &server, &None), PingAction::SendPing);
    assert_eq!(state, PingState::WaitPong);

    // The pong arrived from the server in time: back to the ping period.
    let pong = encode_message(&Message::Pong);
    assert_eq!(
        ping_step(&mut state, true, &server, &Some((server, pong))),
        PingAction::PongAccepted
    );
    assert_eq!(state, PingState::WaitPing);
}

#[test]
fn missing_pong_ends_the_ping_worker() {
    let server = addr(10, 5555);
    let mut state = PingState::WaitPong;
    // The pong deadline elapsed with nothing received: the worker exits.
    assert_eq!(ping_step(&mut state, true, &server, &None), PingAction::Exit);
    // A pong from the wrong sender is no better.
    let pong = encode_message(&Message::Pong);
    let mut state = PingState::WaitPong;
    assert_eq!(
        ping_step(&mut state, true, &server, &Some((addr(11, 5555), pong))),
        PingAction::Exit
    );
}

#[test]
fn dead_ping_worker_means_server_unreachable() {
    // First datagram: start the liveness worker.
    assert_eq!(ping_lifecycle_on_datagram(false, false).unwrap(), PingLifecycle::Start);
    // Worker alive: carry on.
    assert_eq!(ping_lifecycle_on_datagram(true, false).unwrap(), PingLifecycle::Continue);
    // Worker terminated: the session is dead.
    assert_eq!(
        ping_lifecycle_on_datagram(true, true).unwrap_err(),
        QuoteError::ServerUnreachable
    );
}

#[test]
fn exit_command_is_case_insensitive_and_trimmed() {
    assert!(streaming_quotes::is_exit_command("exit"));
    assert!(streaming_quotes::is_exit_command("EXIT\n"));
    assert!(streaming_quotes::is_exit_command("  Exit \r\n"));
    assert!(!streaming_quotes::is_exit_command("exit now"));
    assert!(!streaming_quotes::is_exit_command("quit"));
    assert!(!streaming_quotes::is_exit_command(""));
}

#[test]
fn liveness_round_trip_ping_to_pong() {
    // The client's ping, run through the server's check, yields a pong the
    // client accepts from the server's address.
    let server = addr(0x7f000001, 34254);
    let ping = ping_datagram();
    let pong = streaming_quotes::server::ping_reply(Some(&ping)).unwrap().unwrap();
    assert!(accept_pong(&server, &Some((server, pong))));
}

#[test]
fn stop_commands_flow_through_a_real_channel() {
    let (tx, rx) = mpsc::channel();
    assert!(!is_stop_cmd(&rx));
    tx.send(ClientCmd::Stop).unwrap();
    assert!(is_stop_cmd(&rx));
    drop(tx);
    // A disconnected channel counts as a stop: the parent worker died.
    assert!(is_stop_cmd(&rx));
}
