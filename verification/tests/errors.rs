use tesira_text_protocol::builder::delay_token;
use tesira_text_protocol::catalog::Argument;
use tesira_text_protocol::decimal::Decimal;
use tesira_text_protocol::proto::{ErrResponse, OkResponse, Response};
use tesira_text_protocol::session::{Event, Phase, Step, Tier};
use tesira_text_protocol::{Error, TesiraSession};

fn ready() -> TesiraSession {
    let mut session = TesiraSession::new();
    assert_eq!(
        session.handshake(Event::Line("Welcome\n")),
        Step::Done(Ok(()))
    );
    session
}

#[test]
fn parse_errors_say_what_is_left() {
    let error = Response::parse_ttp("?").unwrap_err();
    assert_eq!(error.message(), "Response parse error: ?");
    let error = Response::parse_ttp("").unwrap_err();
    assert_eq!(error.message(), "Unexpected end of input");
    assert_eq!(
        Error::parsing_failed(Response::parse_ttp("! x").unwrap_err()),
        Error::ParsingFailed("Response parse error: ! x".to_owned())
    );
    assert_eq!(
        Error::parsing_failed(Response::parse_ttp("").unwrap_err()),
        Error::ParsingFailed("Unexpected end of input".to_owned())
    );
}

#[test]
fn errors_fall_into_tiers() {
    assert_eq!(
        Error::OperationFailed(ErrResponse {
            message: "no".to_owned()
        })
        .tier(),
        Tier::Device
    );
    assert_eq!(Error::ParsingFailed("x".to_owned()).tier(), Tier::Protocol);
    assert_eq!(Error::UnexpectedEnd.tier(), Tier::Protocol);
    assert_eq!(
        Error::UnexpectedResponse(Response::Success(OkResponse::Bare), "x".to_owned()).tier(),
        Tier::Protocol
    );
}

#[test]
fn every_outcome_of_a_wait_leaves_the_session_ready() {
    for line in ["+OK\n", "-ERR no\n", "+what\n", "! \"publishToken\":\n"] {
        let mut session = ready();
        let written = session.send_command(
            tesira_text_protocol::Command::new_get("Level3", "level", vec![2]),
        );
        assert_eq!(written, "Level3 get level 2\n");
        assert_eq!(session.current_phase(), Phase::AwaitingReply);
        assert_eq!(session.recv_response(Event::Line("\n")), Step::ReadMore);
        assert_eq!(
            session.recv_response(Event::Line("Level3 get level 2\n")),
            Step::ReadMore
        );
        assert_eq!(session.current_phase(), Phase::AwaitingReply);
        assert!(matches!(
            session.recv_response(Event::Line(line)),
            Step::Done(_)
        ));
        assert_eq!(session.current_phase(), Phase::Ready);
    }
    let mut session = ready();
    session.send_command(tesira_text_protocol::Command::new_get("a", "b", vec![]));
    assert_eq!(
        session.recv_response(Event::EndOfStream),
        Step::Done(Err(Error::UnexpectedEnd))
    );
    assert_eq!(session.current_phase(), Phase::Ready);
    session.send_command(tesira_text_protocol::Command::new_get("a", "b", vec![]));
    assert_eq!(
        session.recv_response(Event::Line("! \"publishToken\":\"L\" \"value\":1\n")),
        Step::ReadMore
    );
    session.abandon();
    assert_eq!(session.current_phase(), Phase::Ready);
    assert_eq!(session.recv_token().unwrap().label, "L");
    assert_eq!(session.recv_token(), None);
    assert_eq!(session.recv_token_event(Event::Line("echo\n")), Step::ReadMore);
    assert_eq!(
        session.recv_token_event(Event::EndOfStream),
        Step::Done(Err(Error::UnexpectedEnd))
    );
}

#[test]
fn tokens_of_any_kind_are_written_as_they_are() {
    assert_eq!(Argument::unbounded(true).into_token(), "true");
    assert_eq!(Argument::unbounded(-7).into_token(), "-7");
    assert_eq!(
        Argument::unbounded(Decimal::parse("1.50").unwrap()).into_token(),
        "1.5"
    );
    assert_eq!(
        Argument::unbounded("\"text\"".to_owned()).into_token(),
        "\"text\""
    );
    assert_eq!(
        delay_token("Furlongs", "0.5"),
        "{\"units\":Furlongs \"delay\":0.5}"
    );
}
