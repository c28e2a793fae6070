//! The session state machine: what to make of each line the device sends.
//!
//! The session owns no stream. Its driver writes the command line it is
//! given, reads lines, hands each one over as an [`Event`], and goes on
//! reading for as long as the answer is [`Step::ReadMore`].

use crate::proto::grammar::response_at;
use crate::proto::parser::{error_at, response};
use crate::proto::Error as ParseError;
use crate::proto::{
    error_view, lemma_values_view, values_view, Command, ErrResponse, IntoTTP, OkResponse,
    OkResponseView, PublishToken, PublishTokenView, Response, ResponseView, Value, ValueView,
};
use crate::text::{contains_text, has_literal, run_end, strings_view, CharClass, Text};
use std::collections::VecDeque;
use vstd::prelude::*;
use vstd::string::StringExecFns;

verus! {

/// Error that can occur when interacting with a Tesira session. Failures of
/// the stream itself are not among them: they are the driver's.
#[derive(Debug, PartialEq)]
pub enum Error {
    /// The device answered the command with an error.
    OperationFailed(ErrResponse),
    /// A line sent by the device could not be read as a response.
    ParsingFailed(String),
    /// The response sent by the device was not of the expected kind. Holds
    /// the response and a description of what was expected.
    UnexpectedResponse(Response, String),
    /// The stream ended before the end of a response.
    UnexpectedEnd,
}

/// The mathematical content of an [`Error`].
pub enum ErrorView {
    /// A failure reported by the device, with its message.
    OperationFailed(Seq<char>),
    /// A line that is no response, with the reason.
    ParsingFailed(Seq<char>),
    /// A response of the wrong kind, with what was expected.
    UnexpectedResponse(ResponseView, Seq<char>),
    /// The end of the stream.
    UnexpectedEnd,
}

impl View for Error {
    type V = ErrorView;

    open spec fn view(&self) -> ErrorView {
        match self {
            Error::OperationFailed(e) => ErrorView::OperationFailed(e@),
            Error::ParsingFailed(reason) => ErrorView::ParsingFailed(reason@),
            Error::UnexpectedResponse(response, expected) => ErrorView::UnexpectedResponse(
                response@,
                expected@,
            ),
            Error::UnexpectedEnd => ErrorView::UnexpectedEnd,
        }
    }
}

/// How deep a failure goes, and with it what is left of the session.
#[derive(Debug, Clone, Copy, PartialEq, Eq, Structural)]
pub enum Tier {
    /// The stream or the transport failed. The session is no longer usable.
    Transport,
    /// What the device sent does not follow the protocol. The session is
    /// usable only if the offending line was read to its end.
    Protocol,
    /// The device reported a failure. The session remains usable.
    Device,
}

impl ErrorView {
    /// The tier of the error. No error of the session itself is a failure of
    /// the transport.
    pub open spec fn tier(self) -> Tier {
        match self {
            ErrorView::OperationFailed(_) => Tier::Device,
            _ => Tier::Protocol,
        }
    }
}

impl Error {
    /// The error of the session for a line that could not be read: it holds
    /// the reason in words.
    pub fn parsing_failed(reason: ParseError) -> (error: Error)
        ensures
            error@ == ErrorView::ParsingFailed(reason@.message()),
    {
        Error::ParsingFailed(reason.message())
    }

    /// The tier of the error.
    pub fn tier(&self) -> (tier: Tier)
        ensures
            tier == self@.tier(),
    {
        match self {
            Error::OperationFailed(_) => Tier::Device,
            _ => Tier::Protocol,
        }
    }
}

/// What the driver has to report: a line it has read, line ending included,
/// or the end of the stream. A line without its line feed is one that the
/// end of the stream has cut short.
#[derive(Debug, Clone, Copy, PartialEq, Eq)]
pub enum Event<'a> {
    /// A line was read.
    Line(&'a str),
    /// Nothing is left to read.
    EndOfStream,
}

/// The mathematical content of an [`Event`].
pub enum EventView {
    /// A line, by its characters.
    Line(Seq<char>),
    /// The end of the stream.
    EndOfStream,
}

impl<'a> View for Event<'a> {
    type V = EventView;

    open spec fn view(&self) -> EventView {
        match self {
            Event::Line(line) => EventView::Line(line@),
            Event::EndOfStream => EventView::EndOfStream,
        }
    }
}

/// What the driver has to do next.
#[derive(Debug, PartialEq)]
pub enum Step<T> {
    /// Read another line and report it.
    ReadMore,
    /// The exchange is over, with this outcome.
    Done(T),
}

/// Where a session stands.
#[derive(Debug, Clone, Copy, PartialEq, Eq, Structural)]
pub enum Phase {
    /// The device's banner is being read.
    Handshake,
    /// A command may be sent, or a publish token awaited.
    Ready,
    /// A command was written and its reply is due.
    AwaitingReply,
}

/// Whether a line is to be read as a response: its first character that is
/// not white space is `+`, `-` or `!`. Every other line, a blank one or the
/// echo of a command, is passed over.
pub open spec fn is_response_line(line: Seq<char>) -> bool {
    let first = run_end(line, 0, CharClass::Blank);
    first < line.len() && (line[first] == '+' || line[first] == '-' || line[first] == '!')
}

/// Whether a line came with its line feed. A line without one was cut short
/// by the end of the stream.
pub open spec fn is_complete_line(line: Seq<char>) -> bool {
    line.len() > 0 && line.last() == '\n'
}

/// What a complete line holds: the line without its line feed, and without
/// the carriage return in front of it if there is one.
pub open spec fn line_body(line: Seq<char>) -> Seq<char> {
    let end = if line.len() >= 2 && line[line.len() - 2] == '\r' {
        line.len() - 2
    } else {
        line.len() - 1
    };
    line.subrange(0, end)
}

/// What a line that could not be read is reported as.
pub open spec fn parsing_failed(line: Seq<char>, at: int) -> ErrorView {
    ErrorView::ParsingFailed(error_view(line, at).message())
}

/// One step of the handshake: the banner is over with the first line that
/// begins with `Welcome`. The result says whether the handshake is over,
/// and how.
pub open spec fn banner_step(event: EventView) -> Option<Result<(), ErrorView>> {
    match event {
        EventView::EndOfStream => Some(Err(ErrorView::UnexpectedEnd)),
        EventView::Line(line) => if has_literal(line, 0, "Welcome"@) {
            Some(Ok(()))
        } else {
            None
        },
    }
}

/// One step of waiting for a reply, given the publish tokens that are
/// pending: the tokens that are pending afterwards and, if the wait is over,
/// its outcome.
///
/// A line that is no response is passed over. A response line that was cut
/// short, and the end of the stream, are an unexpected end. Of a complete
/// response line the body counts: a publish token joins the pending ones, a
/// positive response is the reply, a negative one fails the command, and so
/// does a body that cannot be read.
pub open spec fn reply_step(pending: Seq<PublishTokenView>, event: EventView) -> (
    Seq<PublishTokenView>,
    Option<Result<OkResponseView, ErrorView>>,
) {
    match event {
        EventView::EndOfStream => (pending, Some(Err(ErrorView::UnexpectedEnd))),
        EventView::Line(line) => if !is_response_line(line) {
            (pending, None)
        } else if !is_complete_line(line) {
            (pending, Some(Err(ErrorView::UnexpectedEnd)))
        } else {
            match response_at(line_body(line)) {
                Ok((ResponseView::Success(ok), _)) => (pending, Some(Ok(ok))),
                Ok((ResponseView::Failure(message), _)) => (
                    pending,
                    Some(Err(ErrorView::OperationFailed(message))),
                ),
                Ok((ResponseView::Event(token), _)) => (pending.push(token), None),
                Err(at) => (pending, Some(Err(parsing_failed(line_body(line), at)))),
            }
        },
    }
}

/// One step of waiting for a publish token: if the wait is over, its
/// outcome.
///
/// A line that is no response is passed over. A response line that was cut
/// short, and the end of the stream, are an unexpected end. Of a complete
/// response line the body counts: a publish token is the outcome; a reply
/// where none is due and a body that cannot be read are errors.
pub open spec fn token_step(event: EventView) -> Option<Result<PublishTokenView, ErrorView>> {
    match event {
        EventView::EndOfStream => Some(Err(ErrorView::UnexpectedEnd)),
        EventView::Line(line) => if !is_response_line(line) {
            None
        } else if !is_complete_line(line) {
            Some(Err(ErrorView::UnexpectedEnd))
        } else {
            match response_at(line_body(line)) {
                Ok((ResponseView::Event(token), _)) => Some(Ok(token)),
                Ok((other, _)) => Some(
                    Err(ErrorView::UnexpectedResponse(other, "a publish token"@)),
                ),
                Err(at) => Some(Err(parsing_failed(line_body(line), at))),
            }
        },
    }
}

/// Whether a line is a reply: a response line whose first character that is
/// not white space is `+` or `-`.
pub open spec fn is_reply_line(line: Seq<char>) -> bool {
    let first = run_end(line, 0, CharClass::Blank);
    first < line.len() && (line[first] == '+' || line[first] == '-')
}

/// The wait for a reply over the events of a stream, from the first on: the
/// publish tokens that are pending when it ends, and its outcome. The wait
/// takes events up to the first one that ends it; `None` if none does.
pub open spec fn await_reply(pending: Seq<PublishTokenView>, events: Seq<EventView>) -> (
    Seq<PublishTokenView>,
    Option<Result<OkResponseView, ErrorView>>,
)
    decreases events.len(),
{
    if events.len() == 0 {
        (pending, None)
    } else {
        let (kept, outcome) = reply_step(pending, events[0]);
        if outcome is Some {
            (kept, outcome)
        } else {
            await_reply(kept, events.drop_first())
        }
    }
}

/// The publish tokens among the events of a stream, in the order of their
/// arrival.
pub open spec fn tokens_among(events: Seq<EventView>) -> Seq<PublishTokenView>
    decreases events.len(),
{
    if events.len() == 0 {
        Seq::empty()
    } else {
        let rest = tokens_among(events.drop_first());
        match events[0] {
            EventView::Line(line) => match response_at(line_body(line)) {
                Ok((ResponseView::Event(token), _)) => if is_response_line(line)
                    && is_complete_line(line) {
                    seq![token] + rest
                } else {
                    rest
                },
                _ => rest,
            },
            EventView::EndOfStream => rest,
        }
    }
}

/// No publish token is dropped while a reply is awaited: those that were
/// pending before are pending afterwards, in the same order and in front of
/// any that came since, however the wait ends.
pub proof fn lemma_pending_tokens_stay(pending: Seq<PublishTokenView>, events: Seq<EventView>)
    ensures
        pending.is_prefix_of(await_reply(pending, events).0),
    decreases events.len(),
{
    if events.len() > 0 {
        let (kept, outcome) = reply_step(pending, events[0]);
        assert(pending.is_prefix_of(kept));
        if outcome is None {
            lemma_pending_tokens_stay(kept, events.drop_first());
        }
    }
}

/// A reply line always ends the wait for a reply: it is never taken for a
/// publish token, nor passed over.
pub proof fn lemma_reply_line_ends_wait(pending: Seq<PublishTokenView>, line: Seq<char>)
    requires
        is_reply_line(line),
    ensures
        is_response_line(line),
        is_complete_line(line) ==> !(response_at(line_body(line)) matches Ok(
            (ResponseView::Event(_), _),
        )),
        reply_step(pending, EventView::Line(line)).1 is Some,
        reply_step(pending, EventView::Line(line)).0 == pending,
{
    reveal_strlit("! \"publishToken\":");
    reveal_strlit("+OK");
    reveal_strlit("-ERR");
    let body = line_body(line);
    if is_complete_line(line) && has_literal(body, 0, "! \"publishToken\":"@) {
        assert(body.subrange(0, 17)[0] == '!');
        assert(line[0] == body[0]);
        assert(run_end(line, 0, CharClass::Blank) == 0);
    }
}

/// The first reply line after a command is the reply to it, and the publish
/// tokens that arrive before it are kept in the order of their arrival.
///
/// Let the events that follow a command begin with `k` lines that do not end
/// the wait (blank lines, the echo, publish tokens), and let a reply line
/// come next. Then the wait ends with what that line alone says, and the
/// pending publish tokens are those from before, followed by those among
/// the `k` lines, first come first.
#[verifier::rlimit(40)]
pub proof fn lemma_first_reply_answers(
    pending: Seq<PublishTokenView>,
    events: Seq<EventView>,
    k: int,
)
    requires
        0 <= k < events.len(),
        forall|i: int| 0 <= i < k ==> (#[trigger] reply_step(Seq::empty(), events[i])).1 is None,
        events[k] matches EventView::Line(line) && is_reply_line(line),
    ensures
        await_reply(pending, events).1 is Some,
        await_reply(pending, events).1 == reply_step(Seq::empty(), events[k]).1,
        await_reply(pending, events).0 == pending + tokens_among(events.take(k)),
    decreases k,
{
    let line = events[k]->Line_0;
    if k == 0 {
        lemma_reply_line_ends_wait(pending, line);
        lemma_reply_line_ends_wait(Seq::empty(), line);
        assert(events.take(0) =~= Seq::empty());
        assert(pending + Seq::<PublishTokenView>::empty() =~= pending);
    } else {
        let first = events[0];
        let rest = events.drop_first();
        assert(reply_step(Seq::empty(), first).1 is None);
        let kept = reply_step(pending, first).0;
        assert(reply_step(pending, first).1 is None);
        assert forall|i: int| 0 <= i < k - 1 implies (#[trigger] reply_step(
            Seq::empty(),
            rest[i],
        )).1 is None by {
            assert(rest[i] == events[i + 1]);
        }
        assert(rest[k - 1] == events[k]);
        lemma_first_reply_answers(kept, rest, k - 1);
        assert(events.take(k).drop_first() =~= rest.take(k - 1));
        assert(events.take(k)[0] == first);
        let among = tokens_among(rest.take(k - 1));
        assert(kept + among =~= pending + tokens_among(events.take(k)));
    }
}

/// The names in a list of values: its strings, each once, in the order in
/// which they first occur. Values of other kinds do not count.
pub open spec fn alias_names(items: Seq<ValueView>) -> Seq<Seq<char>>
    decreases items.len(),
{
    if items.len() == 0 {
        Seq::empty()
    } else {
        let found = alias_names(items.drop_last());
        match items.last() {
            ValueView::String(name) => if found.contains(name) {
                found
            } else {
                found.push(name)
            },
            _ => found,
        }
    }
}

/// What the reply to the request for the aliases gives: the names in its
/// list; a reply without a list is not what was expected.
pub open spec fn aliases_of(reply: OkResponseView) -> Result<Seq<Seq<char>>, ErrorView> {
    match reply {
        OkResponseView::WithList(items) => Ok(alias_names(items)),
        other => Err(
            ErrorView::UnexpectedResponse(
                ResponseView::Success(other),
                "a response with a list of aliases"@,
            ),
        ),
    }
}

/// The names of a list form a set: none occurs twice, and a name is among
/// them exactly if the list holds it as a string.
#[verifier::rlimit(40)]
pub proof fn lemma_alias_names_form_a_set(items: Seq<ValueView>)
    ensures
        alias_names(items).no_duplicates(),
        forall|name: Seq<char>| #[trigger]
            alias_names(items).contains(name) <==> items.contains(ValueView::String(name)),
    decreases items.len(),
{
    if items.len() > 0 {
        let head = items.drop_last();
        lemma_alias_names_form_a_set(head);
        let found = alias_names(head);
        let names = alias_names(items);
        assert forall|name: Seq<char>| #[trigger]
            names.contains(name) <==> items.contains(ValueView::String(name)) by {
            let wanted = ValueView::String(name);
            if items.contains(wanted) {
                let i = choose|i: int| 0 <= i < items.len() && items[i] == wanted;
                if i < items.len() - 1 {
                    assert(head[i] == wanted);
                    assert(found.contains(name));
                    let j = choose|j: int| 0 <= j < found.len() && found[j] == name;
                    assert(names[j] == name);
                } else {
                    assert(items.last() == wanted);
                    if found.contains(name) {
                    } else {
                        assert(names[names.len() - 1] == name);
                    }
                }
            }
            if names.contains(name) {
                let j = choose|j: int| 0 <= j < names.len() && names[j] == name;
                if j < found.len() {
                    assert(found[j] == name);
                    assert(found.contains(name));
                    let i = choose|i: int| 0 <= i < head.len() && head[i] == wanted;
                    assert(items[i] == wanted);
                } else {
                    assert(items[items.len() - 1] == wanted);
                }
            }
        }
    }
}

/// The contents of a queue of publish tokens.
pub open spec fn tokens_view(tokens: Seq<PublishToken>) -> Seq<PublishTokenView> {
    Seq::new(tokens.len(), |i: int| tokens[i]@)
}

/// What a line is to the session.
enum Reading {
    /// Not a response: to be passed over.
    Skipped,
    /// A response line without its line feed.
    CutShort,
    /// A response.
    Read(Response),
    /// A response line whose body could not be read.
    Failed(Error),
}

/// Reads a line the way both waits do.
fn read_line(line: &str) -> (reading: Reading)
    ensures
        match reading {
            Reading::Skipped => !is_response_line(line@),
            Reading::CutShort => is_response_line(line@) && !is_complete_line(line@),
            Reading::Read(r) => is_response_line(line@) && is_complete_line(line@) && (
            response_at(line_body(line@)) matches Ok((view, _)) && view == r@),
            Reading::Failed(e) => is_response_line(line@) && is_complete_line(line@) && (
            response_at(line_body(line@)) matches Err(at) && e@ == parsing_failed(
                line_body(line@),
                at,
            )),
        },
{
    let src = Text::new(line);
    let n = src.len();
    let first = src.run(0, CharClass::Blank);
    if !(first < n && (src.at(first) == '+' || src.at(first) == '-' || src.at(first) == '!')) {
        return Reading::Skipped;
    }
    if src.at(n - 1) != '\n' {
        return Reading::CutShort;
    }
    let end = if n >= 2 && src.at(n - 2) == '\r' {
        n - 2
    } else {
        n - 1
    };
    let body = Text::new(src.slice(0, end));
    match response(&body) {
        Ok((r, _)) => Reading::Read(r),
        Err(at) => Reading::Failed(Error::parsing_failed(error_at(&body, at))),
    }
}

/// Follows an active Tesira Text Protocol session.
pub struct TesiraSession {
    phase: Phase,
    pending_token: VecDeque<PublishToken>,
}

impl TesiraSession {
    /// Where the session stands.
    pub closed spec fn phase(&self) -> Phase {
        self.phase
    }

    /// The publish tokens that have arrived and were not yet handed out,
    /// oldest first.
    pub closed spec fn pending(&self) -> Seq<PublishTokenView> {
        tokens_view(self.pending_token@)
    }

    /// A session on a stream that was just opened: the banner is still to
    /// come.
    pub fn new() -> (session: Self)
        ensures
            session.phase() == Phase::Handshake,
            session.pending().len() == 0,
    {
        let session = TesiraSession { phase: Phase::Handshake, pending_token: VecDeque::new() };
        assert(session.pending() =~= Seq::empty());
        session
    }

    /// Where the session stands.
    pub fn current_phase(&self) -> (phase: Phase)
        ensures
            phase == self.phase(),
    {
        self.phase
    }

    /// Takes one event of the handshake. The session is ready once a line
    /// has begun with `Welcome`; every line before it is passed over.
    pub fn handshake(&mut self, event: Event) -> (step: Step<Result<(), Error>>)
        requires
            old(self).phase() == Phase::Handshake,
        ensures
            final(self).pending() == old(self).pending(),
            match step {
                Step::ReadMore => banner_step(event@) is None && final(self).phase()
                    == Phase::Handshake,
                Step::Done(Ok(())) => banner_step(event@) == Some(Ok::<(), ErrorView>(()))
                    && final(self).phase() == Phase::Ready,
                Step::Done(Err(e)) => banner_step(event@) == Some(Err::<(), _>(e@))
                    && final(self).phase() == Phase::Handshake,
            },
    {
        match event {
            Event::EndOfStream => Step::Done(Err(Error::UnexpectedEnd)),
            Event::Line(line) => {
                let src = Text::new(line);
                if src.literal_at(0, "Welcome") {
                    self.phase = Phase::Ready;
                    Step::Done(Ok(()))
                } else {
                    Step::ReadMore
                }
            },
        }
    }

    /// Starts an exchange: hands back the line to write for `cmd`, line feed
    /// included, and from then on awaits the reply.
    pub fn send_command(&mut self, cmd: Command) -> (line: String)
        requires
            old(self).phase() == Phase::Ready,
        ensures
            line@ == cmd.ttp().push('\n'),
            final(self).phase() == Phase::AwaitingReply,
            final(self).pending() == old(self).pending(),
    {
        let mut line = cmd.into_ttp();
        proof {
            reveal_strlit("\n");
        }
        line.append("\n");
        assert(line@ =~= cmd.ttp().push('\n'));
        self.phase = Phase::AwaitingReply;
        line
    }

    /// Gives up on the reply that is due, as a driver does when it can no
    /// longer read. The publish tokens that are pending stay.
    pub fn abandon(&mut self)
        requires
            old(self).phase() == Phase::AwaitingReply,
        ensures
            final(self).phase() == Phase::Ready,
            final(self).pending() == old(self).pending(),
    {
        self.phase = Phase::Ready;
    }

    /// Takes one event while a reply is due. Publish tokens that come before
    /// the reply are kept for [`TesiraSession::recv_token`].
    pub fn recv_response(&mut self, event: Event) -> (step: Step<Result<OkResponse, Error>>)
        requires
            old(self).phase() == Phase::AwaitingReply,
        ensures
            final(self).pending() == reply_step(old(self).pending(), event@).0,
            match step {
                Step::ReadMore => reply_step(old(self).pending(), event@).1 is None
                    && final(self).phase() == Phase::AwaitingReply,
                Step::Done(Ok(ok)) => reply_step(old(self).pending(), event@).1 == Some(
                    Ok::<_, ErrorView>(ok@),
                ) && final(self).phase() == Phase::Ready,
                Step::Done(Err(e)) => reply_step(old(self).pending(), event@).1 == Some(
                    Err::<OkResponseView, _>(e@),
                ) && final(self).phase() == Phase::Ready,
            },
    {
        match event {
            Event::EndOfStream => {
                self.phase = Phase::Ready;
                Step::Done(Err(Error::UnexpectedEnd))
            },
            Event::Line(line) => match read_line(line) {
                Reading::Skipped => Step::ReadMore,
                Reading::CutShort => {
                    self.phase = Phase::Ready;
                    Step::Done(Err(Error::UnexpectedEnd))
                },
                Reading::Read(Response::PublishToken(token)) => {
                    let ghost before = self.pending_token@;
                    self.pending_token.push_back(token);
                    assert(tokens_view(self.pending_token@) =~= tokens_view(before).push(token@));
                    Step::ReadMore
                },
                Reading::Read(Response::Success(ok)) => {
                    self.phase = Phase::Ready;
                    Step::Done(Ok(ok))
                },
                Reading::Read(Response::Failure(e)) => {
                    self.phase = Phase::Ready;
                    Step::Done(Err(Error::OperationFailed(e)))
                },
                Reading::Failed(e) => {
                    self.phase = Phase::Ready;
                    Step::Done(Err(e))
                },
            },
        }
    }

    /// Reads the reply to the request for the aliases, which
    /// `Command::builder().session().aliases()` makes: the strings of its
    /// list, each once, in the order in which they first occur.
    #[verifier::rlimit(40)]
    pub fn get_aliases(reply: OkResponse) -> (aliases: Result<Vec<String>, Error>)
        ensures
            match aliases {
                Ok(names) => aliases_of(reply@) == Ok::<_, ErrorView>(strings_view(names@)),
                Err(e) => aliases_of(reply@) == Err::<Seq<Seq<char>>, _>(e@),
            },
    {
        match reply {
            OkResponse::WithList(items) => {
                let mut names: Vec<String> = Vec::new();
                let mut i: usize = 0;
                proof {
                    lemma_values_view(items@);
                    assert(values_view(items@).take(0) =~= Seq::empty());
                    assert(strings_view(names@) =~= Seq::empty());
                }
                while i < items.len()
                    invariant
                        i <= items.len(),
                        values_view(items@).len() == items.len(),
                        forall|k: int|
                            0 <= k < items.len() ==> (#[trigger] values_view(items@)[k])
                                == items[k]@,
                        strings_view(names@) == alias_names(values_view(items@).take(i as int)),
                    decreases items.len() - i,
                {
                    let ghost upto = values_view(items@).take(i + 1);
                    proof {
                        assert(upto.drop_last() =~= values_view(items@).take(i as int));
                        assert(upto.last() == items[i as int]@);
                    }
                    if let Value::String(name) = &items[i] {
                        if !contains_text(&names, name.as_str()) {
                            let ghost before = names@;
                            names.push(name.clone());
                            assert(strings_view(names@) =~= strings_view(before).push(name@));
                        }
                    }
                    i += 1;
                }
                assert(values_view(items@).take(i as int) =~= values_view(items@));
                Ok(names)
            },
            other => Err(
                Error::UnexpectedResponse(
                    Response::Success(other),
                    "a response with a list of aliases".to_owned(),
                ),
            ),
        }
    }

    /// Hands out the oldest publish token that is pending, if there is one.
    pub fn recv_token(&mut self) -> (token: Option<PublishToken>)
        requires
            old(self).phase() == Phase::Ready,
        ensures
            final(self).phase() == Phase::Ready,
            match token {
                Some(t) => old(self).pending().len() > 0 && t@ == old(self).pending()[0]
                    && final(self).pending() == old(self).pending().drop_first(),
                None => old(self).pending().len() == 0 && final(self).pending().len() == 0,
            },
    {
        let ghost before = self.pending_token@;
        let token = self.pending_token.pop_front();
        proof {
            if token is Some {
                assert(tokens_view(self.pending_token@) =~= tokens_view(before).drop_first());
            }
        }
        token
    }

    /// Takes one event while a publish token is awaited from the stream.
    pub fn recv_token_event(&mut self, event: Event) -> (step: Step<Result<PublishToken, Error>>)
        requires
            old(self).phase() == Phase::Ready,
        ensures
            final(self).phase() == Phase::Ready,
            final(self).pending() == old(self).pending(),
            match step {
                Step::ReadMore => token_step(event@) is None,
                Step::Done(Ok(token)) => token_step(event@) == Some(Ok::<_, ErrorView>(token@)),
                Step::Done(Err(e)) => token_step(event@) == Some(Err::<PublishTokenView, _>(e@)),
            },
    {
        match event {
            Event::EndOfStream => Step::Done(Err(Error::UnexpectedEnd)),
            Event::Line(line) => match read_line(line) {
                Reading::Skipped => Step::ReadMore,
                Reading::CutShort => Step::Done(Err(Error::UnexpectedEnd)),
                Reading::Read(Response::PublishToken(token)) => Step::Done(Ok(token)),
                Reading::Read(other) => Step::Done(
                    Err(Error::UnexpectedResponse(other, "a publish token".to_owned())),
                ),
                Reading::Failed(e) => Step::Done(Err(e)),
            },
        }
    }
}

} // verus!
