//! The protocol's records: commands that go to the device, and the
//! responses and values that come back.

pub mod commands;
pub mod encoding;
pub mod equality;
pub mod grammar;
pub mod parser;

use crate::builder::CommandBuilder;
use crate::decimal::{Decimal, DecimalView};
use crate::proto::grammar::response_at;
use crate::proto::parser::parse_response;
use crate::text::{
    all_in, decimal_string, decimal_text, is_all, signed_decimal_string, signed_decimal_text,
    spaced, strings_view, CharClass,
};
use std::time::Duration;
use vstd::prelude::*;
use vstd::string::StringExecFns;

verus! {

broadcast use {
    vstd::std_specs::vec::axiom_vec_index_decreases,
    vstd::std_specs::vec::axiom_vec_decreases_to_view,
};

/// Name of the block instance a command operates on.
pub type InstanceTag = String;

/// Value of an index: a channel, a band, an input. Counted from 1 on the device.
pub type IndexValue = u64;

/// A client command that can be sent to the device.
#[derive(Debug, Clone)]
pub struct Command<'a> {
    /// Block instance name to apply the command on.
    pub instance_tag: InstanceTag,
    /// The verb; see [`commands`] for the predefined ones.
    pub command: &'a str,
    /// Attribute to apply the command on.
    pub attribute: &'a str,
    /// Indexes that narrow down the target; may be empty.
    pub indexes: Vec<IndexValue>,
    /// Value tokens that close the command, each already written as the
    /// protocol wants it; may be empty.
    pub values: Vec<String>,
}

/// Conversion to a token of the Tesira Text Protocol.
pub trait IntoTTP: Sized {
    /// The token this value is written as.
    spec fn ttp(&self) -> Seq<char>;

    /// Writes the value as a token.
    fn into_ttp(self) -> (token: String)
        ensures
            token@ == self.ttp(),
    ;
}

/// The texts of a list of indexes: each in decimal, without sign.
pub open spec fn index_texts(indexes: Seq<IndexValue>) -> Seq<Seq<char>> {
    Seq::new(indexes.len(), |i: int| decimal_text(indexes[i] as nat))
}

/// The request line of a command, without its line feed: instance tag, verb
/// and attribute, then the indexes, then the value tokens, with exactly one
/// space between any two of them.
pub open spec fn command_text(
    instance_tag: Seq<char>,
    command: Seq<char>,
    attribute: Seq<char>,
    indexes: Seq<IndexValue>,
    values: Seq<String>,
) -> Seq<char> {
    instance_tag + seq![' '] + command + seq![' '] + attribute + spaced(index_texts(indexes))
        + spaced(strings_view(values))
}

/// Whether `s` can stand as a field of a request line: it is not empty and
/// holds no white space.
pub open spec fn is_field(s: Seq<char>) -> bool {
    s.len() > 0 && all_in(s, CharClass::Visible)
}

impl<'a> Command<'a> {
    /// Whether the command can be written as one request line: instance tag,
    /// verb and attribute are fields, and no value token holds a line feed.
    pub open spec fn well_formed(&self) -> bool {
        &&& is_field(self.instance_tag@)
        &&& is_field(self.command@)
        &&& is_field(self.attribute@)
        &&& forall|i: int|
            0 <= i < self.values.len() ==> all_in(
                #[trigger] strings_view(self.values@)[i],
                CharClass::LineBody,
            )
    }

    /// Tests whether the command can be written as one request line.
    pub fn is_well_formed(&self) -> (well: bool)
        ensures
            well == self.well_formed(),
    {
        if !(is_field_text(self.instance_tag.as_str()) && is_field_text(self.command)
            && is_field_text(self.attribute)) {
            return false;
        }
        let mut i: usize = 0;
        while i < self.values.len()
            invariant
                i <= self.values.len(),
                forall|k: int|
                    0 <= k < i ==> all_in(
                        #[trigger] strings_view(self.values@)[k],
                        CharClass::LineBody,
                    ),
            decreases self.values.len() - i,
        {
            if !is_all(self.values[i].as_str(), CharClass::LineBody) {
                assert(strings_view(self.values@)[i as int] == self.values@[i as int]@);
                return false;
            }
            i += 1;
        }
        true
    }

    /// Get a builder to construct valid commands.
    pub fn builder() -> CommandBuilder {
        CommandBuilder
    }

    /// Create a new "get" command.
    pub fn new_get(instance_tag: &str, attribute: &'a str, indexes: Vec<IndexValue>) -> (cmd: Self)
        ensures
            cmd.instance_tag@ == instance_tag@,
            cmd.command@ == commands::COMMAND_GET@,
            cmd.attribute@ == attribute@,
            cmd.indexes@ == indexes@,
            cmd.values@.len() == 0,
    {
        Command {
            instance_tag: instance_tag.to_owned(),
            command: commands::COMMAND_GET,
            attribute,
            indexes,
            values: Vec::new(),
        }
    }

    /// Create a new "set" command.
    pub fn new_set<V: IntoTTP>(
        instance_tag: &str,
        attribute: &'a str,
        indexes: Vec<IndexValue>,
        value: V,
    ) -> (cmd: Self)
        ensures
            cmd.instance_tag@ == instance_tag@,
            cmd.command@ == commands::COMMAND_SET@,
            cmd.attribute@ == attribute@,
            cmd.indexes@ == indexes@,
            strings_view(cmd.values@) == seq![value.ttp()],
    {
        let cmd = Command {
            instance_tag: instance_tag.to_owned(),
            command: commands::COMMAND_SET,
            attribute,
            indexes,
            values: vec![value.into_ttp()],
        };
        assert(strings_view(cmd.values@) =~= seq![value.ttp()]);
        cmd
    }

    /// Create a new "increment" command.
    pub fn new_increment<V: IntoTTP>(
        instance_tag: &str,
        attribute: &'a str,
        indexes: Vec<IndexValue>,
        amount: V,
    ) -> (cmd: Self)
        ensures
            cmd.instance_tag@ == instance_tag@,
            cmd.command@ == commands::COMMAND_INCREMENT@,
            cmd.attribute@ == attribute@,
            cmd.indexes@ == indexes@,
            strings_view(cmd.values@) == seq![amount.ttp()],
    {
        let cmd = Command {
            instance_tag: instance_tag.to_owned(),
            command: commands::COMMAND_INCREMENT,
            attribute,
            indexes,
            values: vec![amount.into_ttp()],
        };
        assert(strings_view(cmd.values@) =~= seq![amount.ttp()]);
        cmd
    }

    /// Create a new "decrement" command.
    pub fn new_decrement<V: IntoTTP>(
        instance_tag: &str,
        attribute: &'a str,
        indexes: Vec<IndexValue>,
        amount: V,
    ) -> (cmd: Self)
        ensures
            cmd.instance_tag@ == instance_tag@,
            cmd.command@ == commands::COMMAND_DECREMENT@,
            cmd.attribute@ == attribute@,
            cmd.indexes@ == indexes@,
            strings_view(cmd.values@) == seq![amount.ttp()],
    {
        let cmd = Command {
            instance_tag: instance_tag.to_owned(),
            command: commands::COMMAND_DECREMENT,
            attribute,
            indexes,
            values: vec![amount.into_ttp()],
        };
        assert(strings_view(cmd.values@) =~= seq![amount.ttp()]);
        cmd
    }

    /// Create a new "subscribe" command.
    pub fn new_subscribe(
        instance_tag: &str,
        attribute: &'a str,
        indexes: Vec<IndexValue>,
        identifier: &str,
    ) -> (cmd: Self)
        ensures
            cmd.instance_tag@ == instance_tag@,
            cmd.command@ == commands::COMMAND_SUBSCRIBE@,
            cmd.attribute@ == attribute@,
            cmd.indexes@ == indexes@,
            strings_view(cmd.values@) == seq![identifier@],
    {
        let cmd = Command {
            instance_tag: instance_tag.to_owned(),
            command: commands::COMMAND_SUBSCRIBE,
            attribute,
            indexes,
            values: vec![identifier.to_owned()],
        };
        assert(strings_view(cmd.values@) =~= seq![identifier@]);
        cmd
    }

    /// Create a new "subscribe" command with a minimum rate.
    pub fn new_subscribe_with_rate(
        instance_tag: &str,
        attribute: &'a str,
        indexes: Vec<IndexValue>,
        identifier: &str,
        rate: Duration,
    ) -> (cmd: Self)
        ensures
            cmd.instance_tag@ == instance_tag@,
            cmd.command@ == commands::COMMAND_SUBSCRIBE@,
            cmd.attribute@ == attribute@,
            cmd.indexes@ == indexes@,
            strings_view(cmd.values@) == seq![
                identifier@,
                decimal_text(duration_millis(rate) as nat),
            ],
    {
        Command::new_subscribe_with_millis(
            instance_tag,
            attribute,
            indexes,
            identifier,
            as_millis(rate),
        )
    }

    /// Create a new "subscribe" command with a minimum rate of `millis`
    /// milliseconds.
    pub fn new_subscribe_with_millis(
        instance_tag: &str,
        attribute: &'a str,
        indexes: Vec<IndexValue>,
        identifier: &str,
        millis: u128,
    ) -> (cmd: Self)
        ensures
            cmd.instance_tag@ == instance_tag@,
            cmd.command@ == commands::COMMAND_SUBSCRIBE@,
            cmd.attribute@ == attribute@,
            cmd.indexes@ == indexes@,
            strings_view(cmd.values@) == seq![identifier@, decimal_text(millis as nat)],
    {
        let cmd = Command {
            instance_tag: instance_tag.to_owned(),
            command: commands::COMMAND_SUBSCRIBE,
            attribute,
            indexes,
            values: vec![identifier.to_owned(), millis.into_ttp()],
        };
        assert(strings_view(cmd.values@) =~= seq![identifier@, decimal_text(millis as nat)]);
        cmd
    }

    /// Create a new "unsubscribe" command.
    pub fn new_unsubscribe(
        instance_tag: &str,
        attribute: &'a str,
        indexes: Vec<IndexValue>,
        identifier: &str,
    ) -> (cmd: Self)
        ensures
            cmd.instance_tag@ == instance_tag@,
            cmd.command@ == commands::COMMAND_UNSUBSCRIBE@,
            cmd.attribute@ == attribute@,
            cmd.indexes@ == indexes@,
            strings_view(cmd.values@) == seq![identifier@],
    {
        let cmd = Command {
            instance_tag: instance_tag.to_owned(),
            command: commands::COMMAND_UNSUBSCRIBE,
            attribute,
            indexes,
            values: vec![identifier.to_owned()],
        };
        assert(strings_view(cmd.values@) =~= seq![identifier@]);
        cmd
    }
}

/// Tests whether `text` can stand as a field of a request line.
fn is_field_text(text: &str) -> (field: bool)
    ensures
        field == is_field(text@),
{
    !text.is_empty() && is_all(text, CharClass::Visible)
}

/// The decimal digits of a number hold no line feed.
proof fn lemma_decimal_text_one_line(n: nat)
    ensures
        all_in(decimal_text(n), CharClass::LineBody),
    decreases n,
{
    if n >= 10 {
        lemma_decimal_text_one_line(n / 10);
    }
}

/// Parts without a line feed give a spaced text without one.
proof fn lemma_spaced_one_line(parts: Seq<Seq<char>>)
    requires
        forall|i: int| 0 <= i < parts.len() ==> all_in(#[trigger] parts[i], CharClass::LineBody),
    ensures
        all_in(spaced(parts), CharClass::LineBody),
    decreases parts.len(),
{
    if parts.len() > 0 {
        let head = parts.drop_last();
        assert forall|i: int| 0 <= i < head.len() implies all_in(
            #[trigger] head[i],
            CharClass::LineBody,
        ) by {
            assert(head[i] == parts[i]);
        }
        lemma_spaced_one_line(head);
        assert(all_in(parts.last(), CharClass::LineBody));
    }
}

/// A well-formed command is written as one line: its text holds no line
/// feed.
pub proof fn lemma_command_is_one_line(cmd: Command)
    requires
        cmd.well_formed(),
    ensures
        all_in(cmd.ttp(), CharClass::LineBody),
        cmd.ttp().len() > 0,
{
    let indexes = index_texts(cmd.indexes@);
    let values = strings_view(cmd.values@);
    assert forall|i: int| 0 <= i < indexes.len() implies all_in(
        #[trigger] indexes[i],
        CharClass::LineBody,
    ) by {
        lemma_decimal_text_one_line(cmd.indexes@[i] as nat);
    }
    lemma_spaced_one_line(indexes);
    lemma_spaced_one_line(values);
}

/// The whole milliseconds that a duration holds.
pub uninterp spec fn duration_millis(d: Duration) -> u128;

/// Calls `Duration::as_millis`, which gives the total number of whole
/// milliseconds in the duration. The duration is opaque here, so the
/// contract only gives that number a name.
#[verifier::external_body]
pub(crate) fn as_millis(d: Duration) -> (ms: u128)
    ensures
        ms == duration_millis(d),
{
    d.as_millis()
}

impl<'a> IntoTTP for Command<'a> {
    open spec fn ttp(&self) -> Seq<char> {
        command_text(
            self.instance_tag@,
            self.command@,
            self.attribute@,
            self.indexes@,
            self.values@,
        )
    }

    fn into_ttp(self) -> (token: String) {
        let mut line = self.instance_tag;
        proof {
            reveal_strlit(" ");
        }
        line.append(" ");
        line.append(self.command);
        line.append(" ");
        line.append(self.attribute);
        assert(line@ =~= self.instance_tag@ + seq![' '] + self.command@ + seq![' ']
            + self.attribute@);
        let ghost head = line@;
        let mut i: usize = 0;
        while i < self.indexes.len()
            invariant
                i <= self.indexes.len(),
                " "@ == seq![' '],
                line@ == head + spaced(index_texts(self.indexes@.subrange(0, i as int))),
            decreases self.indexes.len() - i,
        {
            let ghost before = line@;
            let digits = decimal_string(self.indexes[i] as u128);
            line.append(" ");
            line.append(digits.as_str());
            proof {
                let done = index_texts(self.indexes@.subrange(0, i as int));
                let next = index_texts(self.indexes@.subrange(0, i + 1));
                assert(next.drop_last() =~= done);
                assert(next.last() == digits@);
                assert(line@ =~= head + (spaced(done) + seq![' '] + digits@));
            }
            i += 1;
        }
        assert(self.indexes@.subrange(0, i as int) == self.indexes@);
        let ghost head = line@;
        let mut j: usize = 0;
        while j < self.values.len()
            invariant
                j <= self.values.len(),
                " "@ == seq![' '],
                line@ == head + spaced(strings_view(self.values@.subrange(0, j as int))),
            decreases self.values.len() - j,
        {
            line.append(" ");
            line.append(self.values[j].as_str());
            proof {
                let done = strings_view(self.values@.subrange(0, j as int));
                let next = strings_view(self.values@.subrange(0, j + 1));
                assert(next.drop_last() =~= done);
                assert(next.last() == self.values@[j as int]@);
                assert(line@ =~= head + (spaced(done) + seq![' '] + self.values@[j as int]@));
            }
            j += 1;
        }
        assert(self.values@.subrange(0, j as int) == self.values@);
        line
    }
}

impl IntoTTP for String {
    open spec fn ttp(&self) -> Seq<char> {
        self@
    }

    fn into_ttp(self) -> (token: String) {
        self
    }
}

impl IntoTTP for bool {
    open spec fn ttp(&self) -> Seq<char> {
        if *self {
            "true"@
        } else {
            "false"@
        }
    }

    fn into_ttp(self) -> (token: String) {
        match self {
            true => "true".to_owned(),
            false => "false".to_owned(),
        }
    }
}

impl IntoTTP for i32 {
    open spec fn ttp(&self) -> Seq<char> {
        signed_decimal_text(*self as int)
    }

    fn into_ttp(self) -> (token: String) {
        signed_decimal_string(self as i64)
    }
}

impl IntoTTP for u128 {
    open spec fn ttp(&self) -> Seq<char> {
        decimal_text(*self as nat)
    }

    fn into_ttp(self) -> (token: String) {
        decimal_string(self)
    }
}

impl IntoTTP for u64 {
    open spec fn ttp(&self) -> Seq<char> {
        decimal_text(*self as nat)
    }

    fn into_ttp(self) -> (token: String) {
        decimal_string(self as u128)
    }
}

impl IntoTTP for Decimal {
    open spec fn ttp(&self) -> Seq<char> {
        self@.text()
    }

    fn into_ttp(self) -> (token: String) {
        self.to_text()
    }
}

/// A structured value sent by the device.
#[derive(Debug)]
pub enum Value {
    /// A decimal number.
    Number(Decimal),
    /// `true` or `false`.
    Boolean(bool),
    /// A quoted string.
    String(String),
    /// Keys with their values, in the order they were written. Where a key
    /// occurs more than once, its last value counts.
    Mapping(Vec<(String, Value)>),
    /// A sequence of values of any kind.
    Array(Vec<Value>),
    /// A bare word such as `DHCP` or `LINK_1_GB`.
    Constant(String),
}

/// The mathematical content of a [`Value`].
pub enum ValueView {
    /// A decimal number.
    Number(DecimalView),
    /// A truth value.
    Boolean(bool),
    /// The characters of a string.
    String(Seq<char>),
    /// A finite map from keys to values.
    Mapping(Map<Seq<char>, ValueView>),
    /// A sequence of values.
    Array(Seq<ValueView>),
    /// The characters of a bare word.
    Constant(Seq<char>),
}

/// The contents of a list of values.
pub open spec fn values_view(items: Seq<Value>) -> Seq<ValueView>
    decreases items,
{
    if items.len() > 0 {
        values_view(items.drop_last()).push(value_view(items.last()))
    } else {
        Seq::empty()
    }
}

/// The map that a list of entries stands for: later entries override
/// earlier ones with the same key.
pub open spec fn entries_view(entries: Seq<(String, Value)>) -> Map<Seq<char>, ValueView>
    decreases entries,
{
    if entries.len() > 0 {
        entries_view(entries.drop_last()).insert(entries.last().0@, value_view(entries.last().1))
    } else {
        Map::empty()
    }
}

/// The contents of a value.
pub open spec fn value_view(v: Value) -> ValueView
    decreases v,
{
    match v {
        Value::Number(d) => ValueView::Number(d@),
        Value::Boolean(b) => ValueView::Boolean(b),
        Value::String(s) => ValueView::String(s@),
        Value::Mapping(entries) => ValueView::Mapping(entries_view(entries@)),
        Value::Array(items) => ValueView::Array(values_view(items@)),
        Value::Constant(s) => ValueView::Constant(s@),
    }
}

impl View for Value {
    type V = ValueView;

    open spec fn view(&self) -> ValueView {
        value_view(*self)
    }
}

impl Clone for Value {
    #[verifier::rlimit(40)]
    fn clone(&self) -> (copy: Self)
        ensures
            copy@ == self@,
        decreases self,
    {
        match self {
            Value::Number(d) => Value::Number(d.clone()),
            Value::Boolean(b) => Value::Boolean(*b),
            Value::String(s) => Value::String(s.clone()),
            Value::Constant(s) => Value::Constant(s.clone()),
            Value::Array(items) => {
                let mut copies: Vec<Value> = Vec::new();
                let mut i: usize = 0;
                assert(items@.take(0) =~= Seq::<Value>::empty());
                while i < items.len()
                    invariant
                        i <= items.len(),
                        *self == Value::Array(*items),
                        copies.len() == i,
                        values_view(copies@) == values_view(items@.take(i as int)),
                    decreases items.len() - i,
                {
                    proof {
                        assert(self->Array_0 == *items);
                        assert(decreases_to!(*self => self->Array_0));
                        assert(decreases_to!(*items => items[i as int]));
                    }
                    let copy = items[i].clone();
                    let ghost before = copies@;
                    copies.push(copy);
                    proof {
                        assert(copies@.drop_last() =~= before);
                        assert(items@.take(i + 1).drop_last() =~= items@.take(i as int));
                    }
                    i += 1;
                }
                assert(items@.take(i as int) =~= items@);
                Value::Array(copies)
            },
            Value::Mapping(entries) => {
                let mut copies: Vec<(String, Value)> = Vec::new();
                let mut i: usize = 0;
                assert(entries@.take(0) =~= Seq::<(String, Value)>::empty());
                while i < entries.len()
                    invariant
                        i <= entries.len(),
                        *self == Value::Mapping(*entries),
                        copies.len() == i,
                        entries_view(copies@) == entries_view(entries@.take(i as int)),
                    decreases entries.len() - i,
                {
                    proof {
                        assert(self->Mapping_0 == *entries);
                        assert(decreases_to!(*self => self->Mapping_0));
                        assert(decreases_to!(*entries => entries[i as int]));
                        assert(decreases_to!(entries[i as int] => entries[i as int].1));
                    }
                    let copy = (entries[i].0.clone(), entries[i].1.clone());
                    let ghost before = copies@;
                    copies.push(copy);
                    proof {
                        assert(copies@.drop_last() =~= before);
                        assert(entries@.take(i + 1).drop_last() =~= entries@.take(i as int));
                    }
                    i += 1;
                }
                assert(entries@.take(i as int) =~= entries@);
                Value::Mapping(copies)
            },
        }
    }
}

/// The contents of a list of values, item by item.
pub proof fn lemma_values_view(items: Seq<Value>)
    ensures
        values_view(items).len() == items.len(),
        forall|i: int| 0 <= i < items.len() ==> (#[trigger] values_view(items)[i]) == items[i]@,
    decreases items.len(),
{
    if items.len() > 0 {
        lemma_values_view(items.drop_last());
    }
}

/// A positive response to a command.
#[derive(Debug, Clone, PartialEq)]
pub enum OkResponse {
    /// Success, with nothing more to say.
    Bare,
    /// Success, with one value.
    WithValue(Value),
    /// Success, with a list of values.
    WithList(Vec<Value>),
}

/// The mathematical content of an [`OkResponse`].
pub enum OkResponseView {
    /// Bare success.
    Bare,
    /// Success with one value.
    WithValue(ValueView),
    /// Success with a list of values.
    WithList(Seq<ValueView>),
}

impl View for OkResponse {
    type V = OkResponseView;

    open spec fn view(&self) -> OkResponseView {
        match self {
            OkResponse::Bare => OkResponseView::Bare,
            OkResponse::WithValue(v) => OkResponseView::WithValue(v@),
            OkResponse::WithList(items) => OkResponseView::WithList(values_view(items@)),
        }
    }
}

/// A failure reported by the device.
#[derive(Debug, Clone, PartialEq)]
pub struct ErrResponse {
    /// The device's description of what went wrong, word for word.
    pub message: String,
}

impl View for ErrResponse {
    type V = Seq<char>;

    open spec fn view(&self) -> Seq<char> {
        self.message@
    }
}

/// A value update for a subscription.
#[derive(Debug, Clone, PartialEq)]
pub struct PublishToken {
    /// The label the subscription was made under.
    pub label: String,
    /// The new value.
    pub value: Value,
}

/// The mathematical content of a [`PublishToken`].
pub struct PublishTokenView {
    /// The subscription's label.
    pub label: Seq<char>,
    /// The new value.
    pub value: ValueView,
}

impl View for PublishToken {
    type V = PublishTokenView;

    open spec fn view(&self) -> PublishTokenView {
        PublishTokenView { label: self.label@, value: self.value@ }
    }
}

/// Anything the device may send on its own line.
#[derive(Debug, Clone, PartialEq)]
pub enum Response {
    /// The command was carried out.
    Success(OkResponse),
    /// The command failed on the device.
    Failure(ErrResponse),
    /// A subscription has a new value.
    PublishToken(PublishToken),
}

/// The mathematical content of a [`Response`].
pub enum ResponseView {
    /// A positive response.
    Success(OkResponseView),
    /// A failure, with the device's message.
    Failure(Seq<char>),
    /// A value update.
    Event(PublishTokenView),
}

impl View for Response {
    type V = ResponseView;

    open spec fn view(&self) -> ResponseView {
        match self {
            Response::Success(r) => ResponseView::Success(r@),
            Response::Failure(e) => ResponseView::Failure(e@),
            Response::PublishToken(t) => ResponseView::Event(t@),
        }
    }
}

impl Response {
    /// Reads `source` as a response. What follows the response in `source`
    /// is not looked at.
    ///
    /// Fails where `source` does not begin with a response. The error then
    /// holds what is left of `source` at the point where reading stopped, or
    /// says that the text ended there.
    pub fn parse_ttp<'a>(source: &'a str) -> (parsed: Result<Self, Error<'a>>)
        ensures
            match parsed {
                Ok(response) => response_at(source@) matches Ok((view, _)) && view == response@,
                Err(error) => response_at(source@) matches Err(at) && error@ == error_view(
                    source@,
                    at,
                ),
            },
    {
        match parse_response(source) {
            Ok((_, response)) => Ok(response),
            Err(e) => Err(e),
        }
    }
}

/// Why a text could not be read as a response.
#[derive(Debug, Clone, Copy, PartialEq, Eq)]
pub enum Error<'a> {
    /// The text does not follow the grammar. Holds what is left of it at the
    /// point where reading stopped.
    ParseError(&'a str),
    /// The text ended where more was needed.
    UnexpectedEnd,
}

/// The mathematical content of an [`Error`].
pub enum ErrorView {
    /// A violation of the grammar, with the rest of the text.
    ParseError(Seq<char>),
    /// The text ended too early.
    UnexpectedEnd,
}

impl<'a> View for Error<'a> {
    type V = ErrorView;

    open spec fn view(&self) -> ErrorView {
        match self {
            Error::ParseError(span) => ErrorView::ParseError(span@),
            Error::UnexpectedEnd => ErrorView::UnexpectedEnd,
        }
    }
}

/// The error for a text `s` that could not be read beyond `at`: the rest of
/// the text, if there is any.
pub open spec fn error_view(s: Seq<char>, at: int) -> ErrorView {
    if 0 <= at < s.len() {
        ErrorView::ParseError(s.subrange(at, s.len() as int))
    } else {
        ErrorView::UnexpectedEnd
    }
}

impl ErrorView {
    /// The error in words.
    pub open spec fn message(self) -> Seq<char> {
        match self {
            ErrorView::ParseError(span) => "Response parse error: "@ + span,
            ErrorView::UnexpectedEnd => "Unexpected end of input"@,
        }
    }
}

impl<'a> Error<'a> {
    /// The error in words.
    pub fn message(&self) -> (text: String)
        ensures
            text@ == self@.message(),
    {
        match self {
            Error::ParseError(span) => {
                let mut text = "Response parse error: ".to_owned();
                text.append(span);
                text
            },
            Error::UnexpectedEnd => "Unexpected end of input".to_owned(),
        }
    }
}

} // verus!
