//! The block catalog, and the typed command surface that it drives.
//!
//! A catalog says, for each family of blocks, which attributes its blocks
//! have, which verbs each attribute takes, which indexes address it and what
//! kind of value it holds. The surface makes commands from that: a verb is
//! only taken where the attribute declares it, with as many indexes as it
//! declares, and with a value of the declared kind.

use crate::builder::{
    frequency_gain_text, frequency_gain_token, type_slope_text, type_slope_token, DelayValue,
    FilterSlope, FilterType,
};
use crate::datetime::DateTime;
use crate::decimal::Decimal;
use crate::proto::{as_millis, duration_millis, Command, IndexValue, IntoTTP};
use crate::text::{contains_text, decimal_string, decimal_text, same_text, strings_view};
use std::time::Duration;
use vstd::prelude::*;

verus! {

/// What a command asks for.
#[derive(Debug, Clone, Copy, PartialEq, Eq, Structural)]
pub enum Verb {
    Get,
    /// `set`: gives the attribute a value.
    Assign,
    Increment,
    Decrement,
    Toggle,
    Subscribe,
    Unsubscribe,
    Dial,
    SpeedDial,
    Redial,
    End,
    Flash,
    Send,
    Dtmf,
    Answer,
    Lconf,
    Resume,
    Hold,
    OffHook,
    OnHook,
}

impl Verb {
    /// The verb as it is written on the wire: in lower case, but for
    /// `speedDial`, `offHook` and `onHook`.
    pub open spec fn text(self) -> Seq<char> {
        match self {
            Verb::Get => "get"@,
            Verb::Assign => "set"@,
            Verb::Increment => "increment"@,
            Verb::Decrement => "decrement"@,
            Verb::Toggle => "toggle"@,
            Verb::Subscribe => "subscribe"@,
            Verb::Unsubscribe => "unsubscribe"@,
            Verb::Dial => "dial"@,
            Verb::SpeedDial => "speedDial"@,
            Verb::Redial => "redial"@,
            Verb::End => "end"@,
            Verb::Flash => "flash"@,
            Verb::Send => "send"@,
            Verb::Dtmf => "dtmf"@,
            Verb::Answer => "answer"@,
            Verb::Lconf => "lconf"@,
            Verb::Resume => "resume"@,
            Verb::Hold => "hold"@,
            Verb::OffHook => "offHook"@,
            Verb::OnHook => "onHook"@,
        }
    }

    /// The verb as it is written on the wire.
    pub fn keyword(self) -> (word: &'static str)
        ensures
            word@ == self.text(),
    {
        match self {
            Verb::Get => "get",
            Verb::Assign => "set",
            Verb::Increment => "increment",
            Verb::Decrement => "decrement",
            Verb::Toggle => "toggle",
            Verb::Subscribe => "subscribe",
            Verb::Unsubscribe => "unsubscribe",
            Verb::Dial => "dial",
            Verb::SpeedDial => "speedDial",
            Verb::Redial => "redial",
            Verb::End => "end",
            Verb::Flash => "flash",
            Verb::Send => "send",
            Verb::Dtmf => "dtmf",
            Verb::Answer => "answer",
            Verb::Lconf => "lconf",
            Verb::Resume => "resume",
            Verb::Hold => "hold",
            Verb::OffHook => "offHook",
            Verb::OnHook => "onHook",
        }
    }
}

/// What an index of an attribute selects.
#[derive(Debug, Clone, Copy, PartialEq, Eq, Structural)]
pub enum IndexRole {
    Channel,
    AvChannel,
    AuxiliaryAudioChannel,
    Band,
    Filter,
    Command,
    InputGroup,
    /// A place in the catalog that stands for no index at all.
    Unused,
    Line,
    SpeedDialEntry,
    CallAppearance,
    CallAppearanceIndex,
    Source,
    Output,
    Input,
    Room,
    Wall,
    Hostname,
    Port,
}

impl IndexRole {
    /// Whether the role stands for an index that a command carries.
    pub open spec fn counts(self) -> bool {
        self != IndexRole::Unused
    }

    /// The name under which the surface takes the index; none for a role
    /// that stands for no index.
    pub open spec fn parameter_text(self) -> Option<Seq<char>> {
        match self {
            IndexRole::Channel => Some("channel_index"@),
            IndexRole::AvChannel => Some("av_channel_index"@),
            IndexRole::AuxiliaryAudioChannel => Some("auxiliary_audio_channel_index"@),
            IndexRole::Band => Some("band"@),
            IndexRole::Filter => Some("filter"@),
            IndexRole::Command => Some("command"@),
            IndexRole::InputGroup => Some("input_group"@),
            IndexRole::Unused => None,
            IndexRole::Line => Some("line_index"@),
            IndexRole::SpeedDialEntry => Some("speed_dial_entry"@),
            IndexRole::CallAppearance => Some("call_appearance"@),
            IndexRole::CallAppearanceIndex => Some("call_appearance_index"@),
            IndexRole::Source => Some("source_index"@),
            IndexRole::Output => Some("output_index"@),
            IndexRole::Input => Some("input_index"@),
            IndexRole::Room => Some("room_index"@),
            IndexRole::Wall => Some("wall_index"@),
            IndexRole::Hostname => Some("hostname"@),
            IndexRole::Port => Some("port"@),
        }
    }

    /// The name under which the surface takes the index; none for a role
    /// that stands for no index.
    pub fn parameter_name(self) -> (name: Option<&'static str>)
        ensures
            name is Some <==> self.counts(),
            match name {
                Some(text) => self.parameter_text() == Some(text@),
                None => self.parameter_text() is None,
            },
    {
        match self {
            IndexRole::Channel => Some("channel_index"),
            IndexRole::AvChannel => Some("av_channel_index"),
            IndexRole::AuxiliaryAudioChannel => Some("auxiliary_audio_channel_index"),
            IndexRole::Band => Some("band"),
            IndexRole::Filter => Some("filter"),
            IndexRole::Command => Some("command"),
            IndexRole::InputGroup => Some("input_group"),
            IndexRole::Unused => None,
            IndexRole::Line => Some("line_index"),
            IndexRole::SpeedDialEntry => Some("speed_dial_entry"),
            IndexRole::CallAppearance => Some("call_appearance"),
            IndexRole::CallAppearanceIndex => Some("call_appearance_index"),
            IndexRole::Source => Some("source_index"),
            IndexRole::Output => Some("output_index"),
            IndexRole::Input => Some("input_index"),
            IndexRole::Room => Some("room_index"),
            IndexRole::Wall => Some("wall_index"),
            IndexRole::Hostname => Some("hostname"),
            IndexRole::Port => Some("port"),
        }
    }
}

/// The number of roles that stand for an index.
pub open spec fn index_count(roles: Seq<IndexRole>) -> nat
    decreases roles.len(),
{
    if roles.len() == 0 {
        0
    } else {
        index_count(roles.drop_last()) + if roles.last().counts() {
            1nat
        } else {
            0nat
        }
    }
}

/// The kind of value that an attribute holds.
#[derive(Debug)]
pub enum ValueSpec {
    /// No value.
    Nothing,
    /// A number; the bounds, where the catalog gives them, are for
    /// documentation.
    Range { min: Option<Decimal>, max: Option<Decimal> },
    /// One of the listed constants.
    Discrete { values: Vec<String> },
    /// A command and a string. The surface does not offer it.
    CommandAndString,
    /// A delay, in a unit of time or of length.
    Delay,
    /// Any token.
    Unbounded,
    /// The type and the slope of a filter.
    TypeSlope,
    /// A frequency and a gain.
    FreqGain,
    /// A date and a time of day.
    Date,
    /// A video bandwidth. The surface does not offer it.
    VideoBandwidth,
}

/// Whether a list of constants is just `false` and `true`: such an attribute
/// takes a truth value.
pub open spec fn is_truth_values(values: Seq<Seq<char>>) -> bool {
    &&& values.contains("false"@)
    &&& values.contains("true"@)
    &&& forall|i: int| 0 <= i < values.len() ==> (#[trigger] values[i]) == "false"@ || values[i]
        == "true"@
}

/// What an attribute of the catalog is.
#[derive(Debug)]
pub struct AttributeSpec {
    /// The name of the attribute on the wire.
    pub name: String,
    /// What the attribute is, in words.
    pub description: String,
    /// The verbs that the attribute takes.
    pub commands: Vec<Verb>,
    /// What each index of the attribute selects, in the order of the indexes.
    pub indexes: Vec<IndexRole>,
    /// The kind of value that the attribute holds.
    pub value: ValueSpec,
}

/// A family of blocks.
#[derive(Debug)]
pub struct Block {
    /// The group of families that this one belongs to.
    pub group: String,
    /// The attributes of a block of this family.
    pub attributes: Vec<AttributeSpec>,
}

impl Block {
    /// The first attribute of that name, if the family has one.
    pub fn attribute(&self, name: &str) -> (found: Option<&AttributeSpec>)
        ensures
            match found {
                Some(attribute) => exists|i: int|
                    0 <= i < self.attributes.len() && self.attributes[i] == *attribute
                        && attribute.name@ == name@ && forall|k: int|
                        0 <= k < i ==> (#[trigger] self.attributes[k]).name@ != name@,
                None => forall|k: int|
                    0 <= k < self.attributes.len() ==> (#[trigger] self.attributes[k]).name@
                        != name@,
            },
    {
        let mut i: usize = 0;
        while i < self.attributes.len()
            invariant
                i <= self.attributes.len(),
                forall|k: int| 0 <= k < i ==> (#[trigger] self.attributes[k]).name@ != name@,
            decreases self.attributes.len() - i,
        {
            if same_text(self.attributes[i].name.as_str(), name) {
                return Some(&self.attributes[i]);
            }
            i += 1;
        }
        None
    }
}

/// The families of blocks, by name. Where a name occurs more than once, its
/// first family counts.
#[derive(Debug)]
pub struct Catalog {
    /// Each family under its name, such as `Audio Meter` or `Level`.
    pub families: Vec<(String, Block)>,
}

impl Catalog {
    /// The family of that name, if the catalog has one.
    pub fn family(&self, name: &str) -> (found: Option<&Block>)
        ensures
            match found {
                Some(block) => exists|i: int|
                    0 <= i < self.families.len() && self.families[i].1 == *block
                        && self.families[i].0@ == name@ && forall|k: int|
                        0 <= k < i ==> (#[trigger] self.families[k]).0@ != name@,
                None => forall|k: int|
                    0 <= k < self.families.len() ==> (#[trigger] self.families[k]).0@ != name@,
            },
    {
        let mut i: usize = 0;
        while i < self.families.len()
            invariant
                i <= self.families.len(),
                forall|k: int| 0 <= k < i ==> (#[trigger] self.families[k]).0@ != name@,
            decreases self.families.len() - i,
        {
            if same_text(self.families[i].0.as_str(), name) {
                return Some(&self.families[i].1);
            }
            i += 1;
        }
        None
    }
}

/// The instance tag that commands to a block of `family` carry: the two
/// families of services that belong to the device itself have a reserved
/// tag each; any other block goes by the tag of its instance.
pub open spec fn tag_for(family: Seq<char>, instance_tag: Seq<char>) -> Seq<char> {
    if family == "Session Services"@ {
        "SESSION"@
    } else if family == "Device Services"@ {
        "DEVICE"@
    } else {
        instance_tag
    }
}

/// A value for an attribute, of one of the kinds that the surface offers.
pub enum Argument {
    /// A number, for a range.
    Number(Decimal),
    /// A truth value, for the constants `false` and `true`.
    Flag(bool),
    /// One of the constants of a discrete attribute.
    Choice(String),
    /// A token of any kind, as it is to be written.
    Token(String),
    /// A delay.
    Delay(DelayValue),
    /// The type and the slope of a filter.
    TypeSlope(FilterType, FilterSlope),
    /// A frequency and a gain.
    FreqGain(Decimal, Decimal),
    /// A date and a time of day.
    Date(DateTime),
}

impl Argument {
    /// The token that the value is written as.
    pub open spec fn token(self) -> Seq<char> {
        match self {
            Argument::Number(n) => n@.text(),
            Argument::Flag(b) => b.ttp(),
            Argument::Choice(c) => c@,
            Argument::Token(t) => t@,
            Argument::Delay(d) => d.ttp(),
            Argument::TypeSlope(t, s) => type_slope_text(t, s@),
            Argument::FreqGain(f, g) => frequency_gain_text(f@.text(), g@.text()),
            Argument::Date(d) => d.ttp(),
        }
    }

    /// A token for an attribute that takes any: `value` as the protocol
    /// writes it.
    pub fn unbounded<V: IntoTTP>(value: V) -> (argument: Argument)
        ensures
            argument is Token,
            argument.token() == value.ttp(),
    {
        Argument::Token(value.into_ttp())
    }

    /// Writes the value as a token.
    pub fn into_token(self) -> (token: String)
        ensures
            token@ == self.token(),
    {
        match self {
            Argument::Number(n) => n.into_ttp(),
            Argument::Flag(b) => b.into_ttp(),
            Argument::Choice(c) => c,
            Argument::Token(t) => t,
            Argument::Delay(d) => d.into_ttp(),
            Argument::TypeSlope(t, s) => type_slope_token(t, s),
            Argument::FreqGain(f, g) => frequency_gain_token(&f, &g),
            Argument::Date(d) => d.into_ttp(),
        }
    }
}

/// Why the surface does not make a command.
#[derive(Debug, Clone, Copy, PartialEq, Eq, Structural)]
pub enum SurfaceError {
    /// The attribute does not take the verb.
    VerbNotDeclared,
    /// The command does not carry as many indexes as the attribute declares.
    IndexCount,
    /// The value is not of the kind that the attribute holds, or is missing,
    /// or is given where the attribute holds none.
    ValueKind,
    /// The attribute holds a kind of value that the surface does not offer.
    NotOffered,
}

impl ValueSpec {
    /// Whether the surface offers values of this kind at all.
    pub open spec fn offered(self) -> bool {
        !(self is CommandAndString) && !(self is VideoBandwidth)
    }

    /// Whether `value` is what an attribute of this kind is set to.
    pub open spec fn admits(self, value: Option<Argument>) -> bool {
        match self {
            ValueSpec::Nothing => value is None,
            ValueSpec::Range { .. } => value matches Some(Argument::Number(_)),
            ValueSpec::Discrete { values } => if is_truth_values(strings_view(values@)) {
                value matches Some(Argument::Flag(_))
            } else {
                value matches Some(Argument::Choice(c)) && strings_view(values@).contains(c@)
            },
            ValueSpec::CommandAndString => false,
            ValueSpec::Delay => value matches Some(Argument::Delay(_)),
            ValueSpec::Unbounded => value matches Some(Argument::Token(_)),
            ValueSpec::TypeSlope => value matches Some(Argument::TypeSlope(_, _)),
            ValueSpec::FreqGain => value matches Some(Argument::FreqGain(_, _)),
            ValueSpec::Date => value matches Some(Argument::Date(_)),
            ValueSpec::VideoBandwidth => false,
        }
    }
}

/// The value tokens of a command that sets `value`.
pub open spec fn value_tokens(value: Option<Argument>) -> Seq<Seq<char>> {
    match value {
        Some(argument) => seq![argument.token()],
        None => Seq::empty(),
    }
}

impl ValueSpec {
    /// Tests whether `value` is what an attribute of this kind is set to.
    pub fn check(&self, value: &Option<Argument>) -> (fits: bool)
        ensures
            fits == self.admits(*value),
    {
        match self {
            ValueSpec::Nothing => value.is_none(),
            ValueSpec::Range { .. } => match value {
                Some(Argument::Number(_)) => true,
                _ => false,
            },
            ValueSpec::Discrete { values } => {
                if truth_values(values) {
                    match value {
                        Some(Argument::Flag(_)) => true,
                        _ => false,
                    }
                } else {
                    match value {
                        Some(Argument::Choice(c)) => contains_text(values, c.as_str()),
                        _ => false,
                    }
                }
            },
            ValueSpec::CommandAndString => false,
            ValueSpec::Delay => match value {
                Some(Argument::Delay(_)) => true,
                _ => false,
            },
            ValueSpec::Unbounded => match value {
                Some(Argument::Token(_)) => true,
                _ => false,
            },
            ValueSpec::TypeSlope => match value {
                Some(Argument::TypeSlope(_, _)) => true,
                _ => false,
            },
            ValueSpec::FreqGain => match value {
                Some(Argument::FreqGain(_, _)) => true,
                _ => false,
            },
            ValueSpec::Date => match value {
                Some(Argument::Date(_)) => true,
                _ => false,
            },
            ValueSpec::VideoBandwidth => false,
        }
    }

    /// Tests whether the surface offers values of this kind at all.
    pub fn is_offered(&self) -> (offered: bool)
        ensures
            offered == self.offered(),
    {
        match self {
            ValueSpec::CommandAndString => false,
            ValueSpec::VideoBandwidth => false,
            _ => true,
        }
    }
}

/// Tests whether a list of constants is just `false` and `true`.
pub fn truth_values(values: &Vec<String>) -> (just: bool)
    ensures
        just == is_truth_values(strings_view(values@)),
{
    if !contains_text(values, "false") || !contains_text(values, "true") {
        return false;
    }
    let mut i: usize = 0;
    while i < values.len()
        invariant
            i <= values.len(),
            forall|k: int|
                0 <= k < i ==> (#[trigger] strings_view(values@)[k]) == "false"@ || strings_view(
                    values@,
                )[k] == "true"@,
        decreases values.len() - i,
    {
        let value = values[i].as_str();
        if !same_text(value, "false") && !same_text(value, "true") {
            assert(strings_view(values@)[i as int] == value@);
            return false;
        }
        i += 1;
    }
    true
}

impl AttributeSpec {
    /// What stands against a command with `verb` and `indexes` on this
    /// attribute, if anything: the verb must be declared, and the indexes as
    /// many as declared.
    pub open spec fn objection(&self, verb: Verb, indexes: Seq<IndexValue>) -> Option<
        SurfaceError,
    > {
        if !self.commands@.contains(verb) {
            Some(SurfaceError::VerbNotDeclared)
        } else if indexes.len() != index_count(self.indexes@) {
            Some(SurfaceError::IndexCount)
        } else {
            None
        }
    }

    /// What stands against setting this attribute to `value` under
    /// `indexes`, if anything. Besides what stands against any command, the
    /// kind of value must be one that the surface offers, and `value` of
    /// that kind.
    pub open spec fn set_objection(
        &self,
        indexes: Seq<IndexValue>,
        value: Option<Argument>,
    ) -> Option<SurfaceError> {
        if !self.commands@.contains(Verb::Assign) {
            Some(SurfaceError::VerbNotDeclared)
        } else if !self.value.offered() {
            Some(SurfaceError::NotOffered)
        } else if indexes.len() != index_count(self.indexes@) {
            Some(SurfaceError::IndexCount)
        } else if !self.value.admits(value) {
            Some(SurfaceError::ValueKind)
        } else {
            None
        }
    }

    /// Tests whether the attribute takes `verb`.
    pub fn takes(&self, verb: Verb) -> (declared: bool)
        ensures
            declared == self.commands@.contains(verb),
    {
        let mut i: usize = 0;
        while i < self.commands.len()
            invariant
                i <= self.commands.len(),
                forall|k: int| 0 <= k < i ==> self.commands@[k] != verb,
            decreases self.commands.len() - i,
        {
            if self.commands[i] == verb {
                return true;
            }
            i += 1;
        }
        false
    }

    /// The number of indexes that a command on this attribute carries.
    pub fn index_count(&self) -> (count: usize)
        ensures
            count == index_count(self.indexes@),
    {
        let mut count: usize = 0;
        let mut i: usize = 0;
        assert(self.indexes@.take(0) =~= Seq::<IndexRole>::empty());
        while i < self.indexes.len()
            invariant
                i <= self.indexes.len(),
                count <= i,
                count == index_count(self.indexes@.take(i as int)),
            decreases self.indexes.len() - i,
        {
            assert(self.indexes@.take(i + 1).drop_last() =~= self.indexes@.take(i as int));
            if self.indexes[i] != IndexRole::Unused {
                count += 1;
            }
            i += 1;
        }
        assert(self.indexes@.take(i as int) =~= self.indexes@);
        count
    }

    /// Tests a command with `verb` and `indexes` against the catalog.
    pub fn check(&self, verb: Verb, indexes: &Vec<IndexValue>) -> (verdict: Result<
        (),
        SurfaceError,
    >)
        ensures
            match verdict {
                Ok(()) => self.objection(verb, indexes@) is None,
                Err(e) => self.objection(verb, indexes@) == Some(e),
            },
    {
        if !self.takes(verb) {
            Err(SurfaceError::VerbNotDeclared)
        } else if indexes.len() != self.index_count() {
            Err(SurfaceError::IndexCount)
        } else {
            Ok(())
        }
    }
}

/// Makes commands for one block instance from the attributes of the catalog.
pub struct BlockCommandBuilder {
    instance_tag: String,
}

impl View for BlockCommandBuilder {
    type V = Seq<char>;

    /// The instance tag that the commands go to.
    closed spec fn view(&self) -> Seq<char> {
        self.instance_tag@
    }
}

impl BlockCommandBuilder {
    /// A builder for the block instance of that name.
    pub fn new(instance_tag: &str) -> (builder: Self)
        ensures
            builder@ == instance_tag@,
    {
        BlockCommandBuilder { instance_tag: instance_tag.to_owned() }
    }

    /// A builder for the instance `instance_tag` of a block of `family`.
    pub fn for_family(family: &str, instance_tag: &str) -> (builder: Self)
        ensures
            builder@ == tag_for(family@, instance_tag@),
    {
        if same_text(family, "Session Services") {
            BlockCommandBuilder::new("SESSION")
        } else if same_text(family, "Device Services") {
            BlockCommandBuilder::new("DEVICE")
        } else {
            BlockCommandBuilder::new(instance_tag)
        }
    }

    /// The instance tag that the commands go to.
    pub fn instance_tag(&self) -> (tag: &str)
        ensures
            tag@ == self@,
    {
        self.instance_tag.as_str()
    }

    /// Get the attribute.
    pub fn get<'a>(&self, attribute: &'a AttributeSpec, indexes: Vec<IndexValue>) -> (made: Result<
        Command<'a>,
        SurfaceError,
    >)
        ensures
            match made {
                Ok(cmd) => attribute.objection(Verb::Get, indexes@) is None && cmd.instance_tag@
                    == self@ && cmd.command@ == Verb::Get.text() && cmd.attribute@
                    == attribute.name@ && cmd.indexes@ == indexes@ && cmd.values@.len() == 0,
                Err(e) => attribute.objection(Verb::Get, indexes@) == Some(e),
            },
    {
        match attribute.check(Verb::Get, &indexes) {
            Err(e) => Err(e),
            Ok(()) => Ok(
                Command {
                    instance_tag: self.instance_tag.clone(),
                    command: Verb::Get.keyword(),
                    attribute: attribute.name.as_str(),
                    indexes,
                    values: Vec::new(),
                },
            ),
        }
    }

    /// Set the attribute to `value`; `None` where the attribute holds no
    /// value.
    pub fn set<'a>(
        &self,
        attribute: &'a AttributeSpec,
        indexes: Vec<IndexValue>,
        value: Option<Argument>,
    ) -> (made: Result<Command<'a>, SurfaceError>)
        ensures
            match made {
                Ok(cmd) => attribute.set_objection(indexes@, value) is None && cmd.instance_tag@
                    == self@ && cmd.command@ == Verb::Assign.text() && cmd.attribute@
                    == attribute.name@ && cmd.indexes@ == indexes@ && strings_view(cmd.values@)
                    == value_tokens(value),
                Err(e) => attribute.set_objection(indexes@, value) == Some(e),
            },
    {
        if !attribute.takes(Verb::Assign) {
            Err(SurfaceError::VerbNotDeclared)
        } else if !attribute.value.is_offered() {
            Err(SurfaceError::NotOffered)
        } else if indexes.len() != attribute.index_count() {
            Err(SurfaceError::IndexCount)
        } else if !attribute.value.check(&value) {
            Err(SurfaceError::ValueKind)
        } else {
            let mut values: Vec<String> = Vec::new();
            if let Some(argument) = value {
                values.push(argument.into_token());
            }
            assert(strings_view(values@) =~= value_tokens(value));
            Ok(
                Command {
                    instance_tag: self.instance_tag.clone(),
                    command: Verb::Assign.keyword(),
                    attribute: attribute.name.as_str(),
                    indexes,
                    values,
                },
            )
        }
    }

    /// Subscribe to the attribute under `subscription_label`.
    pub fn subscribe<'a>(
        &self,
        attribute: &'a AttributeSpec,
        indexes: Vec<IndexValue>,
        subscription_label: &str,
    ) -> (made: Result<Command<'a>, SurfaceError>)
        ensures
            match made {
                Ok(cmd) => attribute.objection(Verb::Subscribe, indexes@) is None
                    && cmd.instance_tag@ == self@ && cmd.command@ == Verb::Subscribe.text()
                    && cmd.attribute@ == attribute.name@ && cmd.indexes@ == indexes@
                    && strings_view(cmd.values@) == seq![subscription_label@],
                Err(e) => attribute.objection(Verb::Subscribe, indexes@) == Some(e),
            },
    {
        match attribute.check(Verb::Subscribe, &indexes) {
            Err(e) => Err(e),
            Ok(()) => {
                let values = vec![subscription_label.to_owned()];
                assert(strings_view(values@) =~= seq![subscription_label@]);
                Ok(
                    Command {
                        instance_tag: self.instance_tag.clone(),
                        command: Verb::Subscribe.keyword(),
                        attribute: attribute.name.as_str(),
                        indexes,
                        values,
                    },
                )
            },
        }
    }

    /// Subscribe to the attribute under `subscription_label`, with updates
    /// no closer to each other than `min_rate`, in whole milliseconds.
    pub fn subscribe_with_rate<'a>(
        &self,
        attribute: &'a AttributeSpec,
        indexes: Vec<IndexValue>,
        subscription_label: &str,
        min_rate: Duration,
    ) -> (made: Result<Command<'a>, SurfaceError>)
        ensures
            match made {
                Ok(cmd) => attribute.objection(Verb::Subscribe, indexes@) is None
                    && cmd.instance_tag@ == self@ && cmd.command@ == Verb::Subscribe.text()
                    && cmd.attribute@ == attribute.name@ && cmd.indexes@ == indexes@
                    && strings_view(cmd.values@) == seq![
                    subscription_label@,
                    decimal_text(duration_millis(min_rate) as nat),
                ],
                Err(e) => attribute.objection(Verb::Subscribe, indexes@) == Some(e),
            },
    {
        self.subscribe_with_millis(attribute, indexes, subscription_label, as_millis(min_rate))
    }

    /// Subscribe to the attribute under `subscription_label`, with updates
    /// no closer to each other than `millis` milliseconds.
    pub fn subscribe_with_millis<'a>(
        &self,
        attribute: &'a AttributeSpec,
        indexes: Vec<IndexValue>,
        subscription_label: &str,
        millis: u128,
    ) -> (made: Result<Command<'a>, SurfaceError>)
        ensures
            match made {
                Ok(cmd) => attribute.objection(Verb::Subscribe, indexes@) is None
                    && cmd.instance_tag@ == self@ && cmd.command@ == Verb::Subscribe.text()
                    && cmd.attribute@ == attribute.name@ && cmd.indexes@ == indexes@
                    && strings_view(cmd.values@) == seq![
                    subscription_label@,
                    decimal_text(millis as nat),
                ],
                Err(e) => attribute.objection(Verb::Subscribe, indexes@) == Some(e),
            },
    {
        match attribute.check(Verb::Subscribe, &indexes) {
            Err(e) => Err(e),
            Ok(()) => {
                let values = vec![subscription_label.to_owned(), decimal_string(millis)];
                assert(strings_view(values@) =~= seq![
                    subscription_label@,
                    decimal_text(millis as nat),
                ]);
                Ok(
                    Command {
                        instance_tag: self.instance_tag.clone(),
                        command: Verb::Subscribe.keyword(),
                        attribute: attribute.name.as_str(),
                        indexes,
                        values,
                    },
                )
            },
        }
    }

    /// Cancel the subscription to the attribute under `subscription_label`.
    pub fn unsubscribe<'a>(
        &self,
        attribute: &'a AttributeSpec,
        indexes: Vec<IndexValue>,
        subscription_label: &str,
    ) -> (made: Result<Command<'a>, SurfaceError>)
        ensures
            match made {
                Ok(cmd) => attribute.objection(Verb::Unsubscribe, indexes@) is None
                    && cmd.instance_tag@ == self@ && cmd.command@ == Verb::Unsubscribe.text()
                    && cmd.attribute@ == attribute.name@ && cmd.indexes@ == indexes@
                    && strings_view(cmd.values@) == seq![subscription_label@],
                Err(e) => attribute.objection(Verb::Unsubscribe, indexes@) == Some(e),
            },
    {
        match attribute.check(Verb::Unsubscribe, &indexes) {
            Err(e) => Err(e),
            Ok(()) => {
                let values = vec![subscription_label.to_owned()];
                assert(strings_view(values@) =~= seq![subscription_label@]);
                Ok(
                    Command {
                        instance_tag: self.instance_tag.clone(),
                        command: Verb::Unsubscribe.keyword(),
                        attribute: attribute.name.as_str(),
                        indexes,
                        values,
                    },
                )
            },
        }
    }
}

} // verus!
