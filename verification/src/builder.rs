//! Command builder helper, and the typed values that commands carry.

use crate::catalog::BlockCommandBuilder;
use crate::decimal::Decimal;
use crate::proto::commands::COMMAND_GET;
use crate::proto::{as_millis, duration_millis, Command, IntoTTP};
use crate::text::{decimal_string, decimal_text};
use std::time::Duration;
use vstd::prelude::*;
use vstd::string::StringExecFns;

verus! {

/// Helper to construct valid Tesira commands.
pub struct CommandBuilder;

impl CommandBuilder {
    /// Create a new command builder.
    pub fn new() -> Self {
        CommandBuilder
    }

    /// Operate on the session services of the device.
    pub fn session(self) -> SessionServicesCommandBuilder {
        SessionServicesCommandBuilder
    }

    /// Operate on the device services, which are addressed by the reserved
    /// instance tag `DEVICE`.
    pub fn device(self) -> (builder: BlockCommandBuilder)
        ensures
            builder@ == "DEVICE"@,
    {
        BlockCommandBuilder::new("DEVICE")
    }

    /// Operate on the block instance named `instance_tag`.
    pub fn block(self, instance_tag: &str) -> (builder: BlockCommandBuilder)
        ensures
            builder@ == instance_tag@,
    {
        BlockCommandBuilder::new(instance_tag)
    }
}

/// Operate on the session services, which are addressed by the reserved
/// instance tag `SESSION`.
pub struct SessionServicesCommandBuilder;

impl SessionServicesCommandBuilder {
    /// Operate on the session services by the attributes of the catalog.
    pub fn services(&self) -> (builder: BlockCommandBuilder)
        ensures
            builder@ == "SESSION"@,
    {
        BlockCommandBuilder::new("SESSION")
    }

    /// Get the instance tags of all the blocks of the device.
    pub fn aliases(&self) -> (cmd: Command<'static>)
        ensures
            cmd.instance_tag@ == "SESSION"@,
            cmd.command@ == COMMAND_GET@,
            cmd.attribute@ == "aliases"@,
            cmd.indexes@.len() == 0,
            cmd.values@.len() == 0,
    {
        Command {
            instance_tag: "SESSION".to_owned(),
            command: COMMAND_GET,
            attribute: "aliases",
            indexes: Vec::new(),
            values: Vec::new(),
        }
    }
}

/// Value of a delay in the Tesira system.
pub enum DelayValue {
    /// A delay in milliseconds.
    Milliseconds(Duration),
    /// A delay in centimeters.
    Centimeters(Decimal),
    /// A delay in meters.
    Meters(Decimal),
    /// A delay in inches.
    Inches(Decimal),
    /// A delay in feet.
    Feet(Decimal),
}

/// The token of a delay: a mapping of its unit and its amount.
pub open spec fn delay_text(units: Seq<char>, amount: Seq<char>) -> Seq<char> {
    "{\"units\":"@ + units + " \"delay\":"@ + amount + "}"@
}

/// Writes a delay of `amount` `units`.
pub fn delay_token(units: &str, amount: &str) -> (token: String)
    ensures
        token@ == delay_text(units@, amount@),
{
    let mut token = "{\"units\":".to_owned();
    token.append(units);
    token.append(" \"delay\":");
    token.append(amount);
    token.append("}");
    token
}

impl IntoTTP for DelayValue {
    open spec fn ttp(&self) -> Seq<char> {
        match self {
            DelayValue::Milliseconds(v) => delay_text(
                "Milliseconds"@,
                decimal_text(duration_millis(*v) as nat),
            ),
            DelayValue::Centimeters(v) => delay_text("Centimeters"@, v@.text()),
            DelayValue::Meters(v) => delay_text("Meters"@, v@.text()),
            DelayValue::Inches(v) => delay_text("Inches"@, v@.text()),
            DelayValue::Feet(v) => delay_text("Feet"@, v@.text()),
        }
    }

    fn into_ttp(self) -> (token: String) {
        match self {
            DelayValue::Milliseconds(v) => delay_token(
                "Milliseconds",
                decimal_string(as_millis(v)).as_str(),
            ),
            DelayValue::Centimeters(v) => delay_token("Centimeters", v.to_text().as_str()),
            DelayValue::Meters(v) => delay_token("Meters", v.to_text().as_str()),
            DelayValue::Inches(v) => delay_token("Inches", v.to_text().as_str()),
            DelayValue::Feet(v) => delay_token("Feet", v.to_text().as_str()),
        }
    }
}

/// A Tesira type of filter.
#[derive(Debug, Clone, Copy, PartialEq, Eq)]
pub enum FilterType {
    /// Butterworth filter.
    Butterworth,
    /// Linkwitz-Riley filter.
    LinkwitzRiley,
    /// Bessel filter.
    Bessel,
}

impl IntoTTP for FilterType {
    open spec fn ttp(&self) -> Seq<char> {
        match self {
            FilterType::Butterworth => "Butterworth"@,
            FilterType::LinkwitzRiley => "Linkwitz-Riley"@,
            FilterType::Bessel => "Bessel"@,
        }
    }

    fn into_ttp(self) -> (token: String) {
        match self {
            FilterType::Butterworth => "Butterworth".to_owned(),
            FilterType::LinkwitzRiley => "Linkwitz-Riley".to_owned(),
            FilterType::Bessel => "Bessel".to_owned(),
        }
    }
}

/// Whether `slope` is a slope that filters support: a multiple of 6 from 6
/// to 48.
pub open spec fn valid_slope(slope: u64) -> bool {
    slope == 6 || slope == 12 || slope == 18 || slope == 24 || slope == 30 || slope == 36
        || slope == 42 || slope == 48
}

/// Slope of a filter.
#[derive(Debug)]
pub struct FilterSlope(u64);

impl View for FilterSlope {
    type V = u64;

    closed spec fn view(&self) -> u64 {
        self.0
    }
}

impl FilterSlope {
    #[verifier::type_invariant]
    spec fn supported(&self) -> bool {
        valid_slope(self.0)
    }

    /// Create a new slope from a value, checking that the slope is supported.
    pub fn new(slope: u64) -> (made: Result<FilterSlope, InvalidSlopeError>)
        ensures
            valid_slope(slope) <==> made is Ok,
            made matches Ok(s) ==> s@ == slope,
    {
        if slope == 6 || slope == 12 || slope == 18 || slope == 24 || slope == 30 || slope == 36
            || slope == 42 || slope == 48 {
            Ok(FilterSlope(slope))
        } else {
            Err(InvalidSlopeError)
        }
    }

    /// A slope of 6
    pub fn six() -> (slope: Self)
        ensures
            slope@ == 6,
    {
        Self(6)
    }

    /// A slope of 12
    pub fn twelve() -> (slope: Self)
        ensures
            slope@ == 12,
    {
        Self(12)
    }

    /// A slope of 18
    pub fn heighteen() -> (slope: Self)
        ensures
            slope@ == 18,
    {
        Self(18)
    }

    /// A slope of 24
    pub fn twentyfour() -> (slope: Self)
        ensures
            slope@ == 24,
    {
        Self(24)
    }

    /// A slope of 30
    pub fn thirty() -> (slope: Self)
        ensures
            slope@ == 30,
    {
        Self(30)
    }

    /// A slope of 36
    pub fn thirtysix() -> (slope: Self)
        ensures
            slope@ == 36,
    {
        Self(36)
    }

    /// A slope of 42
    pub fn fourtytwo() -> (slope: Self)
        ensures
            slope@ == 42,
    {
        Self(42)
    }

    /// A slope of 48
    pub fn fourtyheight() -> (slope: Self)
        ensures
            slope@ == 48,
    {
        Self(48)
    }

    /// The slope as a number.
    pub fn value(&self) -> (slope: u64)
        ensures
            slope == self@,
            valid_slope(slope),
    {
        proof {
            use_type_invariant(self);
        }
        self.0
    }
}

impl std::ops::Deref for FilterSlope {
    type Target = u64;

    fn deref(&self) -> (slope: &u64)
        ensures
            *slope == self@,
    {
        &self.0
    }
}

impl IntoTTP for FilterSlope {
    open spec fn ttp(&self) -> Seq<char> {
        decimal_text(self@ as nat)
    }

    fn into_ttp(self) -> (token: String) {
        decimal_string(self.0 as u128)
    }
}

/// Provided slope value is invalid.
#[derive(Debug, Clone, Copy, PartialEq, Eq)]
pub struct InvalidSlopeError;

impl InvalidSlopeError {
    /// The error in words, with the slopes that are allowed.
    pub fn message(&self) -> (text: String)
        ensures
            text@ == "Invalid slope, allowed slopes are 6, 12, 18, 24, 30, 36, 42, 48"@,
    {
        "Invalid slope, allowed slopes are 6, 12, 18, 24, 30, 36, 42, 48".to_owned()
    }
}

/// The token of a filter's type and slope.
pub open spec fn type_slope_text(filter_type: FilterType, slope: u64) -> Seq<char> {
    "{\"type\":"@ + filter_type.ttp() + " \"slope\":"@ + decimal_text(slope as nat) + "}"@
}

/// Writes a filter's type and slope as one token.
pub fn type_slope_token(filter_type: FilterType, filter_slope: FilterSlope) -> (token: String)
    ensures
        token@ == type_slope_text(filter_type, filter_slope@),
{
    let mut token = "{\"type\":".to_owned();
    token.append(filter_type.into_ttp().as_str());
    token.append(" \"slope\":");
    token.append(filter_slope.into_ttp().as_str());
    token.append("}");
    token
}

/// The token of a frequency and a gain.
pub open spec fn frequency_gain_text(frequency: Seq<char>, gain: Seq<char>) -> Seq<char> {
    "{\"frequency\":"@ + frequency + " \"gain\":"@ + gain + "}"@
}

/// Writes a frequency and a gain as one token.
pub fn frequency_gain_token(frequency: &Decimal, gain: &Decimal) -> (token: String)
    ensures
        token@ == frequency_gain_text(frequency@.text(), gain@.text()),
{
    let mut token = "{\"frequency\":".to_owned();
    token.append(frequency.to_text().as_str());
    token.append(" \"gain\":");
    token.append(gain.to_text().as_str());
    token.append("}");
    token
}

} // verus!
