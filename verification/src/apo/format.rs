//! The formats that the object takes, and what it answers to one that it does not.

use vstd::prelude::*;

use crate::apo::processor::MAX_CHANNELS;

verus! {

/// The tag of formats of floating-point samples.
pub const WAVE_FORMAT_IEEE_FLOAT: u16 = 0x0003;

/// The tag of formats that are described further.
pub const WAVE_FORMAT_EXTENSIBLE: u16 = 0xfffe;

/// The size of that description.
pub const EXTENSIBLE_EXTRA_BYTES: u16 = 22;

/// The subtype of floating-point samples.
pub const SUBTYPE_IEEE_FLOAT: u128 = 0x0000_0003_0000_0010_8000_00aa_0038_9b71;

/// A format as the engine describes it.
#[derive(Clone, Copy, Debug, PartialEq, Eq, Structural)]
pub struct WaveFormat {
    pub tag: u16,
    pub channels: u16,
    pub samples_per_second: u32,
    pub block_align: u16,
    pub bits_per_sample: u16,
    /// The size of what follows.
    pub extra: u16,
    /// How many bits of a sample count, and the subtype; read only where `tag` and
    /// `extra` say that they follow.
    pub valid_bits: u16,
    pub subtype: u128,
}

/// A format that the object takes.
#[derive(Clone, Copy, Debug, PartialEq, Eq, Structural)]
pub struct AudioFormat {
    pub channels: u16,
    pub sample_rate: u32,
}

/// Why the object refuses.
#[derive(Clone, Copy, Debug, PartialEq, Eq, Structural)]
pub enum ApoError {
    /// It takes one input and one output.
    Connections,
    /// Something is not there.
    Pointer,
    /// The format is not taken.
    Format,
    /// Input and output differ in format.
    Mismatch,
}

/// The samples are floating-point numbers.
pub open spec fn is_float(f: WaveFormat) -> bool {
    f.tag == WAVE_FORMAT_IEEE_FLOAT || (f.tag == WAVE_FORMAT_EXTENSIBLE && f.extra
        >= EXTENSIBLE_EXTRA_BYTES && (f.valid_bits == 32 || f.valid_bits == 0) && f.subtype
        == SUBTYPE_IEEE_FLOAT)
}

/// The object takes the format: one to eight channels of packed 32-bit floating-point
/// samples, at any rate.
pub open spec fn taken(f: WaveFormat) -> bool {
    &&& 1 <= f.channels <= MAX_CHANNELS
    &&& f.samples_per_second > 0
    &&& f.bits_per_sample == 32
    &&& f.block_align == f.channels * 4
    &&& is_float(f)
}

/// The format of a description that the object takes.
pub open spec fn format_of(f: Option<WaveFormat>) -> Option<AudioFormat> {
    match f {
        Some(f) => if taken(f) {
            Some(AudioFormat { channels: f.channels, sample_rate: f.samples_per_second })
        } else {
            None
        },
        None => None,
    }
}

/// The format of a description, where the object takes it.
pub fn format_from_wave_format(format: &WaveFormat) -> (r: Result<AudioFormat, ApoError>)
    ensures
        r is Ok <==> taken(*format),
        r matches Ok(a) ==> Some(a) == format_of(Some(*format)),
        r matches Err(e) ==> e == ApoError::Format,
{
    let channels: u16 = format.channels;
    if channels == 0 || channels as usize > MAX_CHANNELS || format.samples_per_second == 0 {
        return Err(ApoError::Format);
    }
    if format.bits_per_sample != 32 || format.block_align != channels * 4 {
        return Err(ApoError::Format);
    }
    let float: bool = if format.tag == WAVE_FORMAT_IEEE_FLOAT {
        true
    } else if format.tag == WAVE_FORMAT_EXTENSIBLE && format.extra >= EXTENSIBLE_EXTRA_BYTES {
        (format.valid_bits == 32 || format.valid_bits == 0) && format.subtype == SUBTYPE_IEEE_FLOAT
    } else {
        false
    };
    if !float {
        return Err(ApoError::Format);
    }
    Ok(AudioFormat { channels, sample_rate: format.samples_per_second })
}

fn supported(format: &Option<WaveFormat>) -> (r: Option<AudioFormat>)
    ensures
        r == format_of(*format),
{
    match format {
        Some(f) => match format_from_wave_format(f) {
            Ok(a) => Some(a),
            Err(_) => None,
        },
        None => None,
    }
}

/// The answer to a request for a format.
#[derive(Clone, Copy, Debug, PartialEq, Eq, Structural)]
pub enum Negotiation {
    /// The requested format is taken.
    Accept,
    /// The format of the opposite pin is suggested instead.
    Suggest,
    /// There is nothing to suggest.
    Reject,
}

/// The answer to a request for a format. Both pins have the same format: a request is
/// accepted where it is taken and the opposite pin has no format yet or has that one.
pub open spec fn negotiated(
    requested: Option<WaveFormat>,
    opposite: Option<Option<WaveFormat>>,
    can_suggest: bool,
) -> Negotiation {
    let asked = format_of(requested);
    if asked is Some && (opposite matches Some(o) ==> format_of(o) == asked) {
        Negotiation::Accept
    } else if (opposite matches Some(o) && format_of(o) is Some) && can_suggest {
        Negotiation::Suggest
    } else {
        Negotiation::Reject
    }
}

/// The answer to a request for a format, given that of the opposite pin, if it has
/// one, and whether there is a place for a suggestion.
pub fn negotiate_format(
    requested: &Option<WaveFormat>,
    opposite: &Option<Option<WaveFormat>>,
    can_suggest: bool,
) -> (r: Negotiation)
    ensures
        r == negotiated(*requested, *opposite, can_suggest),
{
    let asked: Option<AudioFormat> = supported(requested);
    let (there, other): (bool, Option<AudioFormat>) = match opposite {
        Some(o) => (true, supported(o)),
        None => (false, None),
    };
    if let Some(a) = asked {
        let fits: bool = !there || match other {
            Some(o) => o == a,
            None => false,
        };
        if fits {
            return Negotiation::Accept;
        }
    }
    if other.is_some() && can_suggest {
        Negotiation::Suggest
    } else {
        Negotiation::Reject
    }
}

/// The format of a connection: it may have no media type, and that may have no format.
pub open spec fn pin_format(pin: Option<Option<WaveFormat>>) -> Result<AudioFormat, ApoError> {
    match pin {
        Some(f) => match format_of(f) {
            Some(a) => Ok(a),
            None => Err(ApoError::Format),
        },
        None => Err(ApoError::Pointer),
    }
}

/// The format to process in, or why there is none: one input and one output are
/// needed, both connected, and both with the same format that is taken.
pub open spec fn locked(
    inputs: u32,
    outputs: u32,
    input: Option<Option<Option<WaveFormat>>>,
    output: Option<Option<Option<WaveFormat>>>,
) -> Result<AudioFormat, ApoError> {
    if inputs != 1 || outputs != 1 {
        Err(ApoError::Connections)
    } else if input is None || output is None {
        Err(ApoError::Pointer)
    } else {
        match pin_format(input->0) {
            Ok(x) => match pin_format(output->0) {
                Ok(y) => if x == y {
                    Ok(x)
                } else {
                    Err(ApoError::Mismatch)
                },
                Err(e) => Err(e),
            },
            Err(e) => Err(e),
        }
    }
}

fn read_pin(pin: &Option<Option<WaveFormat>>) -> (r: Result<AudioFormat, ApoError>)
    ensures
        r == pin_format(*pin),
{
    match pin {
        Some(f) => match supported(f) {
            Some(a) => Ok(a),
            None => Err(ApoError::Format),
        },
        None => Err(ApoError::Pointer),
    }
}

/// The format to process in, given the counts of connections and the format of each of
/// the two, as far as it is there.
pub fn lock(
    inputs: u32,
    outputs: u32,
    input: &Option<Option<Option<WaveFormat>>>,
    output: &Option<Option<Option<WaveFormat>>>,
) -> (r: Result<AudioFormat, ApoError>)
    ensures
        r == locked(inputs, outputs, *input, *output),
        r matches Ok(a) ==> 1 <= a.channels <= MAX_CHANNELS && a.sample_rate > 0,
{
    if inputs != 1 || outputs != 1 {
        return Err(ApoError::Connections);
    }
    match (input, output) {
        (Some(i), Some(o)) => match read_pin(i) {
            Ok(x) => match read_pin(o) {
                Ok(y) => if x == y {
                    Ok(x)
                } else {
                    Err(ApoError::Mismatch)
                },
                Err(e) => Err(e),
            },
            Err(e) => Err(e),
        },
        _ => Err(ApoError::Pointer),
    }
}

/// A format that is accepted against that of the opposite pin can be locked.
pub proof fn law_accepted_locks(requested: WaveFormat, opposite: WaveFormat)
    requires
        negotiated(Some(requested), Some(Some(opposite)), true) == Negotiation::Accept,
    ensures
        locked(1, 1, Some(Some(Some(requested))), Some(Some(Some(opposite)))) is Ok,
{
}

/// A format that is suggested is accepted when it is asked for.
pub proof fn law_suggested_is_accepted(requested: Option<WaveFormat>, opposite: Option<WaveFormat>)
    requires
        negotiated(requested, Some(opposite), true) == Negotiation::Suggest,
    ensures
        negotiated(opposite, Some(opposite), true) == Negotiation::Accept,
{
}

} // verus!
