//! The audio processing object: which formats it takes, and what it does with a buffer.

use vstd::prelude::*;

use crate::apo::format::{format_of, locked, taken, AudioFormat, WaveFormat};
use crate::apo::object::{answer, processed, utf16, Answer, Buffer, Interface, Step, Work};

verus! {

/// Packed 32-bit floating-point samples of one to eight channels are taken at any rate; nothing
/// else is.
pub proof fn law_formats_taken(f: WaveFormat)
    ensures
        f.tag == 3 ==> (taken(f) <==> 1 <= f.channels <= 8 && f.samples_per_second > 0
            && f.bits_per_sample == 32 && f.block_align == 4 * f.channels),
        f.tag != 3 && f.tag != 0xfffe ==> !taken(f),
        taken(f) ==> format_of(Some(f)) == Some(
            AudioFormat { channels: f.channels, sample_rate: f.samples_per_second },
        ),
        !taken(f) ==> format_of(Some(f)) is None,
        format_of(None) is None,
{
}

/// The object runs exactly where input and output are one each, both are taken, and they have
/// the same number of channels and the same rate; it runs with these.
pub proof fn law_locks(input: WaveFormat, output: WaveFormat, inputs: u32, outputs: u32)
    ensures
        locked(inputs, outputs, Some(Some(Some(input))), Some(Some(Some(output)))) is Ok <==> inputs
            == 1 && outputs == 1 && taken(input) && taken(output) && input.channels
            == output.channels && input.samples_per_second == output.samples_per_second,
        locked(inputs, outputs, Some(Some(Some(input))), Some(Some(Some(output)))) matches Ok(a)
            ==> a.channels == input.channels && a.sample_rate == input.samples_per_second,
{
}

/// A buffer with samples is filtered, all of it: as many samples as frames times channels. They
/// are copied first where the output lies elsewhere.
pub proof fn law_valid_buffers_are_filtered(input: Buffer, output: Buffer, channels: u32)
    requires
        input.flags == 1,
        input.address != 0,
        output.address != 0,
        channels > 0,
        input.valid_frames > 0,
        input.valid_frames * channels <= usize::MAX,
    ensures
        processed(1, 1, Some(input), Some(output), channels) == Some(
            Step {
                valid_frames: input.valid_frames,
                flags: 1,
                work: Work::Filter {
                    copy: input.address != output.address,
                    samples: (input.valid_frames * channels) as usize,
                },
            },
        ),
{
    assert(input.valid_frames * channels > 0) by (nonlinear_arith)
        requires
            input.valid_frames > 0,
            channels > 0,
    ;
}

/// Silence stays silence: the output is silent too, and where it lies elsewhere it is filled with
/// zeros; nothing is filtered.
pub proof fn law_silence_stays_silence(input: Buffer, output: Buffer, channels: u32)
    requires
        input.flags == 2,
        input.address != 0,
        output.address != 0,
        channels > 0,
        input.valid_frames > 0,
        input.valid_frames * channels <= usize::MAX,
    ensures
        processed(1, 1, Some(input), Some(output), channels) matches Some(s) && s.flags == 2
            && s.valid_frames == input.valid_frames && s.work == (if input.address != output.address {
            Work::Silence((input.valid_frames * channels) as usize)
        } else {
            Work::Skip
        }),
{
    assert(input.valid_frames * channels > 0) by (nonlinear_arith)
        requires
            input.valid_frames > 0,
            channels > 0,
    ;
}

/// Nothing is read or written where there are no samples.
pub proof fn law_nothing_without_samples(input: Buffer, output: Buffer, channels: u32)
    requires
        input.address == 0 || output.address == 0 || channels == 0 || input.valid_frames == 0,
    ensures
        processed(1, 1, Some(input), Some(output), channels) matches Some(s) && s.work
            == Work::Skip,
{
    if channels == 0 || input.valid_frames == 0 {
        assert(input.valid_frames * channels == 0) by (nonlinear_arith)
            requires
                channels == 0 || input.valid_frames == 0,
        ;
    }
}

/// The classic interfaces are always there, the newer ones only where they are advertised.
pub proof fn law_interfaces(modern: bool, aggregated: bool)
    ensures
        answer(Interface::Unknown, modern, aggregated) == Answer::Itself,
        answer(Interface::Processing, modern, aggregated) == (Answer::Slot { counts_outer: aggregated }),
        answer(Interface::Configuration, modern, aggregated) == (Answer::Slot {
            counts_outer: aggregated,
        }),
        answer(Interface::Realtime, modern, aggregated) == (Answer::Slot { counts_outer: aggregated }),
        answer(Interface::Effects, modern, aggregated) == (Answer::Slot { counts_outer: aggregated }),
        answer(Interface::Effects2, modern, aggregated) == Answer::Missing <==> !modern,
        answer(Interface::Effects3, modern, aggregated) == Answer::Missing <==> !modern,
        answer(Interface::Notifications, modern, aggregated) == Answer::Missing <==> !modern,
        answer(Interface::PreferredFormat, modern, aggregated) == Answer::Missing <==> !modern,
        answer(Interface::Other, modern, aggregated) == Answer::Missing,
{
}

/// Texts for the engine are UTF-16: those of two texts follow each other, a character of the basic
/// plane is its own unit, and any other is a pair that stands for it.
pub proof fn law_utf16(a: Seq<char>, b: Seq<char>, c: char)
    ensures
        utf16(a + b) == utf16(a) + utf16(b),
        (c as u32) < 0x10000 ==> utf16(seq![c]) == seq![c as u16],
        (c as u32) >= 0x10000 ==> {
            let u = utf16(seq![c]);
            &&& u.len() == 2
            &&& 0xd800 <= u[0] < 0xdc00
            &&& 0xdc00 <= u[1] < 0xe000
            &&& 0x10000 + (u[0] - 0xd800) * 0x400 + (u[1] - 0xdc00) == c as u32
        },
    decreases b.len(),
{
    let one = seq![c];
    assert(one.drop_last() =~= Seq::<char>::empty());
    assert(utf16(one.drop_last()) =~= Seq::<u16>::empty());
    assert(utf16(one) =~= crate::apo::object::utf16_char(c));
    if (c as u32) < 0x10000 {
        assert(utf16(one) =~= seq![c as u16]);
    }
    if b.len() == 0 {
        assert(a + b =~= a);
        assert(utf16(a) + utf16(b) =~= utf16(a));
    } else {
        law_utf16(a, b.drop_last(), c);
        assert((a + b).drop_last() =~= a + b.drop_last());
        assert((a + b).last() == b.last());
        assert(utf16(a + b) =~= utf16(a) + utf16(b));
    }
}

} // verus!
