//! The description of the filter graph, in PipeWire's relaxed dialect of JSON.

use vstd::prelude::*;
use vstd::string::*;

use crate::decimal::{fixed, numeral, write_fixed, write_number};
use crate::double::Double;
use crate::profile::{effective, effective_bands, AudioProfile, FilterBand, ProfileView, ToneSettings};
use crate::text::{chars_of, join_lines, on_lines, push_text, texts};

verus! {

/// The display name of the virtual sink.
pub open spec fn virtual_sink_name() -> Seq<char> {
    "ADtune Calibrated"@
}

/// The node name of the virtual sink, by which it is recognised in the graph.
pub open spec fn virtual_sink_prefix() -> Seq<char> {
    "effect_input.adtune"@
}

/// A character inside a quoted string: backslashes and quotes are escaped, and line
/// breaks and tabs, for which there is no escape, become spaces.
pub open spec fn escaped_char(c: char) -> Seq<char> {
    if c == '\\' || c == '"' {
        seq!['\\', c]
    } else if c == '\n' || c == '\r' || c == '\t' {
        seq![' ']
    } else {
        seq![c]
    }
}

/// A text inside a quoted string.
pub open spec fn escaped(s: Seq<char>) -> Seq<char>
    decreases s.len(),
{
    if s.len() == 0 {
        seq![]
    } else {
        escaped_char(s[0]) + escaped(s.drop_first())
    }
}

/// A text to stand inside a quoted string.
pub fn escape(value: &str) -> (r: String)
    ensures
        r@ == escaped(value@),
{
    let v: Vec<char> = chars_of(value);
    let mut r: String = String::new();
    assert(v@.skip(0) =~= v@);
    assert(r@ + escaped(v@) =~= escaped(v@));
    for i in 0..v.len()
        invariant
            r@ + escaped(v@.skip(i as int)) == escaped(v@),
    {
        let c: char = v[i];
        let ghost before = r@;
        let ghost rest = v@.skip(i as int);
        assert(rest.drop_first() =~= v@.skip(i + 1));
        if c == '\\' || c == '"' {
            r.push('\\');
            r.push(c);
        } else if c == '\n' || c == '\r' || c == '\t' {
            r.push(' ');
        } else {
            r.push(c);
        }
        assert(r@ =~= before + escaped_char(c));
        assert(r@ + escaped(v@.skip(i + 1)) =~= before + escaped(rest));
    }
    assert(v@.skip(v@.len() as int) =~= seq![]);
    assert(r@ + escaped(v@.skip(v@.len() as int)) =~= r@);
    r
}

/// What a quoted string stands for.
pub open spec fn unescaped(s: Seq<char>) -> Seq<char>
    decreases s.len(),
{
    if s.len() == 0 {
        seq![]
    } else if s[0] == '\\' && s.len() > 1 {
        seq![s[1]] + unescaped(s.skip(2))
    } else {
        seq![s[0]] + unescaped(s.drop_first())
    }
}

/// A quote in `s` would end the quoted string.
pub open spec fn ends_early(s: Seq<char>) -> bool
    decreases s.len(),
{
    if s.len() == 0 {
        false
    } else if s[0] == '\\' && s.len() > 1 {
        ends_early(s.skip(2))
    } else {
        s[0] == '"' || s[0] == '\\' || ends_early(s.drop_first())
    }
}

/// A space for each line break and each tab.
pub open spec fn flattened(s: Seq<char>) -> Seq<char> {
    Seq::new(
        s.len(),
        |i: int|
            if s[i] == '\n' || s[i] == '\r' || s[i] == '\t' {
                ' '
            } else {
                s[i]
            },
    )
}

/// No text can break out of its quotes, and what stands in them is the text, its line
/// breaks and tabs aside.
pub proof fn law_escape(s: Seq<char>)
    ensures
        unescaped(escaped(s)) == flattened(s),
        !ends_early(escaped(s)),
        forall|i: int|
            0 <= i < escaped(s).len() ==> #[trigger] escaped(s)[i] != '\n' && escaped(s)[i] != '\r'
                && escaped(s)[i] != '\t',
    decreases s.len(),
{
    let e = escaped(s);
    if s.len() > 0 {
        let t = s.drop_first();
        law_escape(t);
        let c = s[0];
        assert(flattened(s) =~= seq![flattened(s)[0]] + flattened(t));
        if c == '\\' || c == '"' {
            assert(e.skip(2) =~= escaped(t));
            assert(e[0] == '\\' && e[1] == c);
            assert(unescaped(e) =~= flattened(s));
        } else {
            assert(e.drop_first() =~= escaped(t));
            assert(unescaped(e) =~= flattened(s));
        }
        assert forall|i: int| 0 <= i < e.len() implies #[trigger] e[i] != '\n' && e[i] != '\r'
            && e[i] != '\t' by {
            let k: int = escaped_char(c).len() as int;
            if i >= k {
                assert(e[i] == escaped(t)[i - k]);
            }
        }
    } else {
        assert(unescaped(e) =~= flattened(s));
    }
}

/// The name of the `i`-th of `n` correction bands and the three tone shelves.
pub open spec fn slot_name(i: int, n: int) -> Seq<char> {
    if i < n {
        "eq_band_"@ + numeral((i + 1) as nat)
    } else if i == n {
        "eq_bass"@
    } else if i == n + 1 {
        "eq_tilt_lo"@
    } else {
        "eq_tilt_hi"@
    }
}

/// The bands in effect, each with the name of its place in the graph.
pub fn graph_bands(profile: &AudioProfile, tone: &ToneSettings) -> (r: Vec<(String, FilterBand)>)
    ensures
        r@.len() == profile@.bands.len() + 3,
        forall|i: int|
            0 <= i < r@.len() ==> (#[trigger] r@[i]).0@ == slot_name(
                i,
                profile@.bands.len() as int,
            ) && r@[i].1 == effective(profile@.bands, *tone)[i],
{
    let bands: Vec<FilterBand> = effective_bands(profile, tone);
    let n: usize = profile.bands.len();
    let mut r: Vec<(String, FilterBand)> = Vec::new();
    for i in 0..bands.len()
        invariant
            n == profile@.bands.len(),
            bands@ == effective(profile@.bands, *tone),
            bands@.len() == n + 3,
            r@.len() == i,
            forall|j: int|
                0 <= j < i ==> (#[trigger] r@[j]).0@ == slot_name(j, n as int) && r@[j].1
                    == bands@[j],
    {
        let name: String = if i < n {
            "eq_band_".to_owned().concat(&write_number((i + 1) as u64))
        } else if i == n {
            "eq_bass".to_owned()
        } else if i - n == 1 {
            "eq_tilt_lo".to_owned()
        } else {
            "eq_tilt_hi".to_owned()
        };
        r.push((name, bands[i]));
    }
    r
}

/// A node of the graph.
pub open spec fn node_text(name: Seq<char>, label: Seq<char>, control: Seq<char>) -> Seq<char> {
    "            {\n                type = builtin\n                name = "@ + name
        + "\n                label = "@ + label + "\n                control = { "@ + control
        + " }\n            }"@
}

/// The controls of the gain stage.
pub open spec fn gain_control(mult: Double) -> Seq<char> {
    "\"Mult\" = "@ + fixed(mult, 5, false) + " \"Add\" = 0.0"@
}

/// The controls of a band.
pub open spec fn band_control(band: FilterBand) -> Seq<char> {
    "\"Freq\" = "@ + fixed(band.frequency, 1, false) + " \"Q\" = "@ + fixed(band.q, 3, false)
        + " \"Gain\" = "@ + fixed(band.gain, 3, false)
}

/// A link from the output of one node to the input of another.
pub open spec fn link_text(from: Seq<char>, to: Seq<char>) -> Seq<char> {
    "            { output = \""@ + from + ":Out\" input = \""@ + to + ":In\" }"@
}

/// The name of the `i`-th node: the gain stage first, then the bands.
pub open spec fn node_name(i: int, n: int) -> Seq<char> {
    if i == 0 {
        "pre_gain"@
    } else {
        slot_name(i - 1, n)
    }
}

/// The nodes: the gain stage, then one for each band in effect.
pub open spec fn nodes(bands: Seq<FilterBand>, tone: ToneSettings, mult: Double) -> Seq<Seq<char>> {
    Seq::new(
        bands.len() + 4,
        |i: int|
            if i == 0 {
                node_text("pre_gain"@, "linear"@, gain_control(mult))
            } else {
                node_text(
                    slot_name(i - 1, bands.len() as int),
                    effective(bands, tone)[i - 1].kind.label(),
                    band_control(effective(bands, tone)[i - 1]),
                )
            },
    )
}

/// The links: each node feeds the next one.
pub open spec fn links(n: int) -> Seq<Seq<char>> {
    Seq::new((n + 3) as nat, |i: int| link_text(node_name(i, n), node_name(i + 1, n)))
}

/// The arguments of the filter-chain module.
pub open spec fn chain_args(
    profile: ProfileView,
    target: Seq<char>,
    tone: ToneSettings,
    mult: Double,
) -> Seq<char> {
    "{\n    node.description = \"ADtune Calibrated — "@ + escaped(profile.name)
        + "\"\n    media.name = \"ADtune Calibrated\"\n    filter.graph = {\n        nodes = [\n"@
        + on_lines(nodes(profile.bands, tone, mult)) + "\n        ]\n        links = [\n"@ + on_lines(
        links(profile.bands.len() as int),
    )
        + "\n        ]\n    }\n    audio.channels = 2\n    audio.position = [ FL FR ]\n    capture.props = {\n        node.name = \"effect_input.adtune\"\n        media.class = Audio/Sink\n        node.virtual = true\n    }\n    playback.props = {\n        node.name = \"effect_output.adtune\"\n        node.target = \""@
        + escaped(target) + "\"\n        node.passive = true\n    }\n}"@
}

fn write_node(name: &str, label: &str, control: &str) -> (r: String)
    ensures
        r@ == node_text(name@, label@, control@),
{
    "            {\n                type = builtin\n                name = ".to_owned().concat(
        name,
    ).concat("\n                label = ").concat(label).concat("\n                control = { ").concat(
        control,
    ).concat(" }\n            }")
}

fn write_band_control(band: &FilterBand) -> (r: String)
    ensures
        r@ == band_control(*band),
{
    "\"Freq\" = ".to_owned().concat(&write_fixed(band.frequency, 1, false)).concat(
        " \"Q\" = ",
    ).concat(&write_fixed(band.q, 3, false)).concat(" \"Gain\" = ").concat(
        &write_fixed(band.gain, 3, false),
    )
}

fn write_link(from: &str, to: &str) -> (r: String)
    ensures
        r@ == link_text(from@, to@),
{
    "            { output = \"".to_owned().concat(from).concat(":Out\" input = \"").concat(to).concat(
        ":In\" }",
    )
}

/// The arguments of the filter-chain module for a profile that plays to a target: a
/// gain stage, the correction bands and the tone shelves in a row, behind a virtual
/// sink. `mult` is the gain ahead of the bands as a factor.
pub fn filter_chain_args(
    profile: &AudioProfile,
    target_name: &str,
    tone: &ToneSettings,
    mult: Double,
) -> (r: String)
    ensures
        r@ == chain_args(profile@, target_name@, *tone, mult),
{
    let slots: Vec<(String, FilterBand)> = graph_bands(profile, tone);
    let ghost n = profile@.bands.len() as int;
    let ghost all = nodes(profile@.bands, *tone, mult);
    let ghost pairs = links(n);
    let mut parts: Vec<String> = Vec::new();
    let mut joints: Vec<String> = Vec::new();
    assert(texts(parts@) =~= seq![]);
    push_text(
        &mut parts,
        write_node(
            "pre_gain",
            "linear",
            &"\"Mult\" = ".to_owned().concat(&write_fixed(mult, 5, false)).concat(" \"Add\" = 0.0"),
        ),
    );
    assert(texts(parts@) =~= all.take(1));
    assert(texts(joints@) =~= pairs.take(0));
    for i in 0..slots.len()
        invariant
            n == profile@.bands.len(),
            slots@.len() == n + 3,
            all == nodes(profile@.bands, *tone, mult),
            pairs == links(n),
            forall|j: int|
                0 <= j < slots@.len() ==> (#[trigger] slots@[j]).0@ == slot_name(j, n)
                    && slots@[j].1 == effective(profile@.bands, *tone)[j],
            texts(parts@) =~= all.take(i + 1),
            texts(joints@) =~= pairs.take(i as int),
    {
        let band: FilterBand = slots[i].1;
        push_text(
            &mut parts,
            write_node(&slots[i].0, band.kind.pw_label(), &write_band_control(&band)),
        );
        if i == 0 {
            push_text(&mut joints, write_link("pre_gain", &slots[0].0));
        } else {
            push_text(&mut joints, write_link(&slots[i - 1].0, &slots[i].0));
        }
    }
    assert(texts(parts@) =~= all);
    assert(texts(joints@) =~= pairs);
    "{\n    node.description = \"ADtune Calibrated — ".to_owned().concat(
        &escape(&profile.name),
    ).concat(
        "\"\n    media.name = \"ADtune Calibrated\"\n    filter.graph = {\n        nodes = [\n",
    ).concat(&join_lines(&parts)).concat("\n        ]\n        links = [\n").concat(
        &join_lines(&joints),
    ).concat(
        "\n        ]\n    }\n    audio.channels = 2\n    audio.position = [ FL FR ]\n    capture.props = {\n        node.name = \"effect_input.adtune\"\n        media.class = Audio/Sink\n        node.virtual = true\n    }\n    playback.props = {\n        node.name = \"effect_output.adtune\"\n        node.target = \"",
    ).concat(&escape(target_name)).concat("\"\n        node.passive = true\n    }\n}")
}

/// A whole configuration file around the arguments of the filter-chain module.
pub open spec fn config_text(args: Seq<char>) -> Seq<char> {
    "# Generated by ADtune. Changes are overwritten when a profile is applied.\ncontext.properties = {\n    application.name = \"ADtune Audio Calibration\"\n    remote.name = \"pipewire-0\"\n}\n\ncontext.spa-libs = {\n    audio.convert.* = audioconvert/libspa-audioconvert\n    support.* = support/libspa-support\n}\n\ncontext.modules = [\n    { name = libpipewire-module-rt flags = [ ifexists nofail ] }\n    { name = libpipewire-module-protocol-native }\n    { name = libpipewire-module-client-node }\n    { name = libpipewire-module-adapter }\n    {\n        name = libpipewire-module-filter-chain\n        args = "@
        + args + "\n    }\n]\n"@
}

/// A whole configuration file for a profile that plays to a target, for inspection.
pub fn filter_config(
    profile: &AudioProfile,
    target_name: &str,
    tone: &ToneSettings,
    mult: Double,
) -> (r: String)
    ensures
        r@ == config_text(chain_args(profile@, target_name@, *tone, mult)),
{
    "# Generated by ADtune. Changes are overwritten when a profile is applied.\ncontext.properties = {\n    application.name = \"ADtune Audio Calibration\"\n    remote.name = \"pipewire-0\"\n}\n\ncontext.spa-libs = {\n    audio.convert.* = audioconvert/libspa-audioconvert\n    support.* = support/libspa-support\n}\n\ncontext.modules = [\n    { name = libpipewire-module-rt flags = [ ifexists nofail ] }\n    { name = libpipewire-module-protocol-native }\n    { name = libpipewire-module-client-node }\n    { name = libpipewire-module-adapter }\n    {\n        name = libpipewire-module-filter-chain\n        args = ".to_owned().concat(
        &filter_chain_args(profile, target_name, tone, mult),
    ).concat("\n    }\n]\n")
}

/// The controls that are set on a running graph: the gain ahead of the bands, and the
/// gain of each band. Frequencies and quality factors are not: they take a new graph.
pub fn live_params(profile: &AudioProfile, tone: &ToneSettings, mult: Double) -> (r: Vec<
    (String, Double),
>)
    ensures
        r@.len() == profile@.bands.len() + 4,
        r@[0].0@ == "pre_gain:Mult"@,
        r@[0].1 == mult,
        forall|i: int|
            0 <= i < profile@.bands.len() + 3 ==> (#[trigger] r@[i + 1]).0@ == slot_name(
                i,
                profile@.bands.len() as int,
            ) + ":Gain"@ && r@[i + 1].1 == effective(profile@.bands, *tone)[i].gain,
{
    let slots: Vec<(String, FilterBand)> = graph_bands(profile, tone);
    let ghost n = profile@.bands.len() as int;
    let mut r: Vec<(String, Double)> = Vec::new();
    r.push(("pre_gain:Mult".to_owned(), mult));
    for i in 0..slots.len()
        invariant
            n == profile@.bands.len(),
            slots@.len() == n + 3,
            forall|j: int|
                0 <= j < slots@.len() ==> (#[trigger] slots@[j]).0@ == slot_name(j, n)
                    && slots@[j].1 == effective(profile@.bands, *tone)[j],
            r@.len() == i + 1,
            r@[0].0@ == "pre_gain:Mult"@,
            r@[0].1 == mult,
            forall|j: int|
                0 <= j < i ==> (#[trigger] r@[j + 1]).0@ == slot_name(j, n) + ":Gain"@ && r@[j
                    + 1].1 == effective(profile@.bands, *tone)[j].gain,
    {
        r.push((slots[i].0.clone().concat(":Gain"), slots[i].1.gain));
    }
    r
}

} // verus!
