//! The filter chain: which nodes it has, how they are linked, and where it stands between the
//! programs and the device.

use vstd::prelude::*;

use crate::decimal::{digit, fixed, numeral};
use crate::double::Double;
use crate::laws::text::{law_line_alone, law_lines_part};
use crate::pipewire::render::{chain_args, config_text, escaped, law_escape, links, nodes};
use crate::profile::{effective, BandType, FilterBand, ProfileView, ToneSettings};
use crate::round_trip::{law_fixed_reads_back, lemma_numeral, unbroken};
use crate::text::{lines, on_lines};

verus! {

/// No character of the text ends a line.
pub open spec fn tidy(s: Seq<char>) -> bool {
    forall|i: int| 0 <= i < s.len() ==> #[trigger] s[i] != '\n' && s[i] != '\r'
}

pub open spec fn all_tidy(ls: Seq<Seq<char>>) -> bool {
    forall|i: int| 0 <= i < ls.len() ==> tidy(#[trigger] ls[i])
}

/// Lines one below the other.
pub open spec fn down(ls: Seq<Seq<char>>) -> Seq<char>
    decreases ls.len(),
{
    if ls.len() == 0 {
        seq![]
    } else if ls.len() == 1 {
        ls[0]
    } else {
        ls[0] + seq!['\n'] + down(ls.drop_first())
    }
}

proof fn lemma_down_join(a: Seq<Seq<char>>, b: Seq<Seq<char>>)
    requires
        a.len() > 0,
        b.len() > 0,
    ensures
        down(a + b) == down(a) + seq!['\n'] + down(b),
    decreases a.len(),
{
    if a.len() == 1 {
        assert((a + b).drop_first() =~= b);
    } else {
        lemma_down_join(a.drop_first(), b);
        assert((a + b).drop_first() =~= a.drop_first() + b);
        assert(down(a + b) =~= down(a) + seq!['\n'] + down(b));
    }
}

proof fn lemma_on_lines(ls: Seq<Seq<char>>)
    ensures
        on_lines(ls) == down(ls),
    decreases ls.len(),
{
    if ls.len() > 1 {
        lemma_on_lines(ls.drop_last());
        lemma_down_join(ls.drop_last(), seq![ls.last()]);
        assert(ls.drop_last() + seq![ls.last()] =~= ls);
    }
}

proof fn lemma_lines_down(ls: Seq<Seq<char>>)
    requires
        all_tidy(ls),
        ls.len() > 0,
        ls.last().len() > 0,
    ensures
        lines(down(ls)) == ls,
    decreases ls.len(),
{
    assert(tidy(ls[0]));
    assert(unbroken(ls[0]));
    if ls.len() == 1 {
        law_line_alone(ls[0]);
        assert(seq![ls[0]] =~= ls);
    } else {
        let rest = ls.drop_first();
        assert forall|i: int| 0 <= i < rest.len() implies tidy(#[trigger] rest[i]) by {
            assert(tidy(ls[i + 1]));
        }
        lemma_lines_down(rest);
        if ls[0].len() > 0 {
            assert(ls[0][ls[0].len() - 1] != '\r');
        }
        law_lines_part(ls[0], down(rest));
        assert(seq![ls[0]] + rest =~= ls);
    }
}

/// The name of the `i`-th of the nodes for `n` correction bands, in the order of the sound: the
/// gain stage, the bands from the first to the last, and the shelves of the tone layer.
pub open spec fn stage(i: int, n: int) -> Seq<char> {
    if i == 0 {
        "pre_gain"@
    } else if i <= n {
        "eq_band_"@ + numeral(i as nat)
    } else if i == n + 1 {
        "eq_bass"@
    } else if i == n + 2 {
        "eq_tilt_lo"@
    } else {
        "eq_tilt_hi"@
    }
}

/// The filter that PipeWire has for a type of band.
pub open spec fn filter_of(kind: BandType) -> Seq<char> {
    match kind {
        BandType::LowShelf => "bq_lowshelf"@,
        BandType::Peaking => "bq_peaking"@,
        BandType::HighShelf => "bq_highshelf"@,
    }
}

/// The line by which the output of one node is linked to the input of another.
pub open spec fn link_line(from: Seq<char>, to: Seq<char>) -> Seq<char> {
    "            { output = \""@ + from + ":Out\" input = \""@ + to + ":In\" }"@
}

pub open spec fn stage_label(bands: Seq<FilterBand>, tone: ToneSettings, i: int) -> Seq<char> {
    if i == 0 {
        "linear"@
    } else {
        filter_of(effective(bands, tone)[i - 1].kind)
    }
}

pub open spec fn stage_control(
    bands: Seq<FilterBand>,
    tone: ToneSettings,
    mult: Double,
    i: int,
) -> Seq<char> {
    if i == 0 {
        "\"Mult\" = "@ + fixed(mult, 5, false) + " \"Add\" = 0.0"@
    } else {
        let b = effective(bands, tone)[i - 1];
        "\"Freq\" = "@ + fixed(b.frequency, 1, false) + " \"Q\" = "@ + fixed(b.q, 3, false)
            + " \"Gain\" = "@ + fixed(b.gain, 3, false)
    }
}

/// The lines of a node.
spec fn node_lines(
    bands: Seq<FilterBand>,
    tone: ToneSettings,
    mult: Double,
    i: int,
) -> Seq<Seq<char>> {
    seq![
        "            {"@,
        "                type = builtin"@,
        "                name = "@ + stage(i, bands.len() as int),
        "                label = "@ + stage_label(bands, tone, i),
        "                control = { "@ + stage_control(bands, tone, mult, i) + " }"@,
        "            }"@,
    ]
}

/// The lines of the first `m` nodes.
spec fn flat(bands: Seq<FilterBand>, tone: ToneSettings, mult: Double, m: nat) -> Seq<Seq<char>>
    decreases m,
{
    if m == 0 {
        seq![]
    } else {
        flat(bands, tone, mult, (m - 1) as nat) + node_lines(bands, tone, mult, m - 1)
    }
}

spec fn head(name: Seq<char>) -> Seq<Seq<char>> {
    seq![
        "{"@,
        "    node.description = \"ADtune Calibrated — "@ + escaped(name) + "\""@,
        "    media.name = \"ADtune Calibrated\""@,
        "    filter.graph = {"@,
        "        nodes = ["@,
    ]
}

spec fn middle() -> Seq<Seq<char>> {
    seq!["        ]"@, "        links = ["@]
}

spec fn tail_a() -> Seq<Seq<char>> {
    seq![
        "        ]"@,
        "    }"@,
        "    audio.channels = 2"@,
        "    audio.position = [ FL FR ]"@,
        "    capture.props = {"@,
        "        node.name = \"effect_input.adtune\""@,
        "        media.class = Audio/Sink"@,
        "        node.virtual = true"@,
        "    }"@,
        "    playback.props = {"@,
        "        node.name = \"effect_output.adtune\""@,
    ]
}

spec fn tail_b(target: Seq<char>) -> Seq<Seq<char>> {
    seq![
        "        node.target = \""@ + escaped(target) + "\""@,
        "        node.passive = true"@,
        "    }"@,
        "}"@,
    ]
}

proof fn lemma_glue_node(
    l0: Seq<char>,
    l1: Seq<char>,
    p2: Seq<char>,
    p3: Seq<char>,
    p4: Seq<char>,
    q4: Seq<char>,
    l5: Seq<char>,
    name: Seq<char>,
    label: Seq<char>,
    control: Seq<char>,
    n: Seq<char>,
)
    ensures
        (l0 + n + l1 + n + p2) + name + (n + p3) + label + (n + p4) + control + (q4 + n + l5) == l0 + n
            + (l1 + n + ((p2 + name) + n + ((p3 + label) + n + ((p4 + control + q4) + n + l5)))),
{
    assert((l0 + n + l1 + n + p2) + name + (n + p3) + label + (n + p4) + control + (q4 + n + l5) =~= l0
        + n + (l1 + n + ((p2 + name) + n + ((p3 + label) + n + ((p4 + control + q4) + n + l5)))));
}

proof fn lemma_down_six(ls: Seq<Seq<char>>)
    requires
        ls.len() == 6,
    ensures
        down(ls) == ls[0] + seq!['\n'] + (ls[1] + seq!['\n'] + (ls[2] + seq!['\n'] + (ls[3] + seq!['\n'] + (
        ls[4] + seq!['\n'] + ls[5])))),
{
    reveal_with_fuel(down, 7);
}

proof fn lemma_node(bands: Seq<FilterBand>, tone: ToneSettings, mult: Double, i: int)
    requires
        0 <= i < bands.len() + 4,
        effective(bands, tone).len() == bands.len() + 3,
    ensures
        nodes(bands, tone, mult)[i] == down(node_lines(bands, tone, mult, i)),
{
    let ls = node_lines(bands, tone, mult, i);
    lemma_node_literals();
    lemma_down_six(ls);
    let name = stage(i, bands.len() as int);
    let label = stage_label(bands, tone, i);
    let control = stage_control(bands, tone, mult, i);
    assert(nodes(bands, tone, mult)[i] == crate::pipewire::render::node_text(name, label, control));
    lemma_glue_node(
        "            {"@,
        "                type = builtin"@,
        "                name = "@,
        "                label = "@,
        "                control = { "@,
        " }"@,
        "            }"@,
        name,
        label,
        control,
        seq!['\n'],
    );
}

proof fn lemma_node_literals()
    ensures
        "            {\n                type = builtin\n                name = "@ == "            {"@
            + seq!['\n'] + "                type = builtin"@ + seq!['\n'] + "                name = "@,
        "\n                label = "@ == seq!['\n'] + "                label = "@,
        "\n                control = { "@ == seq!['\n'] + "                control = { "@,
        " }\n            }"@ == " }"@ + seq!['\n'] + "            }"@,
{
    reveal_strlit("            {\n                type = builtin\n                name = ");
    reveal_strlit("            {");
    reveal_strlit("                type = builtin");
    reveal_strlit("                name = ");
    reveal_strlit("\n                label = ");
    reveal_strlit("                label = ");
    reveal_strlit("\n                control = { ");
    reveal_strlit("                control = { ");
    reveal_strlit(" }\n            }");
    reveal_strlit(" }");
    reveal_strlit("            }");
    assert("            {\n                type = builtin\n                name = "@ =~= "            {"@
        + seq!['\n'] + "                type = builtin"@ + seq!['\n'] + "                name = "@);
    assert("\n                label = "@ =~= seq!['\n'] + "                label = "@);
    assert("\n                control = { "@ =~= seq!['\n'] + "                control = { "@);
    assert(" }\n            }"@ =~= " }"@ + seq!['\n'] + "            }"@);
}

proof fn lemma_flat(bands: Seq<FilterBand>, tone: ToneSettings, mult: Double, m: nat)
    requires
        0 < m <= bands.len() + 4,
        effective(bands, tone).len() == bands.len() + 3,
    ensures
        on_lines(nodes(bands, tone, mult).take(m as int)) == down(flat(bands, tone, mult, m)),
        flat(bands, tone, mult, m).len() == 6 * m,
    decreases m,
{
    let all = nodes(bands, tone, mult);
    let some = all.take(m as int);
    lemma_node(bands, tone, mult, m - 1);
    if m == 1 {
        assert(flat(bands, tone, mult, 0) =~= seq![]);
        assert(flat(bands, tone, mult, 1) =~= node_lines(bands, tone, mult, 0));
        assert(some.len() == 1 && some[0] == all[0]);
    } else {
        lemma_flat(bands, tone, mult, (m - 1) as nat);
        assert(some.drop_last() =~= all.take(m - 1));
        assert(some.last() == all[m - 1]);
        lemma_down_join(
            flat(bands, tone, mult, (m - 1) as nat),
            node_lines(bands, tone, mult, m - 1),
        );
    }
}

proof fn lemma_flat_at(
    bands: Seq<FilterBand>,
    tone: ToneSettings,
    mult: Double,
    m: nat,
    i: int,
    j: int,
)
    requires
        0 <= i < m,
        0 <= j < 6,
    ensures
        flat(bands, tone, mult, m).len() == 6 * m,
        flat(bands, tone, mult, m)[6 * i + j] == node_lines(bands, tone, mult, i)[j],
    decreases m,
{
    lemma_flat_len(bands, tone, mult, m);
    lemma_flat_len(bands, tone, mult, (m - 1) as nat);
    if i < m - 1 {
        lemma_flat_at(bands, tone, mult, (m - 1) as nat, i, j);
    }
}

proof fn lemma_flat_len(bands: Seq<FilterBand>, tone: ToneSettings, mult: Double, m: nat)
    ensures
        flat(bands, tone, mult, m).len() == 6 * m,
    decreases m,
{
    if m > 0 {
        lemma_flat_len(bands, tone, mult, (m - 1) as nat);
    }
}

proof fn lemma_head_literals(e: Seq<char>)
    ensures
        "{\n    node.description = \"ADtune Calibrated — "@ == "{"@ + seq!['\n']
            + "    node.description = \"ADtune Calibrated — "@,
        "\"\n    media.name = \"ADtune Calibrated\"\n    filter.graph = {\n        nodes = [\n"@ == "\""@
            + seq!['\n'] + "    media.name = \"ADtune Calibrated\""@ + seq!['\n']
            + "    filter.graph = {"@ + seq!['\n'] + "        nodes = ["@ + seq!['\n'],
        "\n        ]\n        links = [\n"@ == seq!['\n'] + "        ]"@ + seq!['\n']
            + "        links = ["@ + seq!['\n'],
        "\"\n        node.passive = true\n    }\n}"@ == "\""@ + seq!['\n']
            + "        node.passive = true"@ + seq!['\n'] + "    }"@ + seq!['\n'] + "}"@,
{
    reveal_strlit("{\n    node.description = \"ADtune Calibrated — ");
    reveal_strlit("{");
    reveal_strlit("    node.description = \"ADtune Calibrated — ");
    reveal_strlit("\"\n    media.name = \"ADtune Calibrated\"\n    filter.graph = {\n        nodes = [\n");
    reveal_strlit("\"");
    reveal_strlit("    media.name = \"ADtune Calibrated\"");
    reveal_strlit("    filter.graph = {");
    reveal_strlit("        nodes = [");
    reveal_strlit("\n        ]\n        links = [\n");
    reveal_strlit("        ]");
    reveal_strlit("        links = [");
    reveal_strlit("\"\n        node.passive = true\n    }\n}");
    reveal_strlit("        node.passive = true");
    reveal_strlit("    }");
    reveal_strlit("}");
    assert("{\n    node.description = \"ADtune Calibrated — "@ =~= "{"@ + seq!['\n']
        + "    node.description = \"ADtune Calibrated — "@);
    assert("\"\n    media.name = \"ADtune Calibrated\"\n    filter.graph = {\n        nodes = [\n"@ =~= "\""@
        + seq!['\n'] + "    media.name = \"ADtune Calibrated\""@ + seq!['\n'] + "    filter.graph = {"@
        + seq!['\n'] + "        nodes = ["@ + seq!['\n']);
    assert("\n        ]\n        links = [\n"@ =~= seq!['\n'] + "        ]"@ + seq!['\n']
        + "        links = ["@ + seq!['\n']);
    assert("\"\n        node.passive = true\n    }\n}"@ =~= "\""@ + seq!['\n']
        + "        node.passive = true"@ + seq!['\n'] + "    }"@ + seq!['\n'] + "}"@);
}

proof fn lemma_tail_literal()
    ensures
        "\n        ]\n    }\n    audio.channels = 2\n    audio.position = [ FL FR ]\n    capture.props = {\n        node.name = \"effect_input.adtune\"\n        media.class = Audio/Sink\n        node.virtual = true\n    }\n    playback.props = {\n        node.name = \"effect_output.adtune\"\n        node.target = \""@
            == seq!['\n'] + ("        ]"@ + seq!['\n'] + "    }"@ + seq!['\n'] + "    audio.channels = 2"@
            + seq!['\n'] + "    audio.position = [ FL FR ]"@ + seq!['\n'] + "    capture.props = {"@
            + seq!['\n'] + "        node.name = \"effect_input.adtune\""@ + seq!['\n']
            + "        media.class = Audio/Sink"@ + seq!['\n'] + "        node.virtual = true"@
            + seq!['\n'] + "    }"@ + seq!['\n'] + "    playback.props = {"@ + seq!['\n']
            + "        node.name = \"effect_output.adtune\""@) + seq!['\n'] + "        node.target = \""@,
{
    reveal_strlit("\n        ]\n    }\n    audio.channels = 2\n    audio.position = [ FL FR ]\n    capture.props = {\n        node.name = \"effect_input.adtune\"\n        media.class = Audio/Sink\n        node.virtual = true\n    }\n    playback.props = {\n        node.name = \"effect_output.adtune\"\n        node.target = \"");
    reveal_strlit("        ]");
    reveal_strlit("    }");
    reveal_strlit("    audio.channels = 2");
    reveal_strlit("    audio.position = [ FL FR ]");
    reveal_strlit("    capture.props = {");
    reveal_strlit("        node.name = \"effect_input.adtune\"");
    reveal_strlit("        media.class = Audio/Sink");
    reveal_strlit("        node.virtual = true");
    reveal_strlit("    playback.props = {");
    reveal_strlit("        node.name = \"effect_output.adtune\"");
    reveal_strlit("        node.target = \"");
    assert("\n        ]\n    }\n    audio.channels = 2\n    audio.position = [ FL FR ]\n    capture.props = {\n        node.name = \"effect_input.adtune\"\n        media.class = Audio/Sink\n        node.virtual = true\n    }\n    playback.props = {\n        node.name = \"effect_output.adtune\"\n        node.target = \""@
            =~= seq!['\n'] + ("        ]"@ + seq!['\n'] + "    }"@ + seq!['\n'] + "    audio.channels = 2"@
            + seq!['\n'] + "    audio.position = [ FL FR ]"@ + seq!['\n'] + "    capture.props = {"@
            + seq!['\n'] + "        node.name = \"effect_input.adtune\""@ + seq!['\n']
            + "        media.class = Audio/Sink"@ + seq!['\n'] + "        node.virtual = true"@
            + seq!['\n'] + "    }"@ + seq!['\n'] + "    playback.props = {"@ + seq!['\n']
            + "        node.name = \"effect_output.adtune\""@) + seq!['\n'] + "        node.target = \""@);
}

proof fn lemma_down_push(ls: Seq<Seq<char>>, x: Seq<char>)
    requires
        ls.len() > 0,
    ensures
        down(ls.push(x)) == down(ls) + seq!['\n'] + x,
{
    lemma_down_join(ls, seq![x]);
    assert(ls + seq![x] =~= ls.push(x));
}

proof fn lemma_tail_lines()
    ensures
        down(tail_a()) == "        ]"@ + seq!['\n'] + "    }"@ + seq!['\n'] + "    audio.channels = 2"@
            + seq!['\n'] + "    audio.position = [ FL FR ]"@ + seq!['\n'] + "    capture.props = {"@
            + seq!['\n'] + "        node.name = \"effect_input.adtune\""@ + seq!['\n']
            + "        media.class = Audio/Sink"@ + seq!['\n'] + "        node.virtual = true"@
            + seq!['\n'] + "    }"@ + seq!['\n'] + "    playback.props = {"@ + seq!['\n']
            + "        node.name = \"effect_output.adtune\""@,
{
    let s0 = seq!["        ]"@];
    assert(down(s0) == "        ]"@);
    let s1 = s0.push("    }"@);
    lemma_down_push(s0, "    }"@);
    let s2 = s1.push("    audio.channels = 2"@);
    lemma_down_push(s1, "    audio.channels = 2"@);
    let s3 = s2.push("    audio.position = [ FL FR ]"@);
    lemma_down_push(s2, "    audio.position = [ FL FR ]"@);
    let s4 = s3.push("    capture.props = {"@);
    lemma_down_push(s3, "    capture.props = {"@);
    let s5 = s4.push("        node.name = \"effect_input.adtune\""@);
    lemma_down_push(s4, "        node.name = \"effect_input.adtune\""@);
    let s6 = s5.push("        media.class = Audio/Sink"@);
    lemma_down_push(s5, "        media.class = Audio/Sink"@);
    let s7 = s6.push("        node.virtual = true"@);
    lemma_down_push(s6, "        node.virtual = true"@);
    let s8 = s7.push("    }"@);
    lemma_down_push(s7, "    }"@);
    let s9 = s8.push("    playback.props = {"@);
    lemma_down_push(s8, "    playback.props = {"@);
    let s10 = s9.push("        node.name = \"effect_output.adtune\""@);
    lemma_down_push(s9, "        node.name = \"effect_output.adtune\""@);
    assert(tail_a() =~= s10);
}

proof fn lemma_tail_down()
    ensures
        "\n        ]\n    }\n    audio.channels = 2\n    audio.position = [ FL FR ]\n    capture.props = {\n        node.name = \"effect_input.adtune\"\n        media.class = Audio/Sink\n        node.virtual = true\n    }\n    playback.props = {\n        node.name = \"effect_output.adtune\"\n        node.target = \""@
            == seq!['\n'] + down(tail_a()) + seq!['\n'] + "        node.target = \""@,
{
    lemma_tail_literal();
    lemma_tail_lines();
}

proof fn lemma_ends_down(name: Seq<char>, target: Seq<char>)
    ensures
        down(head(name)) + seq!['\n'] == "{\n    node.description = \"ADtune Calibrated — "@ + escaped(name)
            + "\"\n    media.name = \"ADtune Calibrated\"\n    filter.graph = {\n        nodes = [\n"@,
        seq!['\n'] + down(middle()) + seq!['\n'] == "\n        ]\n        links = [\n"@,
        "        node.target = \""@ + escaped(target) + "\"\n        node.passive = true\n    }\n}"@
            == down(tail_b(target)),
{
    lemma_head_literals(name);
    reveal_with_fuel(down, 6);
    assert(down(head(name)) + seq!['\n'] =~= "{\n    node.description = \"ADtune Calibrated — "@ + escaped(
        name,
    ) + "\"\n    media.name = \"ADtune Calibrated\"\n    filter.graph = {\n        nodes = [\n"@);
    assert(seq!['\n'] + down(middle()) + seq!['\n'] =~= "\n        ]\n        links = [\n"@);
    assert("        node.target = \""@ + escaped(target)
        + "\"\n        node.passive = true\n    }\n}"@ =~= down(tail_b(target)));
}

/// All lines of the description.
spec fn chain_lines(
    profile: ProfileView,
    target: Seq<char>,
    tone: ToneSettings,
    mult: Double,
) -> Seq<Seq<char>> {
    head(profile.name) + flat(profile.bands, tone, mult, profile.bands.len() + 4) + middle() + links(
        profile.bands.len() as int,
    ) + tail_a() + tail_b(target)
}

proof fn lemma_chain_down(
    profile: ProfileView,
    target: Seq<char>,
    tone: ToneSettings,
    mult: Double,
)
    ensures
        chain_args(profile, target, tone, mult) == down(chain_lines(profile, target, tone, mult)),
        effective(profile.bands, tone).len() == profile.bands.len() + 3,
{
    let n = profile.bands.len();
    let all = nodes(profile.bands, tone, mult);
    let a = head(profile.name);
    let b = flat(profile.bands, tone, mult, n + 4);
    let c = middle();
    let d = links(n as int);
    let e = tail_a();
    let f = tail_b(target);
    lemma_flat(profile.bands, tone, mult, n + 4);
    assert(all.take((n + 4) as int) =~= all);
    lemma_on_lines(d);
    lemma_ends_down(profile.name, target);
    lemma_tail_down();
    lemma_down_join(a, b);
    lemma_down_join(a + b, c);
    lemma_down_join(a + b + c, d);
    lemma_down_join(a + b + c + d, e);
    lemma_down_join(a + b + c + d + e, f);
    let text = down(a) + seq!['\n'] + down(b) + seq!['\n'] + down(c) + seq!['\n'] + down(d) + seq!['\n']
        + down(e) + seq!['\n'] + down(f);
    assert(down(a + b + c + d + e + f) == text);
    let t = "\n        ]\n    }\n    audio.channels = 2\n    audio.position = [ FL FR ]\n    capture.props = {\n        node.name = \"effect_input.adtune\"\n        media.class = Audio/Sink\n        node.virtual = true\n    }\n    playback.props = {\n        node.name = \"effect_output.adtune\"\n        node.target = \""@;
    let q = "        node.target = \""@;
    let h = "{\n    node.description = \"ADtune Calibrated — "@ + escaped(profile.name)
        + "\"\n    media.name = \"ADtune Calibrated\"\n    filter.graph = {\n        nodes = [\n"@;
    let m = "\n        ]\n        links = [\n"@;
    let z = "\"\n        node.passive = true\n    }\n}"@;
    assert(chain_args(profile, target, tone, mult) == h + down(b) + m + down(d) + t + escaped(target) + z);
    lemma_glue(down(a), down(b), down(c), down(d), down(e), q, escaped(target), z, seq!['\n']);
}

proof fn lemma_glue(
    a: Seq<char>,
    b: Seq<char>,
    c: Seq<char>,
    d: Seq<char>,
    e: Seq<char>,
    q: Seq<char>,
    x: Seq<char>,
    z: Seq<char>,
    n: Seq<char>,
)
    ensures
        (a + n) + b + (n + c + n) + d + (n + e + n + q) + x + z == a + n + b + n + c + n + d + n + e + n
            + (q + x + z),
{
    assert((a + n) + b + (n + c + n) + d + (n + e + n + q) + x + z =~= a + n + b + n + c + n + d + n + e
        + n + (q + x + z));
}

proof fn lemma_tidy(a: Seq<char>, b: Seq<char>)
    requires
        tidy(a),
        tidy(b),
    ensures
        tidy(a + b),
{
}

proof fn lemma_fixed_tidy(v: Double, k: nat)
    ensures
        tidy(fixed(v, k, false)),
{
    let s = fixed(v, k, false);
    if v.finite() {
        law_fixed_reads_back(v, k);
        assert forall|i: int| 0 <= i < s.len() implies #[trigger] s[i] != '\n' && s[i] != '\r' by {
            assert(!crate::text::white(s[i]));
        }
    } else {
        reveal_strlit("NaN");
        reveal_strlit("inf");
    }
}

proof fn lemma_stage_tidy(i: int, n: int)
    requires
        0 <= i <= n + 3,
    ensures
        tidy(stage(i, n)),
{
    reveal_strlit("pre_gain");
    reveal_strlit("eq_band_");
    reveal_strlit("eq_bass");
    reveal_strlit("eq_tilt_lo");
    reveal_strlit("eq_tilt_hi");
    let s = numeral(i as nat);
    lemma_numeral(i as nat);
    assert forall|k: int| 0 <= k < s.len() implies #[trigger] s[k] != '\n' && s[k] != '\r' by {
        assert(digit(s[k]));
    }
}

proof fn lemma_control_tidy(bands: Seq<FilterBand>, tone: ToneSettings, mult: Double, i: int)
    requires
        0 <= i < bands.len() + 4,
        effective(bands, tone).len() == bands.len() + 3,
    ensures
        tidy(stage_control(bands, tone, mult, i)),
        tidy(stage_label(bands, tone, i)),
{
    reveal_strlit("\"Mult\" = ");
    reveal_strlit(" \"Add\" = 0.0");
    reveal_strlit("\"Freq\" = ");
    reveal_strlit(" \"Q\" = ");
    reveal_strlit(" \"Gain\" = ");
    reveal_strlit("linear");
    reveal_strlit("bq_lowshelf");
    reveal_strlit("bq_peaking");
    reveal_strlit("bq_highshelf");
    lemma_fixed_tidy(mult, 5);
    if i > 0 {
        let b = effective(bands, tone)[i - 1];
        lemma_fixed_tidy(b.frequency, 1);
        lemma_fixed_tidy(b.q, 3);
        lemma_fixed_tidy(b.gain, 3);
    }
}

proof fn lemma_node_tidy(bands: Seq<FilterBand>, tone: ToneSettings, mult: Double, i: int)
    requires
        0 <= i < bands.len() + 4,
        effective(bands, tone).len() == bands.len() + 3,
    ensures
        all_tidy(node_lines(bands, tone, mult, i)),
{
    let ls = node_lines(bands, tone, mult, i);
    lemma_control_tidy(bands, tone, mult, i);
    lemma_stage_tidy(i, bands.len() as int);
    reveal_strlit("            {");
    reveal_strlit("                type = builtin");
    reveal_strlit("                name = ");
    reveal_strlit("                label = ");
    reveal_strlit("                control = { ");
    reveal_strlit(" }");
    reveal_strlit("            }");
    assert(tidy(ls[0]));
    assert(tidy(ls[1]));
    lemma_tidy("                name = "@, stage(i, bands.len() as int));
    lemma_tidy("                label = "@, stage_label(bands, tone, i));
    lemma_tidy("                control = { "@, stage_control(bands, tone, mult, i));
    lemma_tidy("                control = { "@ + stage_control(bands, tone, mult, i), " }"@);
    assert(tidy(ls[5]));
}

proof fn lemma_flat_tidy(bands: Seq<FilterBand>, tone: ToneSettings, mult: Double, m: nat)
    requires
        m <= bands.len() + 4,
        effective(bands, tone).len() == bands.len() + 3,
    ensures
        all_tidy(flat(bands, tone, mult, m)),
    decreases m,
{
    if m > 0 {
        lemma_flat_tidy(bands, tone, mult, (m - 1) as nat);
        lemma_node_tidy(bands, tone, mult, m - 1);
    }
}

proof fn lemma_link(n: int, i: int)
    requires
        0 <= i < n + 3,
        n >= 0,
    ensures
        links(n)[i] == link_line(stage(i, n), stage(i + 1, n)),
        tidy(links(n)[i]),
{
    lemma_stage_tidy(i, n);
    lemma_stage_tidy(i + 1, n);
    reveal_strlit("            { output = \"");
    reveal_strlit(":Out\" input = \"");
    reveal_strlit(":In\" }");
    assert(links(n)[i] == link_line(stage(i, n), stage(i + 1, n)));
    lemma_tidy("            { output = \""@, stage(i, n));
    lemma_tidy("            { output = \""@ + stage(i, n), ":Out\" input = \""@);
    lemma_tidy("            { output = \""@ + stage(i, n) + ":Out\" input = \""@, stage(i + 1, n));
    lemma_tidy(
        "            { output = \""@ + stage(i, n) + ":Out\" input = \""@ + stage(i + 1, n),
        ":In\" }"@,
    );
}

proof fn lemma_ends_tidy(name: Seq<char>, target: Seq<char>)
    ensures
        all_tidy(head(name)),
        all_tidy(middle()),
        all_tidy(tail_a()),
        all_tidy(tail_b(target)),
        tail_b(target).last().len() > 0,
{
    law_escape(name);
    law_escape(target);
    reveal_strlit("{");
    reveal_strlit("    node.description = \"ADtune Calibrated — ");
    reveal_strlit("\"");
    reveal_strlit("    media.name = \"ADtune Calibrated\"");
    reveal_strlit("    filter.graph = {");
    reveal_strlit("        nodes = [");
    reveal_strlit("        ]");
    reveal_strlit("        links = [");
    reveal_strlit("    }");
    reveal_strlit("    audio.channels = 2");
    reveal_strlit("    audio.position = [ FL FR ]");
    reveal_strlit("    capture.props = {");
    reveal_strlit("        node.name = \"effect_input.adtune\"");
    reveal_strlit("        media.class = Audio/Sink");
    reveal_strlit("        node.virtual = true");
    reveal_strlit("    playback.props = {");
    reveal_strlit("        node.name = \"effect_output.adtune\"");
    reveal_strlit("        node.target = \"");
    reveal_strlit("        node.passive = true");
    reveal_strlit("}");
    lemma_tidy("    node.description = \"ADtune Calibrated — "@, escaped(name));
    lemma_tidy("    node.description = \"ADtune Calibrated — "@ + escaped(name), "\""@);
    lemma_tidy("        node.target = \""@, escaped(target));
    lemma_tidy("        node.target = \""@ + escaped(target), "\""@);
}

proof fn lemma_chain_lines(
    profile: ProfileView,
    target: Seq<char>,
    tone: ToneSettings,
    mult: Double,
)
    ensures
        lines(chain_args(profile, target, tone, mult)) == chain_lines(profile, target, tone, mult),
        flat(profile.bands, tone, mult, profile.bands.len() + 4).len() == 6 * (profile.bands.len() + 4),
        chain_lines(profile, target, tone, mult).len() == 7 * profile.bands.len() + 49,
        effective(profile.bands, tone).len() == profile.bands.len() + 3,
{
    let n = profile.bands.len();
    lemma_chain_down(profile, target, tone, mult);
    lemma_flat_len(profile.bands, tone, mult, n + 4);
    lemma_flat_tidy(profile.bands, tone, mult, n + 4);
    lemma_ends_tidy(profile.name, target);
    let d = links(n as int);
    assert forall|i: int| 0 <= i < d.len() implies tidy(#[trigger] d[i]) by {
        lemma_link(n as int, i);
    }
    let all = chain_lines(profile, target, tone, mult);
    assert(all.last() == tail_b(target).last());
    lemma_all_tidy(head(profile.name), flat(profile.bands, tone, mult, n + 4));
    lemma_all_tidy(head(profile.name) + flat(profile.bands, tone, mult, n + 4), middle());
    lemma_all_tidy(head(profile.name) + flat(profile.bands, tone, mult, n + 4) + middle(), d);
    lemma_all_tidy(head(profile.name) + flat(profile.bands, tone, mult, n + 4) + middle() + d, tail_a());
    lemma_all_tidy(
        head(profile.name) + flat(profile.bands, tone, mult, n + 4) + middle() + d + tail_a(),
        tail_b(target),
    );
    lemma_lines_down(all);
}

proof fn lemma_all_tidy(a: Seq<Seq<char>>, b: Seq<Seq<char>>)
    requires
        all_tidy(a),
        all_tidy(b),
    ensures
        all_tidy(a + b),
{
}

/// The place of the first line of the `i`-th node in the description.
pub open spec fn node_at(i: int) -> int {
    5 + 6 * i
}

/// The place of the first link.
pub open spec fn link_at(n: int) -> int {
    5 + 6 * (n + 4) + 2
}

/// The nodes of the description, in the order of the sound: a gain stage with the factor ahead of
/// the bands, then each band in effect, with the filter of its type, its frequency, its quality
/// factor and its gain. None is missing, and no band stands at another's place.
pub proof fn law_chain_has_every_band(
    profile: ProfileView,
    target: Seq<char>,
    tone: ToneSettings,
    mult: Double,
    i: int,
)
    requires
        0 <= i < profile.bands.len() + 4,
    ensures
        ({
            let text = lines(chain_args(profile, target, tone, mult));
            let n = profile.bands.len() as int;
            let b = effective(profile.bands, tone)[i - 1];
            &&& node_at(i) + 6 <= text.len()
            &&& text[node_at(i)] == "            {"@
            &&& text[node_at(i) + 1] == "                type = builtin"@
            &&& text[node_at(i) + 2] == "                name = "@ + stage(i, n)
            &&& text[node_at(i) + 5] == "            }"@
            &&& i == 0 ==> {
                &&& text[node_at(i) + 3] == "                label = "@ + "linear"@
                &&& text[node_at(i) + 4] == "                control = { "@ + ("\"Mult\" = "@ + fixed(
                    mult,
                    5,
                    false,
                ) + " \"Add\" = 0.0"@) + " }"@
            }
            &&& i > 0 ==> {
                &&& text[node_at(i) + 3] == "                label = "@ + filter_of(b.kind)
                &&& text[node_at(i) + 4] == "                control = { "@ + ("\"Freq\" = "@ + fixed(
                    b.frequency,
                    1,
                    false,
                ) + " \"Q\" = "@ + fixed(b.q, 3, false) + " \"Gain\" = "@ + fixed(b.gain, 3, false))
                    + " }"@
            }
        }),
{
    lemma_chain_lines(profile, target, tone, mult);
    let n = profile.bands.len();
    let all = chain_lines(profile, target, tone, mult);
    let f = flat(profile.bands, tone, mult, n + 4);
    assert forall|j: int| 0 <= j < 6 implies all[5 + 6 * i + j] == #[trigger] node_lines(
        profile.bands,
        tone,
        mult,
        i,
    )[j] by {
        lemma_flat_at(profile.bands, tone, mult, n + 4, i, j);
        assert(all[5 + 6 * i + j] == f[6 * i + j]);
    }
    let ls = node_lines(profile.bands, tone, mult, i);
    assert(all[5 + 6 * i + 0] == ls[0]);
    assert(all[5 + 6 * i + 1] == ls[1]);
    assert(all[5 + 6 * i + 2] == ls[2]);
    assert(all[5 + 6 * i + 3] == ls[3]);
    assert(all[5 + 6 * i + 4] == ls[4]);
    assert(all[5 + 6 * i + 5] == ls[5]);
}

/// The nodes are in series: the output of each but the last is linked to the input of the one
/// right behind it, in the order of the sound.
pub proof fn law_chain_is_in_series(
    profile: ProfileView,
    target: Seq<char>,
    tone: ToneSettings,
    mult: Double,
    i: int,
)
    requires
        0 <= i < profile.bands.len() + 3,
    ensures
        ({
            let text = lines(chain_args(profile, target, tone, mult));
            let n = profile.bands.len() as int;
            &&& link_at(n) + n + 3 <= text.len()
            &&& text[link_at(n) - 1] == "        links = ["@
            &&& text[link_at(n) + i] == link_line(stage(i, n), stage(i + 1, n))
            &&& text[link_at(n) + n + 3] == "        ]"@
        }),
{
    lemma_chain_lines(profile, target, tone, mult);
    let n = profile.bands.len() as int;
    let all = chain_lines(profile, target, tone, mult);
    lemma_link(n, i);
    assert(all[link_at(n) + i] == links(n)[i]);
    assert(all[link_at(n) - 1] == middle()[1]);
    assert(all[link_at(n) + n + 3] == tail_a()[0]);
}

/// No other line of the description is a link.
pub proof fn law_chain_has_no_other_links(
    profile: ProfileView,
    target: Seq<char>,
    tone: ToneSettings,
    mult: Double,
    k: int,
    from: Seq<char>,
    to: Seq<char>,
)
    requires
        0 <= k < lines(chain_args(profile, target, tone, mult)).len(),
        lines(chain_args(profile, target, tone, mult))[k] == link_line(from, to),
    ensures
        link_at(profile.bands.len() as int) <= k < link_at(profile.bands.len() as int)
            + profile.bands.len() + 3,
{
    lemma_chain_lines(profile, target, tone, mult);
    let n = profile.bands.len() as int;
    let all = chain_lines(profile, target, tone, mult);
    let f = flat(profile.bands, tone, mult, (n + 4) as nat);
    reveal_strlit("            { output = \"");
    reveal_strlit(":Out\" input = \"");
    let line = link_line(from, to);
    assert(line.len() > 14 && line[12] == '{');
    if k < 5 {
        lemma_ends_are_no_links(profile.name, target);
        assert(all[k] == head(profile.name)[k]);
    } else if k < 5 + 6 * (n + 4) {
        let i: int = (k - 5) / 6;
        let j: int = (k - 5) % 6;
        lemma_flat_at(profile.bands, tone, mult, (n + 4) as nat, i, j);
        assert(all[k] == f[6 * i + j]);
        lemma_nodes_are_no_links(profile.bands, tone, mult, i, j);
    } else if k < link_at(n) {
        lemma_ends_are_no_links(profile.name, target);
        assert(all[k] == middle()[k - (5 + 6 * (n + 4))]);
    } else if k >= link_at(n) + n + 3 {
        lemma_ends_are_no_links(profile.name, target);
        let t: int = k - (link_at(n) + n + 3);
        if t < 11 {
            assert(all[k] == tail_a()[t]);
        } else {
            assert(all[k] == tail_b(target)[t - 11]);
        }
    }
}

/// A line that cannot be a link: it is too short, or has no brace where a link has one.
spec fn no_link(s: Seq<char>) -> bool {
    s.len() <= 14 || s[12] != '{'
}

proof fn lemma_nodes_are_no_links(
    bands: Seq<FilterBand>,
    tone: ToneSettings,
    mult: Double,
    i: int,
    j: int,
)
    requires
        0 <= j < 6,
    ensures
        no_link(node_lines(bands, tone, mult, i)[j]),
{
    reveal_strlit("            {");
    reveal_strlit("                type = builtin");
    reveal_strlit("                name = ");
    reveal_strlit("                label = ");
    reveal_strlit("                control = { ");
    reveal_strlit("            }");
}

proof fn lemma_ends_are_no_links(name: Seq<char>, target: Seq<char>)
    ensures
        forall|j: int| 0 <= j < 5 ==> no_link(#[trigger] head(name)[j]),
        forall|j: int| 0 <= j < 2 ==> no_link(#[trigger] middle()[j]),
        forall|j: int| 0 <= j < 11 ==> no_link(#[trigger] tail_a()[j]),
        forall|j: int| 0 <= j < 4 ==> no_link(#[trigger] tail_b(target)[j]),
{
    reveal_strlit("{");
    reveal_strlit("    node.description = \"ADtune Calibrated — ");
    reveal_strlit("    media.name = \"ADtune Calibrated\"");
    reveal_strlit("    filter.graph = {");
    reveal_strlit("        nodes = [");
    reveal_strlit("        ]");
    reveal_strlit("        links = [");
    reveal_strlit("    }");
    reveal_strlit("    audio.channels = 2");
    reveal_strlit("    audio.position = [ FL FR ]");
    reveal_strlit("    capture.props = {");
    reveal_strlit("        node.name = \"effect_input.adtune\"");
    reveal_strlit("        media.class = Audio/Sink");
    reveal_strlit("        node.virtual = true");
    reveal_strlit("    playback.props = {");
    reveal_strlit("        node.name = \"effect_output.adtune\"");
    reveal_strlit("        node.target = \"");
    reveal_strlit("        node.passive = true");
    reveal_strlit("}");
}

/// No two nodes have the same name, so that each but the last is an output once and each but the
/// first an input once.
pub proof fn law_stages_differ(i: int, j: int, n: int)
    requires
        0 <= i < j <= n + 3,
        n >= 0,
    ensures
        stage(i, n) != stage(j, n),
{
    reveal_strlit("pre_gain");
    reveal_strlit("eq_band_");
    reveal_strlit("eq_bass");
    reveal_strlit("eq_tilt_lo");
    reveal_strlit("eq_tilt_hi");
    lemma_numeral(i as nat);
    lemma_numeral(j as nat);
    let a = stage(i, n);
    let b = stage(j, n);
    assert(i == 0 ==> a[0] == 'p');
    assert(b[0] == 'e');
    if 0 < i <= n {
        assert(a[4] == 'a' && a[5] == 'n');
        assert(a[3] == 'b');
        if j <= n {
            assert(a.skip(8) =~= numeral(i as nat));
            assert(b.skip(8) =~= numeral(j as nat));
        } else if j == n + 1 {
            assert(b[5] == 's');
        } else {
            assert(b[3] == 't');
        }
    } else if i == n + 1 && i > 0 {
        assert(a[3] == 'b');
        assert(b[3] == 't');
    } else if i == n + 2 {
        assert(a[8] == 'l');
        assert(b[8] == 'h');
    }
}

/// The chain stands behind the virtual sink and plays to the target: what the programs play goes
/// in, and the target's name is what stands in its quotes.
pub proof fn law_chain_stands_before_the_target(
    profile: ProfileView,
    target: Seq<char>,
    tone: ToneSettings,
    mult: Double,
)
    ensures
        ({
            let text = lines(chain_args(profile, target, tone, mult));
            let end = link_at(profile.bands.len() as int) + profile.bands.len() + 3;
            &&& text.len() == end + 15
            &&& text[1] == "    node.description = \"ADtune Calibrated — "@ + escaped(profile.name) + "\""@
            &&& text[0] == "{"@
            &&& text[2] == "    media.name = \"ADtune Calibrated\""@
            &&& text[3] == "    filter.graph = {"@
            &&& text[4] == "        nodes = ["@
            &&& text[end] == "        ]"@
            &&& text[end + 1] == "    }"@
            &&& text[end + 2] == "    audio.channels = 2"@
            &&& text[end + 3] == "    audio.position = [ FL FR ]"@
            &&& text[end + 7] == "        node.virtual = true"@
            &&& text[end + 8] == "    }"@
            &&& text[end + 13] == "    }"@
            &&& text[end + 14] == "}"@
            &&& text[end + 4] == "    capture.props = {"@
            &&& text[end + 5] == "        node.name = \"effect_input.adtune\""@
            &&& text[end + 6] == "        media.class = Audio/Sink"@
            &&& text[end + 9] == "    playback.props = {"@
            &&& text[end + 10] == "        node.name = \"effect_output.adtune\""@
            &&& text[end + 11] == "        node.target = \""@ + escaped(target) + "\""@
            &&& text[end + 12] == "        node.passive = true"@
        }),
{
    lemma_chain_lines(profile, target, tone, mult);
    let n = profile.bands.len() as int;
    let all = chain_lines(profile, target, tone, mult);
    let end = link_at(n) + n + 3;
    assert(all[0] == head(profile.name)[0]);
    assert(all[1] == head(profile.name)[1]);
    assert(all[2] == head(profile.name)[2]);
    assert(all[3] == head(profile.name)[3]);
    assert(all[4] == head(profile.name)[4]);
    assert(all[end] == tail_a()[0]);
    assert(all[end + 1] == tail_a()[1]);
    assert(all[end + 2] == tail_a()[2]);
    assert(all[end + 3] == tail_a()[3]);
    assert(all[end + 7] == tail_a()[7]);
    assert(all[end + 8] == tail_a()[8]);
    assert(all[end + 13] == tail_b(target)[2]);
    assert(all[end + 14] == tail_b(target)[3]);
    assert(all[end + 4] == tail_a()[4]);
    assert(all[end + 5] == tail_a()[5]);
    assert(all[end + 6] == tail_a()[6]);
    assert(all[end + 9] == tail_a()[9]);
    assert(all[end + 10] == tail_a()[10]);
    assert(all[end + 11] == tail_b(target)[0]);
    assert(all[end + 12] == tail_b(target)[1]);
}

/// A whole configuration file holds the arguments as they are.
pub proof fn law_config_holds_the_chain(args: Seq<char>)
    ensures
        exists|a: Seq<char>, b: Seq<char>| config_text(args) == #[trigger] (a + args + b),
{
    let a = "# Generated by ADtune. Changes are overwritten when a profile is applied.\ncontext.properties = {\n    application.name = \"ADtune Audio Calibration\"\n    remote.name = \"pipewire-0\"\n}\n\ncontext.spa-libs = {\n    audio.convert.* = audioconvert/libspa-audioconvert\n    support.* = support/libspa-support\n}\n\ncontext.modules = [\n    { name = libpipewire-module-rt flags = [ ifexists nofail ] }\n    { name = libpipewire-module-protocol-native }\n    { name = libpipewire-module-client-node }\n    { name = libpipewire-module-adapter }\n    {\n        name = libpipewire-module-filter-chain\n        args = "@;
    let b = "\n    }\n]\n"@;
    assert(config_text(args) == a + args + b);
}

} // verus!
