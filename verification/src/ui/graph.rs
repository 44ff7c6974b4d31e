//! The graph of a response: its paths, in the pixels of the plot, and its labels.
//!
//! Where a frequency or a gain lies in the plot is worked out beforehand; here the
//! positions become drawing commands.

use vstd::prelude::*;
use vstd::string::*;

use crate::decimal::{fixed, numeral, write_fixed, write_number};
use crate::double::{double, Double, SIGN};
use crate::profile::{pregain, profile_preamp_db, AudioProfile, FilterBand, ProfileView, ToneSettings, GAIN_MAX};
use crate::text::{push_text, texts};

verus! {

/// 12 dB, half of the usual height of the plot.
pub const DB_RANGE: u64 = 0x4028_0000_0000_0000;

/// The greatest size of the gain of any band.
pub open spec fn peak_gain(bands: Seq<FilterBand>) -> Double
    decreases bands.len(),
{
    if bands.len() == 0 {
        double(0)
    } else {
        peak_gain(bands.drop_last()).larger(bands.last().gain.absolute())
    }
}

/// The plot is drawn at its greater height: a band has a gain of more than 12 dB.
pub open spec fn wide(bands: Seq<FilterBand>) -> bool {
    double(DB_RANGE).less(peak_gain(bands))
}

/// Half of the height of the plot in dB: 12, or 24 where a band needs it.
pub fn db_range(profile: &AudioProfile) -> (r: Double)
    ensures
        r == if wide(profile@.bands) {
            double(GAIN_MAX)
        } else {
            double(DB_RANGE)
        },
{
    let mut peak: Double = Double { bits: 0 };
    let ghost all = profile@.bands;
    assert(peak == peak_gain(all.take(0)));
    for i in 0..profile.bands.len()
        invariant
            all == profile@.bands,
            peak == peak_gain(all.take(i as int)),
    {
        assert(all.take(i + 1).drop_last() =~= all.take(i as int));
        peak = peak.max(profile.bands[i].gain.abs());
    }
    assert(all.take(all.len() as int) =~= all);
    if (Double { bits: DB_RANGE }).lt(&peak) {
        Double { bits: GAIN_MAX }
    } else {
        Double { bits: DB_RANGE }
    }
}

/// Every band whose gain is within 24 dB fits into the plot at its own value.
pub proof fn law_plot_fits(bands: Seq<FilterBand>, i: int)
    requires
        0 <= i < bands.len(),
        bands[i].gain.absolute().at_most(double(GAIN_MAX)),
    ensures
        bands[i].gain.absolute().at_most(
            if wide(bands) {
                double(GAIN_MAX)
            } else {
                double(DB_RANGE)
            },
        ),
{
    lemma_peak(bands, i);
}

pub(crate) proof fn lemma_peak(bands: Seq<FilterBand>, i: int)
    requires
        0 <= i < bands.len(),
        !bands[i].gain.nan(),
    ensures
        bands[i].gain.absolute().at_most(peak_gain(bands)),
    decreases bands.len(),
{
    lemma_peak_number(bands.drop_last());
    if i < bands.len() - 1 {
        lemma_peak(bands.drop_last(), i);
    }
}

proof fn lemma_peak_number(bands: Seq<FilterBand>)
    ensures
        !peak_gain(bands).nan(),
    decreases bands.len(),
{
    if bands.len() > 0 {
        lemma_peak_number(bands.drop_last());
    }
}

/// How many points the curve has in a plot of the given width in pixels.
pub fn sample_count(width: usize) -> (r: usize)
    ensures
        r == if width / 3 < 120 {
            120
        } else if width / 3 > 600 {
            600
        } else {
            width / 3
        },
{
    let n: usize = width / 3;
    if n < 120 {
        120
    } else if n > 600 {
        600
    } else {
        n
    }
}

/// Where things lie in the plot, in pixels.
pub struct Geometry {
    pub width: Double,
    pub height: Double,
    /// The points of the curve, from left to right.
    pub points: Vec<(Double, Double)>,
    /// The height of the 0 dB line.
    pub zero: Double,
    /// The places of the frequency lines.
    pub ticks: Vec<Double>,
    /// The heights of the level lines, from the lowest level up, without 0 dB.
    pub levels: Vec<Double>,
}

/// The drawing commands and the texts of a graph.
#[derive(Debug)]
pub struct GraphData {
    /// The curve.
    pub curve: String,
    /// The curve, closed along the 0 dB line.
    pub fill: String,
    /// The lines of frequencies and levels.
    pub grid: String,
    /// The 0 dB line.
    pub zero: String,
    /// The labels of the frequency lines.
    pub x_labels: Vec<String>,
    /// The labels of the levels.
    pub y_labels: Vec<String>,
    /// The name of the profile.
    pub title: String,
    /// The profile in one line.
    pub caption: String,
}

/// A command that goes to a point.
pub open spec fn go(command: Seq<char>, x: Double, y: Double) -> Seq<char> {
    command + " "@ + fixed(x, 1, false) + " "@ + fixed(y, 1, false) + " "@
}

/// The first `n` points of a line that begins at the first of them.
pub open spec fn line_to(points: Seq<(Double, Double)>, n: nat) -> Seq<char>
    decreases n,
{
    if n == 0 {
        seq![]
    } else {
        line_to(points, (n - 1) as nat) + go(
            if n == 1 {
                "M"@
            } else {
                "L"@
            },
            points[n - 1].0,
            points[n - 1].1,
        )
    }
}

/// Lines on to the first `n` points.
pub open spec fn lines_on(points: Seq<(Double, Double)>, n: nat) -> Seq<char>
    decreases n,
{
    if n == 0 {
        seq![]
    } else {
        lines_on(points, (n - 1) as nat) + go("L"@, points[n - 1].0, points[n - 1].1)
    }
}

/// The area between the curve and the 0 dB line.
pub open spec fn area(points: Seq<(Double, Double)>, zero: Double) -> Seq<char> {
    go("M"@, points[0].0, zero) + lines_on(points, points.len()) + go("L"@, points.last().0, zero)
        + "Z"@
}

/// A line from top to bottom.
pub open spec fn upright(x: Double, height: Double) -> Seq<char> {
    "M "@ + fixed(x, 1, false) + " 0 L "@ + fixed(x, 1, false) + " "@ + fixed(height, 1, false)
        + " "@
}

/// A line from left to right.
pub open spec fn level(y: Double, width: Double) -> Seq<char> {
    "M 0 "@ + fixed(y, 1, false) + " L "@ + fixed(width, 1, false) + " "@ + fixed(y, 1, false)
}

/// The first `n` frequency lines.
pub open spec fn uprights(ticks: Seq<Double>, height: Double, n: nat) -> Seq<char>
    decreases n,
{
    if n == 0 {
        seq![]
    } else {
        uprights(ticks, height, (n - 1) as nat) + upright(ticks[n - 1], height)
    }
}

/// The first `n` level lines.
pub open spec fn levels(ys: Seq<Double>, width: Double, n: nat) -> Seq<char>
    decreases n,
{
    if n == 0 {
        seq![]
    } else {
        levels(ys, width, (n - 1) as nat) + (level(ys[n - 1], width) + " "@)
    }
}

/// A level with its sign.
pub open spec fn signed_level(db: int) -> Seq<char> {
    if db == 0 {
        "0 dB"@
    } else if db < 0 {
        "-"@ + numeral((-db) as nat)
    } else {
        "+"@ + numeral(db as nat)
    }
}

/// The levels that are labelled: every 6 dB.
pub open spec fn labelled(range: int) -> Seq<int> {
    Seq::new((range / 3 + 1) as nat, |i: int| 6 * i - range)
}

/// The labels of the levels.
pub open spec fn level_labels(range: int) -> Seq<Seq<char>> {
    Seq::new(labelled(range).len(), |i: int| signed_level(labelled(range)[i]))
}

/// The labels of the frequency lines.
pub open spec fn tick_labels() -> Seq<Seq<char>> {
    seq!["20"@, "50"@, "100"@, "200"@, "500"@, "1k"@, "2k"@, "5k"@, "10k"@, "20k"@]
}

/// Zero without a sign; any other number as it is.
pub open spec fn unsigned_zero(v: Double) -> Double {
    if v.magnitude() == 0 {
        double(0)
    } else {
        v
    }
}

/// The profile in one line: its name, who measured it, how many bands it has, and the
/// gain ahead of them.
pub open spec fn caption_of(profile: ProfileView, preamp: Double) -> Seq<char> {
    profile.name + (if profile.source.len() == 0 {
        seq![]
    } else {
        " · measured by "@ + profile.source
    }) + " — "@ + numeral(profile.bands.len()) + " correction bands · preamp "@ + fixed(
        unsigned_zero(preamp),
        1,
        true,
    ) + " dB"@
}

fn push_go(r: &mut String, command: &str, x: Double, y: Double)
    ensures
        final(r)@ == old(r)@ + go(command@, x, y),
{
    let ghost head = r@;
    r.append(command);
    r.append(" ");
    r.append(&write_fixed(x, 1, false));
    r.append(" ");
    r.append(&write_fixed(y, 1, false));
    r.append(" ");
    assert(r@ =~= head + go(command@, x, y));
}

fn push_level(r: &mut String, y: Double, width: Double)
    ensures
        final(r)@ == old(r)@ + level(y, width),
{
    let ghost head = r@;
    r.append("M 0 ");
    r.append(&write_fixed(y, 1, false));
    r.append(" L ");
    r.append(&write_fixed(width, 1, false));
    r.append(" ");
    r.append(&write_fixed(y, 1, false));
    assert(r@ =~= head + level(y, width));
}

/// The curve as drawing commands.
pub fn curve_path(points: &Vec<(Double, Double)>) -> (r: String)
    ensures
        r@ == line_to(points@, points@.len()),
{
    let mut r: String = String::new();
    assert(r@ =~= line_to(points@, 0));
    for i in 0..points.len()
        invariant
            r@ == line_to(points@, i as nat),
    {
        if i == 0 {
            push_go(&mut r, "M", points[i].0, points[i].1);
        } else {
            push_go(&mut r, "L", points[i].0, points[i].1);
        }
    }
    r
}

/// The area between the curve and the 0 dB line as drawing commands.
pub fn fill_path(points: &Vec<(Double, Double)>, zero: Double) -> (r: String)
    requires
        points@.len() > 0,
    ensures
        r@ == area(points@, zero),
{
    let mut r: String = String::new();
    push_go(&mut r, "M", points[0].0, zero);
    let ghost head = go("M"@, points@[0].0, zero);
    assert(r@ =~= head + lines_on(points@, 0));
    for i in 0..points.len()
        invariant
            r@ == head + lines_on(points@, i as nat),
    {
        push_go(&mut r, "L", points[i].0, points[i].1);
        assert(r@ =~= head + lines_on(points@, (i + 1) as nat));
    }
    push_go(&mut r, "L", points[points.len() - 1].0, zero);
    r.append("Z");
    assert(r@ =~= area(points@, zero));
    r
}

/// The lines of frequencies and levels as drawing commands.
pub fn grid_path(ticks: &Vec<Double>, ys: &Vec<Double>, width: Double, height: Double) -> (r: String)
    ensures
        r@ == uprights(ticks@, height, ticks@.len()) + levels(ys@, width, ys@.len()),
{
    let mut r: String = String::new();
    assert(r@ =~= uprights(ticks@, height, 0));
    for i in 0..ticks.len()
        invariant
            r@ == uprights(ticks@, height, i as nat),
    {
        let ghost head = r@;
        let x: String = write_fixed(ticks[i], 1, false);
        r.append("M ");
        r.append(&x);
        r.append(" 0 L ");
        r.append(&x);
        r.append(" ");
        r.append(&write_fixed(height, 1, false));
        r.append(" ");
        assert(r@ =~= head + upright(ticks@[i as int], height));
    }
    let ghost head = r@;
    assert(r@ =~= head + levels(ys@, width, 0));
    for i in 0..ys.len()
        invariant
            r@ == head + levels(ys@, width, i as nat),
    {
        push_level(&mut r, ys[i], width);
        r.append(" ");
        assert(r@ =~= head + levels(ys@, width, (i + 1) as nat));
    }
    r
}

/// The level of the `i`-th line of the grid, in dB: every 3 dB from bottom to top,
/// without 0 dB.
pub open spec fn grid_level(i: int, range: int) -> int {
    if i < range / 3 {
        3 * i - range
    } else {
        3 * (i + 1) - range
    }
}

/// The levels of the lines of the grid, in dB.
pub fn grid_levels(wide_plot: bool) -> (r: Vec<i32>)
    ensures
        r@.len() == if wide_plot {
            16nat
        } else {
            8nat
        },
        forall|i: int|
            0 <= i < r@.len() ==> #[trigger] r@[i] == grid_level(
                i,
                if wide_plot {
                    24
                } else {
                    12
                },
            ),
{
    let range: i32 = if wide_plot { 24 } else { 12 };
    let mut r: Vec<i32> = Vec::new();
    let mut db: i32 = -range;
    while db <= range
        invariant
            range == if wide_plot {
                24i32
            } else {
                12i32
            },
            -range <= db <= range + 3,
            db <= 0 ==> db == 3 * r@.len() - range,
            db > 0 ==> db == 3 * (r@.len() + 1) - range,
            forall|i: int| 0 <= i < r@.len() ==> #[trigger] r@[i] == grid_level(i, range as int),
        decreases range + 3 - db,
    {
        if db != 0 {
            r.push(db);
        }
        db = db + 3;
    }
    r
}

fn write_level(db: i32) -> (r: String)
    requires
        -1000 < db < 1000,
    ensures
        r@ == signed_level(db as int),
{
    if db == 0 {
        "0 dB".to_owned()
    } else if db < 0 {
        "-".to_owned().concat(&write_number((-db) as u64))
    } else {
        "+".to_owned().concat(&write_number(db as u64))
    }
}

fn write_level_labels(range: i32) -> (r: Vec<String>)
    requires
        range == 12 || range == 24,
    ensures
        texts(r@) == level_labels(range as int),
{
    let mut r: Vec<String> = Vec::new();
    let mut db: i32 = -range;
    let ghost all = level_labels(range as int);
    assert(texts(r@) =~= all.take(0));
    while db <= range
        invariant
            range == 12 || range == 24,
            all == level_labels(range as int),
            -range <= db <= range + 6,
            db == 6 * r@.len() - range,
            texts(r@) =~= all.take(r@.len() as int),
        decreases range + 6 - db,
    {
        let ghost n = r@.len();
        push_text(&mut r, write_level(db));
        assert(r@.len() == n + 1) by {
            assert(texts(r@).len() == n + 1);
        }
        db = db + 6;
    }
    assert(texts(r@) =~= all);
    r
}

fn write_tick_labels() -> (r: Vec<String>)
    ensures
        texts(r@) == tick_labels(),
{
    let mut r: Vec<String> = Vec::new();
    push_text(&mut r, "20".to_owned());
    push_text(&mut r, "50".to_owned());
    push_text(&mut r, "100".to_owned());
    push_text(&mut r, "200".to_owned());
    push_text(&mut r, "500".to_owned());
    push_text(&mut r, "1k".to_owned());
    push_text(&mut r, "2k".to_owned());
    push_text(&mut r, "5k".to_owned());
    push_text(&mut r, "10k".to_owned());
    push_text(&mut r, "20k".to_owned());
    assert(texts(r@) =~= tick_labels());
    r
}

fn write_caption(profile: &AudioProfile, preamp: Double) -> (r: String)
    ensures
        r@ == caption_of(profile@, preamp),
{
    let mut r: String = profile.name.clone();
    let ghost name = r@;
    if !profile.source.as_str().is_empty() {
        r.append(" · measured by ");
        r.append(&profile.source);
        assert(r@ =~= name + (" · measured by "@ + profile@.source));
    } else {
        assert(r@ =~= name + seq![]);
    }
    r.append(" — ");
    r.append(&write_number(profile.bands.len() as u64));
    r.append(" correction bands · preamp ");
    let shown: Double = if preamp.bits % SIGN == 0 {
        Double { bits: 0 }
    } else {
        preamp
    };
    r.append(&write_fixed(shown, 1, true));
    r.append(" dB");
    r
}

/// The graph of a profile with its tone layer. `geometry` says where things lie in the
/// plot, for the range of [`db_range`] and the levels of [`grid_levels`]; `peak` is the
/// highest boost of the response.
pub fn build_graph(
    profile: &AudioProfile,
    tone: &ToneSettings,
    geometry: &Geometry,
    peak: Double,
) -> (r: GraphData)
    requires
        geometry.points@.len() > 0,
    ensures
        r.curve@ == line_to(geometry.points@, geometry.points@.len()),
        r.fill@ == area(geometry.points@, geometry.zero),
        r.grid@ == uprights(geometry.ticks@, geometry.height, geometry.ticks@.len()) + levels(
            geometry.levels@,
            geometry.width,
            geometry.levels@.len(),
        ),
        r.zero@ == level(geometry.zero, geometry.width),
        texts(r.x_labels@) == tick_labels(),
        texts(r.y_labels@) == level_labels(
            if wide(profile@.bands) {
                24
            } else {
                12
            },
        ),
        r.title@ == profile@.name,
        r.caption@ == caption_of(profile@, pregain(profile@.preamp, tone.headroom, peak)),
{
    let range: Double = db_range(profile);
    let whole: i32 = if range.bits == GAIN_MAX { 24 } else { 12 };
    let mut zero: String = String::new();
    push_level(&mut zero, geometry.zero, geometry.width);
    assert(zero@ =~= level(geometry.zero, geometry.width));
    GraphData {
        curve: curve_path(&geometry.points),
        fill: fill_path(&geometry.points, geometry.zero),
        grid: grid_path(&geometry.ticks, &geometry.levels, geometry.width, geometry.height),
        zero,
        x_labels: write_tick_labels(),
        y_labels: write_level_labels(whole),
        title: profile.name.clone(),
        caption: write_caption(profile, profile_preamp_db(profile, tone, peak)),
    }
}

} // verus!
