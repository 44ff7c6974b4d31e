//! The window: its list and its graph.

use vstd::prelude::*;

use crate::decimal::{all_digits, digit, digits_value, fixed, numeral};
use crate::cli::{command_of, CommandView};
use crate::double::{double, lemma_order, whole, Double};
use crate::profile::{lemma_bounds, BandType, ProfileView, THOUSAND};
use crate::store::FileFormat;
use crate::text::{alike, holds, lemma_position, lowercase, trim};
use crate::ui::editor::{hz_text, selected_band, title_of, EditorView, SavedView};
use crate::ui::files::{export_of, flag_index, flag_value, offered_name, picture_bytes, picture_size};
use crate::ui::graph::{area, caption_of, grid_level, level_labels, line_to, lines_on, uprights};
use crate::ui::results::{catalog_rows, saved_row, saved_rows, shows, RowView};
use crate::ui::session::handle;
use crate::ui::status::status_line;

verus! {

proof fn lemma_saved_rows(
    library: Seq<SavedView>,
    names: Seq<Seq<char>>,
    query: Seq<char>,
    v: EditorView,
    i: int,
)
    requires
        0 <= i < library.len(),
        query.len() == 0 || holds(names[i], query),
    ensures
        saved_rows(library, names, query, v).contains(saved_row(library[i], v)),
    decreases library.len(),
{
    let before = library.drop_last();
    let rows = saved_rows(library, names, query, v);
    if i < library.len() - 1 {
        lemma_saved_rows(before, names, query, v, i);
        let inner = saved_rows(before, names, query, v);
        let k = choose|k: int| 0 <= k < inner.len() && inner[k] == saved_row(before[i], v);
        assert(rows[k] == inner[k]);
    } else {
        assert(rows.last() == saved_row(library[i], v));
    }
}

proof fn lemma_rows_are_saved(
    library: Seq<SavedView>,
    names: Seq<Seq<char>>,
    query: Seq<char>,
    v: EditorView,
    k: int,
) -> (i: int)
    requires
        0 <= k < saved_rows(library, names, query, v).len(),
    ensures
        0 <= i < library.len(),
        saved_rows(library, names, query, v)[k] == saved_row(library[i], v),
        query.len() == 0 || holds(names[i], query),
    decreases library.len(),
{
    let before = library.drop_last();
    let inner = saved_rows(before, names, query, v);
    if k < inner.len() {
        lemma_rows_are_saved(before, names, query, v, k)
    } else {
        library.len() - 1
    }
}

/// The list shows every profile of the library whose name holds the query, without regard to
/// case, and every one of them without a query.
pub proof fn law_list_shows_the_library(
    v: EditorView,
    query: Seq<char>,
    hits: Seq<ProfileView>,
    rows: Seq<RowView>,
    count: Seq<char>,
    i: int,
)
    requires
        shows(v, query, hits, rows, count),
        0 <= i < v.library.len(),
        lowercase(query).len() == 0 || holds(lowercase(v.library[i].profile.name), lowercase(query)),
    ensures
        exists|k: int|
            0 <= k < rows.len() && (#[trigger] rows[k]).key == "lib:"@ + v.library[i].shown && rows[k].name
                == v.library[i].profile.name && rows[k].deletable && (rows[k].selected
                <==> v.loaded_path == Some(v.library[i].path)),
{
    let names = crate::ui::results::lower_saved(v.library);
    lemma_saved_rows(v.library, names, lowercase(query), v, i);
    let first = saved_rows(v.library, names, lowercase(query), v);
    let k = choose|k: int| 0 <= k < first.len() && first[k] == saved_row(v.library[i], v);
    assert(rows[k] == first[k]);
}

/// Behind the library the list shows what was found in the catalog, all of it and in the same
/// order; a profile of the catalog is marked where it is the one on the graph and was not loaded
/// from a file.
pub proof fn law_list_shows_the_hits(
    v: EditorView,
    query: Seq<char>,
    hits: Seq<ProfileView>,
    rows: Seq<RowView>,
    count: Seq<char>,
    j: int,
)
    requires
        shows(v, query, hits, rows, count),
        0 <= j < hits.len(),
    ensures
        ({
            let k = rows.len() - hits.len() + j;
            &&& rows.len() >= hits.len()
            &&& rows[k].key == hits[j].key
            &&& rows[k].name == hits[j].name
            &&& rows[k].sub == hits[j].form + " · "@ + hits[j].source
            &&& !rows[k].deletable
            &&& rows[k].selected <==> v.loaded_path is None && hits[j].key == v.current.key
        }),
{
    let names = crate::ui::results::lower_saved(v.library);
    let first = saved_rows(v.library, names, lowercase(query), v);
    assert(rows == first + catalog_rows(hits, v));
    assert(rows[first.len() + j] == catalog_rows(hits, v)[j]);
}

/// There is nothing else in the list.
pub proof fn law_list_shows_nothing_else(
    v: EditorView,
    query: Seq<char>,
    hits: Seq<ProfileView>,
    rows: Seq<RowView>,
    count: Seq<char>,
    k: int,
)
    requires
        shows(v, query, hits, rows, count),
        0 <= k < rows.len() - hits.len(),
    ensures
        exists|i: int|
            0 <= i < v.library.len() && rows[k].key == "lib:"@ + (#[trigger] v.library[i]).shown && (
            lowercase(query).len() == 0 || holds(
                lowercase(v.library[i].profile.name),
                lowercase(query),
            )),
{
    let names = crate::ui::results::lower_saved(v.library);
    let first = saved_rows(v.library, names, lowercase(query), v);
    assert(rows[k] == first[k]);
    let i = lemma_rows_are_saved(v.library, names, lowercase(query), v, k);
    assert(rows[k].key == "lib:"@ + v.library[i].shown);
}

/// The curve begins at its first point and goes on through every other, in order.
pub proof fn law_curve_goes_through_every_point(points: Seq<(Double, Double)>, n: nat)
    requires
        0 < n < points.len(),
    ensures
        line_to(points, 1) == "M"@ + " "@ + fixed(points[0].0, 1, false) + " "@ + fixed(
            points[0].1,
            1,
            false,
        ) + " "@,
        line_to(points, n + 1) == line_to(points, n) + ("L"@ + " "@ + fixed(points[n as int].0, 1, false)
            + " "@ + fixed(points[n as int].1, 1, false) + " "@),
{
    assert(line_to(points, 0) =~= Seq::<char>::empty());
    let first = "M"@ + " "@ + fixed(points[0].0, 1, false) + " "@ + fixed(points[0].1, 1, false) + " "@;
    assert(line_to(points, 1) == line_to(points, 0) + first);
    assert(Seq::<char>::empty() + first =~= first);
}

/// The levels are labelled from the lowest to the highest, every 6 dB, with their signs.
pub proof fn law_level_labels(range: int, i: int)
    requires
        range == 12 || range == 24,
        0 <= i <= range / 3,
    ensures
        level_labels(range).len() == range / 3 + 1,
        6 * i < range ==> level_labels(range)[i] == "-"@ + numeral((range - 6 * i) as nat),
        6 * i == range ==> level_labels(range)[i] == "0 dB"@,
        6 * i > range ==> level_labels(range)[i] == "+"@ + numeral((6 * i - range) as nat),
{
}

proof fn lemma_picture_len(pixels: Seq<u16>, n: nat)
    requires
        n <= pixels.len(),
    ensures
        picture_bytes(pixels, n).len() == 4 * n,
    decreases n,
{
    if n > 0 {
        lemma_picture_len(pixels, (n - 1) as nat);
    }
}

/// A picture has four bytes for each pixel, at its place; black is black and white is white, and
/// nothing is transparent.
pub proof fn law_pictures(pixels: Seq<u16>, n: nat, i: int)
    requires
        n <= pixels.len(),
        0 <= i < n,
    ensures
        ({
            let p = picture_bytes(pixels, n);
            &&& p.len() == 4 * n
            &&& p[4 * i + 3] == 255
            &&& pixels[i] == 0 ==> p[4 * i] == 0 && p[4 * i + 1] == 0 && p[4 * i + 2] == 0
            &&& pixels[i] == 0xffff ==> p[4 * i] == 255 && p[4 * i + 1] == 255 && p[4 * i + 2] == 255
            &&& p[4 * i] / 8 == pixels[i] / 2048
            &&& p[4 * i + 1] / 4 == pixels[i] / 32 % 64
            &&& p[4 * i + 2] / 8 == pixels[i] % 32
        }),
    decreases n,
{
    lemma_picture_len(pixels, n);
    lemma_picture_len(pixels, (n - 1) as nat);
    if i < n - 1 {
        law_pictures(pixels, (n - 1) as nat, i);
    }
}

/// A text file is written as text, and everything else natively; a file gets the native extension
/// where it has neither that nor one of the two others.
pub proof fn law_export_formats(ext: Seq<char>)
    ensures
        alike(ext, "txt"@) ==> export_of(Some(ext)).format == FileFormat::ParametricEq && !export_of(
            Some(ext),
        ).replace_extension,
        !alike(ext, "txt"@) ==> export_of(Some(ext)).format == FileFormat::Native,
        (alike(ext, "json"@) || alike(ext, "adtuneprofile"@)) && !alike(ext, "txt"@) ==> !export_of(
            Some(ext),
        ).replace_extension,
        !alike(ext, "txt"@) && !alike(ext, "json"@) && !alike(ext, "adtuneprofile"@) ==> export_of(
            Some(ext),
        ).replace_extension,
{
}

/// A handle stands at the frequency of its band, and at its gain where that fits into the plot.
pub proof fn law_handles(v: EditorView, i: int)
    requires
        0 <= i < v.current.bands.len(),
        v.current.bands[i].gain.finite(),
        whole(-12) <= v.current.bands[i].gain.value() <= whole(12),
    ensures
        handle(v, i).1 == v.current.bands[i].frequency,
        handle(v, i).2 == v.current.bands[i].gain,
        v.current.bands[i].kind == BandType::Peaking ==> handle(v, i).0 == 0,
        v.current.bands[i].kind == BandType::LowShelf ==> handle(v, i).0 == 1,
        v.current.bands[i].kind == BandType::HighShelf ==> handle(v, i).0 == 2,
{
    let g = v.current.bands[i].gain;
    crate::laws::edit::lemma_in_every_plot(g);
}

/// Frequencies are shown in whole Hz below 1 kHz, and in kHz with one place from there on.
pub proof fn law_shown_frequencies(f: Double)
    requires
        f.finite(),
    ensures
        f.value() < whole(1000) ==> hz_text(f) == fixed(f, 0, false) + " Hz"@,
        f.value() >= whole(1000) ==> hz_text(f) == fixed(f.quotient(1000), 1, false) + " kHz"@,
{
    lemma_bounds();
    lemma_order(double(THOUSAND), f);
}

/// The band that is selected is the one that is described.
pub proof fn law_selected_band(v: EditorView)
    ensures
        0 <= v.selected < v.current.bands.len() ==> selected_band(v) == Some(
            v.current.bands[v.selected],
        ),
        v.selected < 0 || v.selected >= v.current.bands.len() ==> selected_band(v) is None,
{
}

/// The area below the curve begins and ends at the 0 dB line, and has every point of the curve.
pub proof fn law_area(points: Seq<(Double, Double)>, zero: Double, n: nat)
    requires
        n < points.len(),
    ensures
        area(points, zero) == ("M"@ + " "@ + fixed(points[0].0, 1, false) + " "@ + fixed(
            zero,
            1,
            false,
        ) + " "@) + lines_on(points, points.len()) + ("L"@ + " "@ + fixed(
            points[points.len() - 1].0,
            1,
            false,
        ) + " "@ + fixed(zero, 1, false) + " "@) + "Z"@,
        lines_on(points, n + 1) == lines_on(points, n) + ("L"@ + " "@ + fixed(
            points[n as int].0,
            1,
            false,
        ) + " "@ + fixed(points[n as int].1, 1, false) + " "@),
{
}

/// The lines of the grid lie at every level that is a multiple of 3 dB within the plot, but for
/// 0 dB, which has a line of its own.
pub proof fn law_grid_levels(i: int, j: int, range: int)
    requires
        range == 12 || range == 24,
        0 <= i < j < 2 * range / 3,
    ensures
        grid_level(i, range) < grid_level(j, range),
        grid_level(i, range) % 3 == 0,
        grid_level(i, range) != 0,
        grid_level(j, range) != 0,
        -range <= grid_level(i, range) <= range,
        -range <= grid_level(j, range) <= range,
{
}

/// The commands of the command line: what follows the first word is what it is about.
pub proof fn law_commands(a: Seq<char>, rest: Seq<Seq<char>>)
    ensures
        command_of(seq!["count"@] + rest) == Ok::<CommandView, Seq<char>>(CommandView::Count),
        command_of(seq!["catalog"@, a] + rest) == Ok::<CommandView, Seq<char>>(CommandView::Search(a)),
        command_of(seq!["response"@, a] + rest) == Ok::<CommandView, Seq<char>>(
            CommandView::Response(a),
        ),
        command_of(seq!["import"@, a] + rest) == Ok::<CommandView, Seq<char>>(CommandView::Import(a)),
        command_of(seq!["response"@]) is Err,
        command_of(seq!["import"@]) is Err,
        command_of(Seq::<Seq<char>>::empty()) is Err,
        a != "count"@ && a != "catalog"@ && a != "response"@ && a != "import"@ ==> command_of(
            seq![a] + rest,
        ) is Err,
{
    reveal_strlit("count");
    reveal_strlit("catalog");
    reveal_strlit("response");
    reveal_strlit("import");
    assert("catalog"@.len() != "count"@.len());
    assert("import"@.len() != "count"@.len() && "import"@.len() != "catalog"@.len() && "import"@.len()
        != "response"@.len());
    assert("response"@.len() != "count"@.len() && "response"@.len() != "catalog"@.len());
    assert((seq!["count"@] + rest)[0] == "count"@);
    assert((seq!["catalog"@, a] + rest)[0] == "catalog"@);
    assert((seq!["catalog"@, a] + rest)[1] == a);
    assert((seq!["response"@, a] + rest)[0] == "response"@);
    assert((seq!["response"@, a] + rest)[1] == a);
    assert((seq!["import"@, a] + rest)[0] == "import"@);
    assert((seq!["import"@, a] + rest)[1] == a);
    assert((seq![a] + rest)[0] == a);
}

proof fn lemma_flag(before: Seq<Seq<char>>, flag: Seq<char>, rest: Seq<Seq<char>>)
    requires
        forall|i: int| 0 <= i < before.len() ==> #[trigger] before[i] != flag,
    ensures
        flag_index(before + seq![flag] + rest, flag) == before.len(),
    decreases before.len(),
{
    let all = before + seq![flag] + rest;
    if before.len() == 0 {
        assert(all[0] == flag);
    } else {
        assert(all[0] == before[0]);
        let t = before.drop_first();
        assert(all.drop_first() =~= t + seq![flag] + rest);
        assert forall|i: int| 0 <= i < t.len() implies #[trigger] t[i] != flag by {
            assert(before[i + 1] != flag);
        }
        lemma_flag(t, flag, rest);
    }
}

/// An option of the helper is about the argument right behind its first occurrence, unless that
/// is another option.
pub proof fn law_option_values(
    before: Seq<Seq<char>>,
    flag: Seq<char>,
    value: Seq<char>,
    rest: Seq<Seq<char>>,
)
    requires
        forall|i: int| 0 <= i < before.len() ==> #[trigger] before[i] != flag,
    ensures
        !(value.len() >= 2 && value[0] == '-' && value[1] == '-') ==> flag_value(
            before + seq![flag] + (seq![value] + rest),
            flag,
        ) == Some(value),
        value.len() >= 2 && value[0] == '-' && value[1] == '-' ==> flag_value(
            before + seq![flag] + (seq![value] + rest),
            flag,
        ) is None,
        flag_value(before + seq![flag], flag) is None,
{
    reveal_strlit("--");
    lemma_flag(before, flag, seq![value] + rest);
    let all = before + seq![flag] + (seq![value] + rest);
    assert(all[before.len() as int + 1] == value);
    if value.len() >= 2 {
        assert(value.subrange(0, 2)[0] == value[0] && value.subrange(0, 2)[1] == value[1]);
        if value[0] == '-' && value[1] == '-' {
            assert(value.subrange(0, 2) =~= "--"@);
        }
    }
    lemma_flag(before, flag, Seq::<Seq<char>>::empty());
    assert(before + seq![flag] + Seq::<Seq<char>>::empty() =~= before + seq![flag]);
}

/// The title of the window names the profile, unless there is none to name.
pub proof fn law_titles(p: ProfileView)
    ensures
        p.key != "flat"@ && p.name.len() > 0 ==> title_of(p) == "ADtune - "@ + p.name,
        p.key == "flat"@ || p.name.len() == 0 ==> title_of(p) == "ADtune"@,
{
}

/// What went wrong is shown with a sign before it; where nothing did, the message is.
pub proof fn law_status_line(error: Seq<char>, message: Seq<char>)
    ensures
        status_line(Some(error), message) == "⚠ "@ + error,
        status_line(None, message) == message,
{
}

/// The grid has a line from top to bottom at every frequency that is labelled, in order.
pub proof fn law_uprights(ticks: Seq<Double>, height: Double, n: nat)
    requires
        n < ticks.len(),
    ensures
        uprights(ticks, height, 0) == Seq::<char>::empty(),
        uprights(ticks, height, n + 1) == uprights(ticks, height, n) + ("M "@ + fixed(
            ticks[n as int],
            1,
            false,
        ) + " 0 L "@ + fixed(ticks[n as int], 1, false) + " "@ + fixed(height, 1, false) + " "@),
{
    assert(uprights(ticks, height, 0) =~= Seq::<char>::empty());
}

/// An export is offered under the key of the profile, with dashes for colons, or under its name
/// where it has no key; always with the native extension.
pub proof fn law_offered_names(p: ProfileView)
    requires
        trim(p.key).len() > 0,
        forall|k: int| 0 <= k < p.key.len() ==> #[trigger] p.key[k] != ':',
    ensures
        offered_name(p) == p.key + "."@ + "adtuneprofile"@,
        trim(p.name).len() > 0 ==> offered_name(ProfileView { key: Seq::<char>::empty(), ..p })
            == p.name + "."@ + "adtuneprofile"@,
{
    assert(crate::ui::files::dashed(p.key) =~= p.key);
    let e = Seq::<char>::empty();
    assert(e + e + e =~= e);
    crate::laws::text::law_trim(e, e, e);
}

/// The caption names the profile, who measured it, how many bands it has, and the gain ahead of
/// them.
pub proof fn law_captions(p: ProfileView, preamp: Double)
    requires
        preamp.magnitude() != 0,
    ensures
        p.source.len() > 0 ==> caption_of(p, preamp) == p.name + (" · measured by "@ + p.source)
            + " — "@ + numeral(p.bands.len()) + " correction bands · preamp "@ + fixed(preamp, 1, true)
            + " dB"@,
{
}

/// The size of a picture is given by two whole numbers with an `x` between them; anything else
/// gives the usual one.
pub proof fn law_picture_sizes(w: Seq<char>, h: Seq<char>)
    requires
        w.len() > 0,
        h.len() > 0,
        all_digits(w),
        all_digits(h),
        digits_value(w) <= u32::MAX,
        digits_value(h) <= u32::MAX,
    ensures
        picture_size(Some(w + seq!['x'] + h)) == (digits_value(w) as u32, digits_value(h) as u32),
        picture_size(None) == (980u32, 660u32),
        picture_size(Some(w)) == (980u32, 660u32),
{
    let s = w + seq!['x'] + h;
    let n: int = w.len() as int;
    assert forall|i: int| 0 <= i < n implies !seq!['x'].contains(s[i]) by {
        assert(s[i] == w[i]);
        assert(digit(w[i]));
    }
    assert(seq!['x'][0] == 'x');
    assert(seq!['x'].contains(s[n]));
    lemma_position(s, seq!['x'], n);
    assert(s.take(n) =~= w);
    assert(s.skip(n + 1) =~= h);
    let e = Seq::<char>::empty();
    assert(e + w + e =~= w);
    assert(e + h + e =~= h);
    assert(digit(w[0]) && digit(w[w.len() - 1]) && digit(h[0]) && digit(h[h.len() - 1]));
    crate::laws::text::law_trim(e, w, e);
    crate::laws::text::law_trim(e, h, e);
    assert forall|i: int| 0 <= i < n implies !seq!['x'].contains(w[i]) by {
        assert(digit(w[i]));
    }
    lemma_position(w, seq!['x'], n);
}

} // verus!
