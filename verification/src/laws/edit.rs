//! Editing a curve: what each change, and each way to end a session, makes of the state.

use vstd::prelude::*;
use vstd::arithmetic::power2::{lemma2_to64, lemma2_to64_rest, lemma_pow2_adds, pow2};

use crate::double::{double, lemma_order, units, whole, Double, EXPONENT, INFINITY};
use crate::profile::{
    lemma_bounds, BandType, FilterBand, ProfileView, GAIN_MAX, Q_MIN, TWENTY, TWENTY_THOUSAND,
};
use crate::rounding::nearest;
use crate::ui::editor::{
    begins, chosen, deleted, edited, imported, kept, reset, saved_index, toggled, Edit,
    EditorView, SavedView,
};
use crate::ui::graph::DB_RANGE;

verus! {

proof fn lemma_twelve()
    ensures
        double(DB_RANGE).value() == whole(12),
{
    lemma2_to64();
    lemma2_to64_rest();
    assert(DB_RANGE as int / EXPONENT as int == 1026);
    assert(DB_RANGE as int % EXPONENT as int == 0x8_0000_0000_0000);
    assert(units(DB_RANGE as int) == 0x18_0000_0000_0000 * pow2(1025));
    lemma_pow2_adds(1025, 49);
    assert(pow2(49) == 0x2_0000_0000_0000);
    let q = pow2(1025);
    assert(0x18_0000_0000_0000 * q == 12 * (q * 0x2_0000_0000_0000)) by (nonlinear_arith);
}

/// All bands but those at `k` are the same.
pub open spec fn same_but(a: Seq<FilterBand>, b: Seq<FilterBand>, k: int) -> bool {
    a.len() == b.len() && forall|i: int| 0 <= i < a.len() && i != k ==> #[trigger] a[i] == b[i]
}

/// Removing takes away the band that is selected and no other: those before it keep their
/// places, those behind it move up by one, and none is selected any longer.
pub proof fn law_remove_takes_the_selected(v: EditorView, i: int)
    requires
        0 <= v.selected < v.current.bands.len(),
        0 <= i < v.current.bands.len(),
        i != v.selected,
    ensures
        ({
            let after = edited(v, Edit::Remove);
            &&& after.current.bands.len() == v.current.bands.len() - 1
            &&& i < v.selected ==> after.current.bands[i] == v.current.bands[i]
            &&& i > v.selected ==> after.current.bands[i - 1] == v.current.bands[i]
            &&& after.selected == -1
        }),
{
}

/// Removing the only band leaves none.
pub proof fn law_remove_the_only_band(v: EditorView)
    requires
        v.selected == 0,
        v.current.bands.len() == 1,
    ensures
        edited(v, Edit::Remove).current.bands.len() == 0,
{
}

/// Where no band is selected, removing leaves all of them.
pub proof fn law_remove_without_selection(v: EditorView)
    requires
        v.selected < 0 || v.selected >= v.current.bands.len(),
    ensures
        edited(v, Edit::Remove).current.bands == v.current.bands,
{
}

/// A band that is dragged to a place in the plot gets that frequency and that gain, keeps its
/// type and its quality factor, and is selected; the others stay as they are.
pub proof fn law_drag_moves_one_band(v: EditorView, index: i32, frequency: Double, gain: Double)
    requires
        0 <= index < v.current.bands.len(),
        frequency.finite(),
        gain.finite(),
        whole(20) <= frequency.value() <= whole(20000),
        whole(-12) <= gain.value() <= whole(12),
    ensures
        ({
            let after = edited(v, Edit::Drag { index, frequency, gain });
            let k = index as int;
            &&& same_but(v.current.bands, after.current.bands, k)
            &&& after.current.bands[k].frequency == frequency
            &&& after.current.bands[k].gain == gain
            &&& after.current.bands[k].kind == v.current.bands[k].kind
            &&& after.current.bands[k].q == v.current.bands[k].q
            &&& after.selected == k
        }),
{
    lemma_plot(v, frequency, gain);
}

/// The plot reaches from 20 Hz to 20 kHz, and at least from -12 dB to 12 dB.
proof fn lemma_plot(v: EditorView, frequency: Double, gain: Double)
    requires
        frequency.finite(),
        gain.finite(),
        whole(20) <= frequency.value() <= whole(20000),
        whole(-12) <= gain.value() <= whole(12),
    ensures
        frequency.clamped(double(TWENTY), double(TWENTY_THOUSAND)) == frequency,
        gain.clamped(double(GAIN_MAX).negated(), double(GAIN_MAX)) == gain,
        gain.clamped(double(DB_RANGE).negated(), double(DB_RANGE))
            == gain,
{
    lemma_bounds();
    lemma_twelve();
    lemma_order(frequency, double(TWENTY));
    lemma_order(double(TWENTY_THOUSAND), frequency);
    let a = double(GAIN_MAX).negated();
    let b = double(DB_RANGE).negated();
    assert(a.magnitude() == GAIN_MAX);
    assert(b.magnitude() == DB_RANGE);
    assert(whole(-12) == -whole(12)) by (nonlinear_arith);
    assert(whole(12) < whole(24)) by {
        vstd::arithmetic::power2::lemma_pow2_pos(1074);
    }
    lemma_order(gain, a);
    lemma_order(gain, b);
    lemma_order(double(GAIN_MAX), gain);
    lemma_order(double(DB_RANGE), gain);
}

/// Dragging beyond the plot stops at its edge: at 20 Hz, at 20 kHz, and no further than 24 dB.
pub proof fn law_drag_stops_at_the_edge(v: EditorView, index: i32, frequency: Double, gain: Double)
    requires
        0 <= index < v.current.bands.len(),
        frequency.finite(),
        gain.finite(),
    ensures
        ({
            let b = edited(v, Edit::Drag { index, frequency, gain }).current.bands[index as int];
            &&& frequency.value() < whole(20) ==> b.frequency.value() == whole(20)
            &&& frequency.value() > whole(20000) ==> b.frequency.value() == whole(20000)
            &&& whole(-24) <= b.gain.value() <= whole(24)
            &&& gain.value() > whole(24) ==> b.gain.value() >= whole(12)
            &&& gain.value() < whole(-24) ==> b.gain.value() <= whole(-12)
        }),
{
    lemma_bounds();
    lemma_twelve();
    let e = crate::ui::editor::editable(v);
    let r = crate::ui::editor::half_range(e);
    let low = r.negated();
    assert(low.magnitude() == r.magnitude());
    assert(whole(-12) == -whole(12) && whole(-24) == -whole(24)) by (nonlinear_arith);
    assert(0 < whole(12) < whole(24)) by {
        vstd::arithmetic::power2::lemma_pow2_pos(1074);
    }
    assert(r.value() == whole(12) || r.value() == whole(24));
    assert(low.value() == -r.value());
    lemma_order(frequency, double(TWENTY));
    lemma_order(double(TWENTY_THOUSAND), frequency);
    assert(whole(20) < whole(20000)) by {
        vstd::arithmetic::power2::lemma_pow2_pos(1074);
    }
    lemma_order(gain, low);
    lemma_order(r, gain);
}

/// Dragging nothing leaves the bands as they are.
pub proof fn law_drag_of_no_band(v: EditorView, index: i32, frequency: Double, gain: Double)
    requires
        index < 0 || index >= v.current.bands.len(),
    ensures
        edited(v, Edit::Drag { index, frequency, gain }).current.bands == v.current.bands,
{
}

/// A band that is added comes behind the others, which stay as they are: a peaking band with
/// the frequency and the gain of its place and a quality factor of 1, and it is selected.
pub proof fn law_add_appends_a_peak(v: EditorView, frequency: Double, gain: Double, i: int)
    requires
        frequency.finite(),
        gain.finite(),
        whole(20) <= frequency.value() <= whole(20000),
        whole(-12) <= gain.value() <= whole(12),
        0 <= i < v.current.bands.len(),
    ensures
        ({
            let after = edited(v, Edit::Add { frequency, gain });
            let n = v.current.bands.len() as int;
            &&& after.current.bands[i] == v.current.bands[i]
            &&& after.current.bands.len() == n + 1
            &&& after.selected == n
        }),
{
}

/// The band that is added.
pub proof fn law_added_band(v: EditorView, frequency: Double, gain: Double)
    requires
        frequency.finite(),
        gain.finite(),
        whole(20) <= frequency.value() <= whole(20000),
        whole(-12) <= gain.value() <= whole(12),
    ensures
        ({
            let after = edited(v, Edit::Add { frequency, gain });
            let b = after.current.bands.last();
            &&& after.current.bands.len() == v.current.bands.len() + 1
            &&& b.kind == BandType::Peaking
            &&& b.frequency == frequency
            &&& b.gain == gain
            &&& b.q.value() == whole(1)
        }),
{
    lemma_plot(v, frequency, gain);
    lemma_bounds();
    lemma_twelve();
    assert(whole(-24) == -whole(24) && whole(-12) == -whole(12)) by (nonlinear_arith);
    assert(whole(12) < whole(24)) by {
        vstd::arithmetic::power2::lemma_pow2_pos(1074);
    }
    lemma_order(gain, double(crate::profile::GAIN_MIN));
    lemma_order(double(GAIN_MAX), gain);
    lemma_order(frequency, double(TWENTY));
    lemma_order(double(TWENTY_THOUSAND), frequency);
}

/// What is added can be taken away again: the bands are as before.
pub proof fn law_remove_undoes_add(v: EditorView, frequency: Double, gain: Double)
    ensures
        edited(edited(v, Edit::Add { frequency, gain }), Edit::Remove).current.bands
            == v.current.bands,
{
    let added = edited(v, Edit::Add { frequency, gain });
    let n = v.current.bands.len() as int;
    assert(added.current.bands.remove(n) =~= v.current.bands);
}

/// Choosing a type changes the type of the selected band and nothing else: 0 is peaking, 1 a
/// low shelf, 2 a high shelf.
pub proof fn law_type_changes_the_type_alone(v: EditorView, kind: i32)
    requires
        0 <= v.selected < v.current.bands.len(),
    ensures
        ({
            let after = edited(v, Edit::Type { kind });
            let k = v.selected;
            let b = after.current.bands[k];
            &&& same_but(v.current.bands, after.current.bands, k)
            &&& kind == 0 ==> b.kind == BandType::Peaking
            &&& kind == 1 ==> b.kind == BandType::LowShelf
            &&& kind == 2 ==> b.kind == BandType::HighShelf
            &&& b.frequency == v.current.bands[k].frequency
            &&& b.gain == v.current.bands[k].gain
            &&& b.q == v.current.bands[k].q
            &&& after.selected == k
        }),
{
}

/// Without a selection choosing a type leaves the bands as they are.
pub proof fn law_type_without_selection(v: EditorView, kind: i32)
    requires
        v.selected < 0 || v.selected >= v.current.bands.len(),
    ensures
        edited(v, Edit::Type { kind }).current.bands == v.current.bands,
{
}

/// Scrolling on a band changes its quality factor and nothing else, and selects it. The new
/// one is nearest to the product of the old one and the factor, where that is in range, and
/// else the nearer end of the range, which reaches up to 20.
pub proof fn law_scroll_changes_the_width_alone(v: EditorView, index: i32, factor: Double)
    requires
        0 <= index < v.current.bands.len(),
        v.current.bands[index as int].q.finite(),
        !v.current.bands[index as int].q.negative(),
        factor.finite(),
        !factor.negative(),
    ensures
        ({
            let after = edited(v, Edit::Scroll { index, factor });
            let k = index as int;
            let b = after.current.bands[k];
            let old_q = v.current.bands[k].q;
            &&& same_but(v.current.bands, after.current.bands, k)
            &&& b.kind == v.current.bands[k].kind
            &&& b.frequency == v.current.bands[k].frequency
            &&& b.gain == v.current.bands[k].gain
            &&& after.selected == k
            &&& exists|m: u64|
                {
                    &&& #[trigger] nearest(
                        (units(old_q.magnitude() as int) * units(factor.magnitude() as int)) as nat,
                        pow2(1074),
                        m,
                    )
                    &&& m < Q_MIN ==> b.q == double(Q_MIN)
                    &&& Q_MIN <= m <= TWENTY ==> b.q == double(m)
                    &&& m > TWENTY ==> b.q.value() == whole(20)
                }
        }),
{
    lemma_bounds();
    let q = v.current.bands[index as int].q;
    crate::laws::tone::lemma_product(q, factor);
    let x = q.product(factor);
    let m = x.magnitude();
    assert(m <= INFINITY) by {
        reveal(nearest);
    }
    assert(x == double(m));
}

/// Scrolling on nothing leaves the bands as they are.
pub proof fn law_scroll_on_no_band(v: EditorView, index: i32, factor: Double)
    requires
        index < 0 || index >= v.current.bands.len(),
    ensures
        edited(v, Edit::Scroll { index, factor }).current.bands == v.current.bands,
{
}

/// A change touches the bands of the profile and nothing else that it corrects with: the
/// preamp stays. It never touches the catalog, the library, the file that the profile came
/// from, or what a reset goes back to.
pub proof fn law_edit_leaves_the_rest(v: EditorView, edit: Edit)
    ensures
        ({
            let after = edited(v, edit);
            &&& after.current.preamp == v.current.preamp
            &&& after.current.detail == v.current.detail
            &&& after.current.source == v.current.source
            &&& after.current.form == v.current.form
            &&& after.catalog == v.catalog
            &&& after.library == v.library
            &&& after.loaded_path == v.loaded_path
            &&& after.baseline == v.baseline
            &&& after.edit_mode == v.edit_mode
            &&& after.pending == v.pending
            &&& after.dirty
            &&& after.editing
        }),
{
}

/// The first change to a profile of the catalog makes a copy of it with a key and a name of
/// its own; a profile that is already a copy, or is not in the catalog, keeps both.
pub proof fn law_first_edit_forks(v: EditorView, edit: Edit)
    ensures
        ({
            let after = edited(v, edit).current;
            let in_catalog = exists|i: int|
                0 <= i < v.catalog.len() && (#[trigger] v.catalog[i]).key == v.current.key;
            &&& !v.editing && in_catalog ==> after.key == "custom:"@ + v.current.key && after.name
                == v.current.name + " (custom)"@
            &&& v.editing || !in_catalog ==> after.key == v.current.key && after.name
                == v.current.name
        }),
{
    crate::laws::search::law_get_finds_the_key(v.catalog, v.current.key);
}

/// A key that is neither in the library nor in the catalog leaves the profile and its file;
/// any session is over.
pub proof fn law_unknown_key_keeps_the_profile(v: EditorView, key: Seq<char>)
    requires
        !begins(key, "lib:"@),
        forall|i: int| 0 <= i < v.catalog.len() ==> (#[trigger] v.catalog[i]).key != key,
    ensures
        chosen(v, key).current == v.current,
        chosen(v, key).loaded_path == v.loaded_path,
        !chosen(v, key).edit_mode,
        !chosen(v, key).dirty,
{
    crate::laws::search::law_get_finds_the_key(v.catalog, key);
}

/// Entering edit mode remembers the profile and its file; leaving it keeps the edits and the
/// mark that they are not saved, and clears the selection.
pub proof fn law_toggle(v: EditorView)
    ensures
        toggled(v).edit_mode == !v.edit_mode,
        toggled(v).current == v.current,
        toggled(v).loaded_path == v.loaded_path,
        toggled(v).dirty == v.dirty,
        toggled(v).library == v.library,
        !v.edit_mode ==> toggled(v).baseline == Some((v.current, v.loaded_path)),
        v.edit_mode ==> toggled(v).selected == -1,
{
}

/// Once the edits are saved, the profile on the graph is that of the file, and there is
/// nothing left to save.
pub proof fn law_saving_keeps_the_edits(v: EditorView, path: Seq<u8>, library: Seq<SavedView>)
    ensures
        kept(v, path, library).current == v.current,
        kept(v, path, library).loaded_path == Some(path),
        kept(v, path, library).library == library,
        !kept(v, path, library).dirty,
{
}

/// An imported profile is on the graph at once, without unsaved edits; it belongs to a file
/// only where it could be saved.
pub proof fn law_import_shows_the_profile(
    v: EditorView,
    p: ProfileView,
    path: Seq<u8>,
    library: Seq<SavedView>,
)
    ensures
        imported(v, p, Some((path, library))).current == p,
        imported(v, p, Some((path, library))).loaded_path == Some(path),
        imported(v, p, Some((path, library))).library == library,
        imported(v, p, None).current == p,
        imported(v, p, None).loaded_path is None,
        imported(v, p, None).library == v.library,
        !imported(v, p, None).dirty,
        !imported(v, p, Some((path, library))).dirty,
{
}

proof fn lemma_saved_index(library: Seq<SavedView>, path: Seq<u8>, k: int)
    requires
        0 <= k < library.len(),
        library[k].path == path,
        forall|i: int| 0 <= i < k ==> (#[trigger] library[i]).path != path,
    ensures
        saved_index(library, path) == k,
    decreases library.len(),
{
    if k > 0 {
        let rest = library.drop_first();
        assert(library[0].path != path);
        assert forall|i: int| 0 <= i < k - 1 implies (#[trigger] rest[i]).path != path by {
            assert(library[i + 1].path != path);
        }
        lemma_saved_index(rest, path, k - 1);
    }
}

/// Deleting takes the profile of that file out of the library and no other, and leaves the one
/// on the graph where that is of another file.
pub proof fn law_delete_takes_one(v: EditorView, k: int, i: int)
    requires
        0 <= k < v.library.len(),
        forall|j: int| 0 <= j < k ==> (#[trigger] v.library[j]).path != v.library[k].path,
        0 <= i < v.library.len(),
        i != k,
    ensures
        ({
            let after = deleted(v, v.library[k].path);
            &&& after.library.len() == v.library.len() - 1
            &&& i < k ==> after.library[i] == v.library[i]
            &&& i > k ==> after.library[i - 1] == v.library[i]
            &&& v.loaded_path != Some(v.library[k].path) ==> after.current == v.current
                && after.loaded_path == v.loaded_path && after.dirty == v.dirty && after.edit_mode
                == v.edit_mode
        }),
{
    lemma_saved_index(v.library, v.library[k].path, k);
}

proof fn lemma_not_saved(library: Seq<SavedView>, path: Seq<u8>)
    requires
        forall|i: int| 0 <= i < library.len() ==> (#[trigger] library[i]).path != path,
    ensures
        saved_index(library, path) == library.len(),
    decreases library.len(),
{
    if library.len() > 0 {
        let rest = library.drop_first();
        assert(library[0].path != path);
        assert forall|i: int| 0 <= i < rest.len() implies (#[trigger] rest[i]).path != path by {
            assert(library[i + 1].path != path);
        }
        lemma_not_saved(rest, path);
    }
}

/// Deleting what is not in the library changes nothing.
pub proof fn law_delete_of_nothing(v: EditorView, path: Seq<u8>)
    requires
        forall|i: int| 0 <= i < v.library.len() ==> (#[trigger] v.library[i]).path != path,
    ensures
        deleted(v, path) == v,
{
    lemma_not_saved(v.library, path);
}

/// Where the profile on the graph is deleted, the profile of the catalog that it was made from
/// takes its place.
pub proof fn law_delete_goes_back_to_the_original(v: EditorView, k: int, c: int)
    requires
        0 <= k < v.library.len(),
        v.loaded_path == Some(v.library[k].path),
        0 <= c < v.catalog.len(),
        v.current.key == "custom:"@ + v.catalog[c].key,
        forall|j: int| 0 <= j < c ==> (#[trigger] v.catalog[j]).key != v.catalog[c].key,
    ensures
        deleted(v, v.library[k].path).current == v.catalog[c],
{
    reveal_strlit("custom:");
    crate::laws::search::law_get_finds_the_first(v.catalog, c);
    assert(v.current.key.take(7) =~= "custom:"@);
    assert(v.current.key.skip(7) =~= v.catalog[c].key);
    assert(begins(v.current.key, "custom:"@));
    lemma_index_in(v.library, v.library[k].path, k);
}

proof fn lemma_index_in(library: Seq<SavedView>, path: Seq<u8>, k: int)
    requires
        0 <= k < library.len(),
        library[k].path == path,
    ensures
        saved_index(library, path) <= k,
    decreases library.len(),
{
    if k > 0 && library[0].path != path {
        lemma_index_in(library.drop_first(), path, k - 1);
    }
}

/// A gain of up to 12 dB either way is within the plot at both of its heights.
pub proof fn lemma_in_every_plot(gain: Double)
    requires
        gain.finite(),
        whole(-12) <= gain.value() <= whole(12),
    ensures
        gain.clamped(double(GAIN_MAX).negated(), double(GAIN_MAX)) == gain,
        gain.clamped(double(DB_RANGE).negated(), double(DB_RANGE)) == gain,
{
    lemma_bounds();
    lemma_twelve();
    let a = double(GAIN_MAX).negated();
    let b = double(DB_RANGE).negated();
    assert(a.magnitude() == GAIN_MAX);
    assert(b.magnitude() == DB_RANGE);
    assert(whole(-12) == -whole(12)) by (nonlinear_arith);
    assert(whole(12) < whole(24)) by {
        vstd::arithmetic::power2::lemma_pow2_pos(1074);
    }
    lemma_order(gain, a);
    lemma_order(gain, b);
    lemma_order(double(GAIN_MAX), gain);
    lemma_order(double(DB_RANGE), gain);
}

/// Where some band has a gain of more than 12 dB the plot reaches to 24 dB either way, and a band
/// can be dragged to any gain up to there.
pub proof fn law_drag_in_a_tall_plot(
    v: EditorView,
    index: i32,
    frequency: Double,
    gain: Double,
    j: int,
)
    requires
        0 <= index < v.current.bands.len(),
        0 <= j < v.current.bands.len(),
        v.current.bands[j].gain.finite(),
        v.current.bands[j].gain.value() > whole(12),
        gain.finite(),
        whole(-24) <= gain.value() <= whole(24),
    ensures
        edited(v, Edit::Drag { index, frequency, gain }).current.bands[index as int].gain == gain,
{
    lemma_bounds();
    lemma_twelve();
    let g = v.current.bands[j].gain;
    assert(whole(12) > 0) by {
        vstd::arithmetic::power2::lemma_pow2_pos(1074);
    }
    lemma_order(double(DB_RANGE), g);
    assert(g.absolute().rank() == g.rank()) by {
        if g.negative() {
            crate::laws::tone::lemma_units_positive(g.magnitude());
        }
    }
    crate::ui::graph::lemma_peak(v.current.bands, j);
    assert(crate::ui::graph::wide(v.current.bands));
    let a = double(GAIN_MAX).negated();
    assert(a.magnitude() == GAIN_MAX);
    assert(whole(-24) == -whole(24)) by (nonlinear_arith);
    lemma_order(gain, a);
    lemma_order(double(GAIN_MAX), gain);
}

/// Whatever is chosen, the session is over, nothing is left to save, and the catalog and the
/// library are as they were.
pub proof fn law_choosing_ends_the_session(v: EditorView, key: Seq<char>)
    ensures
        !chosen(v, key).edit_mode,
        !chosen(v, key).dirty,
        chosen(v, key).baseline is None,
        chosen(v, key).catalog == v.catalog,
        chosen(v, key).library == v.library,
        chosen(v, key).pending == v.pending,
{
}

/// A profile of the catalog that is chosen belongs to no file, has no band selected, and is not a
/// copy unless its key says so.
pub proof fn law_choosing_from_the_catalog(v: EditorView, c: int)
    requires
        0 <= c < v.catalog.len(),
        forall|j: int| 0 <= j < c ==> (#[trigger] v.catalog[j]).key != v.catalog[c].key,
        !begins(v.catalog[c].key, "lib:"@),
    ensures
        ({
            let after = chosen(v, v.catalog[c].key);
            &&& after.current == v.catalog[c]
            &&& after.loaded_path is None
            &&& after.selected == -1
            &&& after.editing <==> exists|rest: Seq<char>|
                v.catalog[c].key == #[trigger] ("custom:"@ + rest)
        }),
{
    crate::laws::search::law_get_finds_the_first(v.catalog, c);
    lemma_begins(v.catalog[c].key, "custom:"@);
}

proof fn lemma_begins(key: Seq<char>, prefix: Seq<char>)
    ensures
        begins(key, prefix) <==> exists|rest: Seq<char>| key == #[trigger] (prefix + rest),
{
    if begins(key, prefix) {
        let rest = key.skip(prefix.len() as int);
        assert(key =~= prefix + rest);
    }
    if exists|rest: Seq<char>| key == #[trigger] (prefix + rest) {
        let rest = choose|rest: Seq<char>| key == #[trigger] (prefix + rest);
        assert(key.subrange(0, prefix.len() as int) =~= prefix);
    }
}

/// A reset goes back to what was remembered, selects nothing, and leaves the catalog and the
/// library; without anything remembered the profile stays.
pub proof fn law_reset(v: EditorView)
    ensures
        v.baseline matches Some((p, path)) ==> reset(v).current == p && reset(v).loaded_path == path,
        v.baseline is None ==> reset(v).current == v.current && reset(v).loaded_path == v.loaded_path,
        reset(v).selected == -1,
        !reset(v).edit_mode,
        !reset(v).dirty,
        reset(v).catalog == v.catalog,
        reset(v).library == v.library,
        reset(v).editing <==> exists|rest: Seq<char>|
            reset(v).current.key == #[trigger] ("custom:"@ + rest),
{
    lemma_begins(reset(v).current.key, "custom:"@);
}

} // verus!
