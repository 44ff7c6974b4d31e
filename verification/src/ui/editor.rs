//! Choosing, editing, saving and deleting profiles: what each action makes of the state
//! of the window.

use vstd::prelude::*;
use vstd::string::*;
use vstd::utf8::encode_utf8;

use crate::catalog::{find_profile, Catalog};
use crate::decimal::{fixed, numeral, write_fixed};
use crate::double::{double, Double};
use crate::profile::{sane_band, within, AudioProfile, BandType, FilterBand, ProfileView, ONE, Q_MIN, THOUSAND, TWENTY, TWENTY_THOUSAND};
use crate::text::{same, stands_at};
use crate::ui::graph::{wide, DB_RANGE};

verus! {

/// A profile of the library and its file.
pub struct SavedProfile {
    /// The path of the file as the system encodes it, which is UTF-8 where the path is
    /// text. All files lie right in the directory of the library, so that it is the same
    /// file where the bytes are the same.
    pub path: Vec<u8>,
    /// The path as a text, with stand-ins for what is not text.
    pub shown: String,
    pub profile: AudioProfile,
}

/// What a saved profile holds.
pub struct SavedView {
    pub path: Seq<u8>,
    pub shown: Seq<char>,
    pub profile: ProfileView,
}

impl View for SavedProfile {
    type V = SavedView;

    open spec fn view(&self) -> SavedView {
        SavedView { path: self.path@, shown: self.shown@, profile: self.profile@ }
    }
}

/// What some saved profiles hold.
pub open spec fn saved_views(v: Seq<SavedProfile>) -> Seq<SavedView> {
    Seq::new(v.len(), |i: int| v[i]@)
}

/// An action that waits for the user's confirmation.
pub enum Pending {
    DeleteProfile(Vec<u8>),
    ResetEdit,
    SwitchProfile(String),
    ImportProfile,
}

/// What a waiting action says.
pub enum PendingView {
    DeleteProfile(Seq<u8>),
    ResetEdit,
    SwitchProfile(Seq<char>),
    ImportProfile,
}

impl View for Pending {
    type V = PendingView;

    open spec fn view(&self) -> PendingView {
        match self {
            Pending::DeleteProfile(p) => PendingView::DeleteProfile(p@),
            Pending::ResetEdit => PendingView::ResetEdit,
            Pending::SwitchProfile(k) => PendingView::SwitchProfile(k@),
            Pending::ImportProfile => PendingView::ImportProfile,
        }
    }
}

/// The state of the window, as far as profiles go.
pub struct Editor {
    pub catalog: Catalog,
    /// The profile on the graph.
    pub current: AudioProfile,
    /// The file of the library that it was loaded from.
    pub loaded_path: Option<Vec<u8>>,
    /// Handles are shown and bands can be moved.
    pub edit_mode: bool,
    /// The profile and its file when edit mode was entered.
    pub baseline: Option<(AudioProfile, Option<Vec<u8>>)>,
    /// The band that is selected, or -1.
    pub selected: i32,
    /// The profile is a copy that can be edited.
    pub editing: bool,
    /// There are edits that have not been saved.
    pub dirty: bool,
    pub library: Vec<SavedProfile>,
    pub pending: Option<Pending>,
}

/// What the state holds.
pub struct EditorView {
    pub catalog: Seq<ProfileView>,
    pub current: ProfileView,
    pub loaded_path: Option<Seq<u8>>,
    pub edit_mode: bool,
    pub baseline: Option<(ProfileView, Option<Seq<u8>>)>,
    pub selected: int,
    pub editing: bool,
    pub dirty: bool,
    pub library: Seq<SavedView>,
    pub pending: Option<PendingView>,
}

/// The view of an optional string.
pub open spec fn opt(s: Option<String>) -> Option<Seq<char>> {
    match s {
        Some(t) => Some(t@),
        None => None,
    }
}

/// The view of an optional path.
pub open spec fn opt_path(p: Option<Vec<u8>>) -> Option<Seq<u8>> {
    match p {
        Some(b) => Some(b@),
        None => None,
    }
}

impl View for Editor {
    type V = EditorView;

    open spec fn view(&self) -> EditorView {
        EditorView {
            catalog: self.catalog@,
            current: self.current@,
            loaded_path: opt_path(self.loaded_path),
            edit_mode: self.edit_mode,
            baseline: match self.baseline {
                Some((p, path)) => Some((p@, opt_path(path))),
                None => None,
            },
            selected: self.selected as int,
            editing: self.editing,
            dirty: self.dirty,
            library: saved_views(self.library@),
            pending: match self.pending {
                Some(p) => Some(p@),
                None => None,
            },
        }
    }
}

/// The number of a band type in the list to choose from.
pub open spec fn kind_number(kind: BandType) -> i32 {
    match kind {
        BandType::Peaking => 0,
        BandType::LowShelf => 1,
        BandType::HighShelf => 2,
    }
}

/// The band type of a number in the list to choose from; peaking for any other number.
pub open spec fn kind_of_number(n: i32) -> BandType {
    if n == 1 {
        BandType::LowShelf
    } else if n == 2 {
        BandType::HighShelf
    } else {
        BandType::Peaking
    }
}

/// The number of a band type in the list to choose from.
pub fn kind_to_i(kind: BandType) -> (r: i32)
    ensures
        r == kind_number(kind),
        kind_of_number(r) == kind,
{
    match kind {
        BandType::Peaking => 0,
        BandType::LowShelf => 1,
        BandType::HighShelf => 2,
    }
}

/// The band type of a number in the list to choose from; peaking for any other number.
pub fn i_to_kind(n: i32) -> (r: BandType)
    ensures
        r == kind_of_number(n),
        0 <= n <= 2 ==> kind_number(r) == n,
{
    match n {
        1 => BandType::LowShelf,
        2 => BandType::HighShelf,
        _ => BandType::Peaking,
    }
}

/// A frequency as it is shown: in kHz from 1000 Hz on.
pub open spec fn hz_text(f: Double) -> Seq<char> {
    if double(THOUSAND).at_most(f) {
        fixed(f.quotient(1000), 1, false) + " kHz"@
    } else {
        fixed(f, 0, false) + " Hz"@
    }
}

/// A frequency as it is shown: in kHz from 1000 Hz on, otherwise in whole Hz.
pub fn fmt_hz(f: Double) -> (r: String)
    ensures
        r@ == hz_text(f),
{
    if (Double { bits: THOUSAND }).le(&f) {
        write_fixed(f.over(1000), 1, false).concat(" kHz")
    } else {
        write_fixed(f, 0, false).concat(" Hz")
    }
}

/// The profile that corrects nothing.
pub open spec fn flat() -> ProfileView {
    ProfileView {
        key: "flat"@,
        name: "Flat"@,
        detail: "no correction"@,
        ..crate::profile::empty_profile()
    }
}

/// The profile that corrects nothing: what the window opens with where nothing is
/// active.
pub fn flat_profile() -> (r: AudioProfile)
    ensures
        r@ == flat(),
{
    let none: AudioProfile = AudioProfile::default();
    AudioProfile {
        key: "flat".to_owned(),
        name: "Flat".to_owned(),
        detail: "no correction".to_owned(),
        source: none.source,
        form: none.form,
        preamp: none.preamp,
        bands: none.bands,
    }
}

/// The title of the window: the name of the program, and of the profile unless that is
/// the flat one or has none.
pub open spec fn title_of(p: ProfileView) -> Seq<char> {
    if p.key == "flat"@ || p.name.len() == 0 {
        "ADtune"@
    } else {
        "ADtune - "@ + p.name
    }
}

/// The title of the window.
pub fn window_title(p: &AudioProfile) -> (r: String)
    ensures
        r@ == title_of(p@),
{
    if same(&p.key, "flat") || p.name.as_str().is_empty() {
        "ADtune".to_owned()
    } else {
        "ADtune - ".to_owned().concat(&p.name)
    }
}

/// The description of a band.
pub open spec fn band_label(n: nat, b: FilterBand) -> Seq<char> {
    "Band "@ + numeral(n) + " · "@ + b.kind.code() + " · "@ + hz_text(b.frequency) + " · "@ + fixed(
        b.gain,
        1,
        true,
    ) + " dB"@
}

/// The band that is selected.
pub open spec fn selected_band(v: EditorView) -> Option<FilterBand> {
    if 0 <= v.selected < v.current.bands.len() {
        Some(v.current.bands[v.selected as int])
    } else {
        None
    }
}

/// The key begins with `prefix`.
pub open spec fn begins(key: Seq<char>, prefix: Seq<char>) -> bool {
    stands_at(key, prefix, 0)
}

/// The profile has become a copy that can be edited, and has unsaved edits. A profile of
/// the catalog gets a key and a name of its own, so that the catalog stays as it is.
pub open spec fn editable(v: EditorView) -> EditorView {
    EditorView {
        current: if !v.editing && find_profile(v.catalog, v.current.key) is Some {
            ProfileView {
                key: "custom:"@ + v.current.key,
                name: v.current.name + " (custom)"@,
                ..v.current
            }
        } else {
            v.current
        },
        editing: true,
        dirty: true,
        ..v
    }
}

/// The first profile of the library with the given path.
pub open spec fn find_saved(library: Seq<SavedView>, path: Seq<u8>) -> Option<SavedView>
    decreases library.len(),
{
    if library.len() == 0 {
        None
    } else if library[0].path == path {
        Some(library[0])
    } else {
        find_saved(library.drop_first(), path)
    }
}

/// What a list key of the library stands for: the path behind `lib:`, in UTF-8.
pub open spec fn library_path(key: Seq<char>) -> Option<Seq<u8>> {
    if begins(key, "lib:"@) {
        Some(encode_utf8(key.skip(4)))
    } else {
        None
    }
}

/// The profile of a list key has been chosen. A key that is not known leaves the profile
/// as it is. Any edit session is over.
pub open spec fn chosen(v: EditorView, key: Seq<char>) -> EditorView {
    let ended = EditorView { edit_mode: false, baseline: None, dirty: false, ..v };
    match library_path(key) {
        Some(path) => match find_saved(v.library, path) {
            Some(s) => EditorView {
                current: s.profile,
                loaded_path: Some(s.path),
                selected: -1,
                editing: true,
                ..ended
            },
            None => ended,
        },
        None => match find_profile(v.catalog, key) {
            Some(p) => EditorView {
                current: p,
                loaded_path: None,
                selected: -1,
                editing: begins(p.key, "custom:"@),
                ..ended
            },
            None => ended,
        },
    }
}

/// The edit session has been given up: the profile is what it was before.
pub open spec fn reset(v: EditorView) -> EditorView {
    let (current, loaded_path) = match v.baseline {
        Some((p, path)) => (p, path),
        None => (v.current, v.loaded_path),
    };
    EditorView {
        current,
        loaded_path,
        baseline: None,
        editing: begins(current.key, "custom:"@),
        selected: -1,
        edit_mode: false,
        dirty: false,
        ..v
    }
}

/// Half of the height of the plot.
pub open spec fn half_range(v: EditorView) -> Double {
    if wide(v.current.bands) {
        double(crate::profile::GAIN_MAX)
    } else {
        double(DB_RANGE)
    }
}

/// A frequency and a gain within the plot.
pub open spec fn in_plot(v: EditorView, frequency: Double, gain: Double) -> (Double, Double) {
    (
        frequency.clamped(double(TWENTY), double(TWENTY_THOUSAND)),
        gain.clamped(half_range(v).negated(), half_range(v)),
    )
}

/// A change to the bands of the profile.
#[derive(Clone, Copy, Debug, PartialEq, Eq, Structural)]
pub enum Edit {
    /// A band has been moved to a frequency and a gain.
    Drag { index: i32, frequency: Double, gain: Double },
    /// A peaking band has been added at a frequency and a gain.
    Add { frequency: Double, gain: Double },
    /// The selected band has been removed.
    Remove,
    /// The quality factor of a band has been scaled.
    Scroll { index: i32, factor: Double },
    /// The type of the selected band has been chosen.
    Type { kind: i32 },
}

/// The bands of the profile have changed.
pub open spec fn with_bands(v: EditorView, bands: Seq<FilterBand>, selected: int) -> EditorView {
    EditorView { current: ProfileView { bands, ..v.current }, selected, ..v }
}

/// What a change makes of the state.
pub open spec fn edited(before: EditorView, edit: Edit) -> EditorView {
    let v = editable(before);
    let bands = v.current.bands;
    match edit {
        Edit::Drag { index, frequency, gain } => {
            let (f, g) = in_plot(v, frequency, gain);
            if 0 <= index < bands.len() {
                with_bands(
                    v,
                    bands.update(
                        index as int,
                        FilterBand { frequency: f, gain: g, ..bands[index as int] },
                    ),
                    index as int,
                )
            } else {
                with_bands(v, bands, index as int)
            }
        },
        Edit::Add { frequency, gain } => {
            let (f, g) = in_plot(v, frequency, gain);
            with_bands(
                v,
                bands.push(sane_band(BandType::Peaking, f, g, double(ONE))),
                bands.len() as int,
            )
        },
        Edit::Remove => {
            if 0 <= v.selected < bands.len() {
                with_bands(v, bands.remove(v.selected as int), -1)
            } else {
                with_bands(v, bands, -1)
            }
        },
        Edit::Scroll { index, factor } => {
            if 0 <= index < bands.len() {
                with_bands(
                    v,
                    bands.update(
                        index as int,
                        FilterBand {
                            q: bands[index as int].q.product(factor).clamped(
                                double(Q_MIN),
                                double(TWENTY),
                            ),
                            ..bands[index as int]
                        },
                    ),
                    index as int,
                )
            } else {
                with_bands(v, bands, index as int)
            }
        },
        Edit::Type { kind } => {
            if 0 <= v.selected < bands.len() {
                with_bands(
                    v,
                    bands.update(
                        v.selected as int,
                        FilterBand { kind: kind_of_number(kind), ..bands[v.selected as int] },
                    ),
                    v.selected,
                )
            } else {
                v
            }
        },
    }
}

/// What several changes make of the state.
pub open spec fn edited_all(v: EditorView, edits: Seq<Edit>) -> EditorView
    decreases edits.len(),
{
    if edits.len() == 0 {
        v
    } else {
        edited(edited_all(v, edits.drop_last()), edits.last())
    }
}

/// How an edit session is to be kept.
#[derive(Debug)]
pub enum Commit {
    /// Not at all: there is nothing to keep, or the session has only begun.
    Nothing,
    /// In the file that the profile was loaded from.
    Overwrite(Vec<u8>),
    /// In a new file.
    SaveNew,
}

/// Edit mode has been entered or left. What it is left with is kept by [`kept`].
pub open spec fn toggled(v: EditorView) -> EditorView {
    if v.edit_mode {
        EditorView { edit_mode: false, selected: -1, ..v }
    } else {
        EditorView { edit_mode: true, baseline: Some((v.current, v.loaded_path)), ..v }
    }
}

/// The edits have been kept in a file.
pub open spec fn kept(v: EditorView, path: Seq<u8>, library: Seq<SavedView>) -> EditorView {
    EditorView { loaded_path: Some(path), library, dirty: false, ..v }
}

/// A profile has been imported, and saved to the library where that worked.
pub open spec fn imported(
    v: EditorView,
    p: ProfileView,
    saved: Option<(Seq<u8>, Seq<SavedView>)>,
) -> EditorView {
    EditorView {
        loaded_path: match saved {
            Some((path, _)) => Some(path),
            None => None,
        },
        library: match saved {
            Some((_, library)) => library,
            None => v.library,
        },
        current: p,
        selected: -1,
        editing: true,
        edit_mode: false,
        baseline: None,
        dirty: false,
        ..v
    }
}

/// The index of the first profile of the library with the given path, or its length.
pub open spec fn saved_index(library: Seq<SavedView>, path: Seq<u8>) -> nat
    decreases library.len(),
{
    if library.len() == 0 || library[0].path == path {
        0
    } else {
        1 + saved_index(library.drop_first(), path)
    }
}

/// The profile to show where the one on the graph has been deleted: the one of the
/// catalog that it was made from, or the flat one.
pub open spec fn fallback(v: EditorView) -> ProfileView {
    if begins(v.current.key, "custom:"@) {
        match find_profile(v.catalog, v.current.key.skip(7)) {
            Some(p) => p,
            None => flat(),
        }
    } else {
        flat()
    }
}

/// A profile of the library has been deleted. Where it was the one on the graph, another
/// one takes its place, and any edit session is over.
pub open spec fn deleted(v: EditorView, path: Seq<u8>) -> EditorView {
    let i = saved_index(v.library, path) as int;
    if i >= v.library.len() {
        v
    } else {
        let rest = EditorView { library: v.library.remove(i), ..v };
        if v.loaded_path == Some(path) {
            EditorView {
                current: fallback(v),
                loaded_path: None,
                editing: false,
                dirty: false,
                selected: -1,
                edit_mode: false,
                baseline: None,
                ..rest
            }
        } else {
            rest
        }
    }
}

/// Changes leave the catalog, the library and what a reset goes back to as they are.
proof fn lemma_edits_keep(v: EditorView, edits: Seq<Edit>)
    ensures
        edited_all(v, edits).catalog == v.catalog,
        edited_all(v, edits).library == v.library,
        edited_all(v, edits).baseline == v.baseline,
        edited_all(v, edits).edit_mode == v.edit_mode,
        edited_all(v, edits).loaded_path == v.loaded_path,
    decreases edits.len(),
{
    if edits.len() > 0 {
        lemma_edits_keep(v, edits.drop_last());
    }
}

/// Whatever has been changed since edit mode was entered, a reset brings back the
/// profile and its file.
pub proof fn law_reset_restores(v: EditorView, edits: Seq<Edit>)
    requires
        !v.edit_mode,
    ensures
        ({
            let after = reset(edited_all(toggled(v), edits));
            &&& after.current == v.current
            &&& after.loaded_path == v.loaded_path
            &&& after.library == v.library
            &&& !after.edit_mode
            &&& !after.dirty
        }),
{
    lemma_edits_keep(toggled(v), edits);
}

/// Whatever has been changed, choosing a profile of the catalog gives it as it is in the
/// catalog.
pub proof fn law_catalog_stays_pristine(v: EditorView, edits: Seq<Edit>, key: Seq<char>)
    requires
        find_profile(v.catalog, key) is Some,
        !begins(key, "lib:"@),
    ensures
        chosen(edited_all(v, edits), key).current == find_profile(v.catalog, key)->0,
        !chosen(edited_all(v, edits), key).dirty,
{
    lemma_edits_keep(v, edits);
}

/// Every change marks the state as having unsaved edits.
pub proof fn law_edits_are_dirty(v: EditorView, edits: Seq<Edit>)
    requires
        edits.len() > 0,
    ensures
        edited_all(v, edits).dirty,
        edited_all(v, edits).editing,
{
}

/// A profile that has been deleted is not shown any longer.
pub proof fn law_deleted_is_gone(v: EditorView, path: Seq<u8>)
    requires
        v.loaded_path == Some(path),
        saved_index(v.library, path) < v.library.len(),
    ensures
        deleted(v, path).loaded_path is None,
        deleted(v, path).current == fallback(v),
        !deleted(v, path).dirty,
        deleted(v, path).library.len() == v.library.len() - 1,
{
}

/// The numbers of a change are numbers.
pub open spec fn sound(v: EditorView, edit: Edit) -> bool {
    match edit {
        Edit::Drag { frequency, gain, .. } => !frequency.nan() && !gain.nan(),
        Edit::Add { .. } => true,
        Edit::Remove => true,
        Edit::Scroll { index, factor } => 0 <= index < v.current.bands.len()
            ==> !v.current.bands[index as int].q.product(factor).nan(),
        Edit::Type { .. } => true,
    }
}

/// Every band is in range.
pub open spec fn all_valid(bands: Seq<FilterBand>) -> bool {
    forall|i: int| 0 <= i < bands.len() ==> (#[trigger] bands[i]).valid()
}

proof fn lemma_clamped(x: Double, low: u64, high: u64)
    requires
        !x.nan(),
        double(low).at_most(double(high)),
    ensures
        within(x.clamped(double(low), double(high)), low, high),
{
}

proof fn lemma_update_valid(bands: Seq<FilterBand>, k: int, b: FilterBand)
    requires
        all_valid(bands),
        0 <= k < bands.len(),
        b.valid(),
    ensures
        all_valid(bands.update(k, b)),
{
    assert forall|i: int| 0 <= i < bands.len() implies (#[trigger] bands.update(k, b)[i]).valid() by {
        assert(bands[i].valid());
    }
}

proof fn lemma_remove_valid(bands: Seq<FilterBand>, k: int)
    requires
        all_valid(bands),
        0 <= k < bands.len(),
    ensures
        all_valid(bands.remove(k)),
{
    assert forall|i: int| 0 <= i < bands.len() - 1 implies (#[trigger] bands.remove(k)[i]).valid() by {
        assert(bands[i].valid());
        assert(bands[i + 1].valid());
    }
}

/// A quality factor that was scaled is kept in range.
proof fn lemma_scrolled_valid(b: FilterBand, q: Double)
    requires
        b.valid(),
        !q.nan(),
    ensures
        (FilterBand { q: q.clamped(double(Q_MIN), double(TWENTY)), ..b }).valid(),
{
    lemma_clamped(q, Q_MIN, TWENTY);
}

/// Changes keep every band in range.
pub proof fn law_edits_keep_bands_valid(v: EditorView, edit: Edit)
    requires
        all_valid(v.current.bands),
        sound(v, edit),
    ensures
        all_valid(edited(v, edit).current.bands),
{
    let e = editable(v);
    let bands = e.current.bands;
    assert(bands == v.current.bands);
    match edit {
        Edit::Drag { index, frequency, gain } => {
            if 0 <= index < bands.len() {
                let (f, g) = in_plot(e, frequency, gain);
                let b = FilterBand { frequency: f, gain: g, ..bands[index as int] };
                assert(bands[index as int].valid());
                assert(b.valid());
                lemma_update_valid(bands, index as int, b);
            }
        },
        Edit::Add { .. } => {},
        Edit::Remove => {
            if 0 <= e.selected < bands.len() {
                lemma_remove_valid(bands, e.selected as int);
            }
        },
        Edit::Scroll { index, factor } => {
            if 0 <= index < bands.len() {
                let b = bands[index as int];
                let q = b.q.product(factor);
                assert(b.valid());
                lemma_scrolled_valid(b, q);
                lemma_update_valid(
                    bands,
                    index as int,
                    FilterBand { q: q.clamped(double(Q_MIN), double(TWENTY)), ..b },
                );
            }
        },
        Edit::Type { kind } => {
            if 0 <= e.selected < bands.len() {
                let b = FilterBand { kind: kind_of_number(kind), ..bands[e.selected as int] };
                assert(bands[e.selected as int].valid());
                lemma_update_valid(bands, e.selected as int, b);
            }
        },
    }
}

} // verus!
