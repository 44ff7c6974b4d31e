//! The actions of the user on the state of the window.

use vstd::prelude::*;
use vstd::string::*;
use vstd::utf8::encode_utf8;

use crate::catalog::Catalog;
use crate::decimal::{write_fixed, write_number};
use crate::double::Double;
use crate::pipewire::paths::copy_bytes;
use crate::profile::{AudioProfile, BandType, FilterBand, ONE, Q_MIN, TWENTY, TWENTY_THOUSAND};
use crate::text::{chars_of, piece, stands_chars, text_of};
use crate::ui::editor::{
    band_label, begins, chosen, deleted, editable, edited, find_saved, flat, flat_profile, fmt_hz,
    half_range, i_to_kind, imported, kept, kind_number, kind_to_i, library_path, reset,
    saved_index, saved_views, selected_band, toggled, Commit, Edit, Editor, EditorView, Pending,
    PendingView, SavedProfile, SavedView,
};
use crate::ui::graph::db_range;

verus! {

/// A question to the user before something is lost.
#[derive(Debug)]
pub struct Question {
    pub title: String,
    pub message: String,
    pub confirm: String,
    pub cancel: String,
}

/// The texts of a question.
pub open spec fn asks(
    q: Question,
    title: Seq<char>,
    message: Seq<char>,
    confirm: Seq<char>,
    cancel: Seq<char>,
) -> bool {
    q.title@ == title && q.message@ == message && q.confirm@ == confirm && q.cancel@ == cancel
}

fn ask(title: &str, message: &str, confirm: &str, cancel: &str) -> (r: Question)
    ensures
        asks(r, title@, message@, confirm@, cancel@),
{
    Question {
        title: title.to_owned(),
        message: message.to_owned(),
        confirm: confirm.to_owned(),
        cancel: cancel.to_owned(),
    }
}

fn starts(s: &str, prefix: &str) -> (r: bool)
    ensures
        r == begins(s@, prefix@),
{
    stands_chars(&chars_of(s), &chars_of(prefix), 0)
}

/// What follows the first `n` characters.
fn after(s: &str, n: usize) -> (r: String)
    requires
        n <= s@.len(),
    ensures
        r@ == s@.skip(n as int),
{
    let v: Vec<char> = chars_of(s);
    assert(v@.skip(n as int) =~= v@.subrange(n as int, v@.len() as int));
    text_of(&piece(&v, n, v.len()))
}

/// The text in curly quotes, between two others.
fn quoted(start: &str, text: &str, end: &str) -> (r: String)
    ensures
        r@ == start@ + text@ + end@,
{
    start.to_owned().concat(text).concat(end)
}

pub(crate) fn same_bytes(a: &[u8], b: &[u8]) -> (r: bool)
    ensures
        r == (a@ == b@),
{
    if a.len() != b.len() {
        return false;
    }
    for i in 0..a.len()
        invariant
            a@.len() == b@.len(),
            forall|j: int| 0 <= j < i ==> a@[j] == b@[j],
    {
        if a[i] != b[i] {
            return false;
        }
    }
    assert(a@ =~= b@);
    true
}

/// The handle of a band.
pub open spec fn handle(v: EditorView, i: int) -> (i32, Double, Double) {
    let b = v.current.bands[i];
    (
        kind_number(b.kind),
        b.frequency,
        b.gain.clamped(half_range(v).negated(), half_range(v)),
    )
}

proof fn lemma_find_saved(library: Seq<SavedView>, path: Seq<u8>)
    ensures
        saved_index(library, path) <= library.len(),
        saved_index(library, path) < library.len() ==> find_saved(library, path) == Some(
            library[saved_index(library, path) as int],
        ) && library[saved_index(library, path) as int].path == path,
        saved_index(library, path) == library.len() ==> find_saved(library, path) is None,
    decreases library.len(),
{
    if library.len() > 0 && library[0].path != path {
        lemma_find_saved(library.drop_first(), path);
    }
}

impl Editor {
    /// The state that the window opens with: the profile that is active, or the flat
    /// one.
    pub fn new(catalog: Catalog, active: Option<AudioProfile>, library: Vec<SavedProfile>) -> (r:
        Editor)
        ensures
            r@ == (EditorView {
                catalog: catalog@,
                current: match active {
                    Some(p) => p@,
                    None => flat(),
                },
                loaded_path: None,
                edit_mode: false,
                baseline: None,
                selected: -1,
                editing: false,
                dirty: false,
                library: saved_views(library@),
                pending: None,
            }),
    {
        Editor {
            catalog,
            current: match active {
                Some(p) => p,
                None => flat_profile(),
            },
            loaded_path: None,
            edit_mode: false,
            baseline: None,
            selected: -1,
            editing: false,
            dirty: false,
            library,
            pending: None,
        }
    }

    /// Makes the profile one that can be edited.
    pub fn ensure_editable(&mut self)
        ensures
            final(self)@ == editable(old(self)@),
    {
        if !self.editing {
            if self.catalog.get(&self.current.key).is_some() {
                let key: String = "custom:".to_owned().concat(&self.current.key);
                let name: String = self.current.name.clone().concat(" (custom)");
                self.current.key = key;
                self.current.name = name;
            }
            self.editing = true;
        }
        self.dirty = true;
    }

    /// Changes the bands of the profile.
    pub fn edit(&mut self, edit: Edit)
        requires
            old(self).current.bands@.len() < i32::MAX,
        ensures
            final(self)@ == edited(old(self)@, edit),
    {
        self.ensure_editable();
        let ghost v = self@;
        let ghost bands = v.current.bands;
        let n: usize = self.current.bands.len();
        match edit {
            Edit::Drag { index, frequency, gain } => {
                let range: Double = db_range(&self.current);
                let f: Double = frequency.clamp(
                    Double { bits: TWENTY },
                    Double { bits: TWENTY_THOUSAND },
                );
                let g: Double = gain.clamp(range.neg(), range);
                if 0 <= index && (index as usize) < n {
                    let i: usize = index as usize;
                    let mut b: FilterBand = self.current.bands[i];
                    b.frequency = f;
                    b.gain = g;
                    self.current.bands.set(i, b);
                }
                self.selected = index;
            },
            Edit::Add { frequency, gain } => {
                let range: Double = db_range(&self.current);
                let f: Double = frequency.clamp(
                    Double { bits: TWENTY },
                    Double { bits: TWENTY_THOUSAND },
                );
                let g: Double = gain.clamp(range.neg(), range);
                self.current.bands.push(
                    FilterBand::new(BandType::Peaking, f, g, Double { bits: ONE }),
                );
                self.selected = n as i32;
            },
            Edit::Remove => {
                if 0 <= self.selected && (self.selected as usize) < n {
                    let _ = self.current.bands.remove(self.selected as usize);
                }
                self.selected = -1;
            },
            Edit::Scroll { index, factor } => {
                if 0 <= index && (index as usize) < n {
                    let i: usize = index as usize;
                    let mut b: FilterBand = self.current.bands[i];
                    b.q = b.q.times(factor).clamp(Double { bits: Q_MIN }, Double { bits: TWENTY });
                    self.current.bands.set(i, b);
                }
                self.selected = index;
            },
            Edit::Type { kind } => {
                if 0 <= self.selected && (self.selected as usize) < n {
                    let i: usize = self.selected as usize;
                    let mut b: FilterBand = self.current.bands[i];
                    b.kind = i_to_kind(kind);
                    self.current.bands.set(i, b);
                }
            },
        }
        assert(self@ == edited(old(self)@, edit));
    }

    /// Selects a band; -1 selects none.
    pub fn select_band(&mut self, index: i32)
        ensures
            final(self)@ == (EditorView { selected: index as int, ..old(self)@ }),
    {
        self.selected = index;
    }

    /// The selected band as the inline editor shows it: the number of its type, its
    /// quality factor and its description.
    pub fn selection(&self) -> (r: Option<(i32, Double, String)>)
        ensures
            r is Some <==> selected_band(self@) is Some,
            r matches Some((kind, q, label)) ==> {
                let b = selected_band(self@)->0;
                kind == kind_number(b.kind) && q == b.q && label@ == band_label(
                    (self.selected + 1) as nat,
                    b,
                )
            },
    {
        if self.selected < 0 || self.selected as usize >= self.current.bands.len() {
            return None;
        }
        let b: FilterBand = self.current.bands[self.selected as usize];
        let label: String = "Band ".to_owned().concat(
            &write_number((self.selected as i64 + 1) as u64),
        ).concat(" · ").concat(b.kind.eq_code()).concat(" · ").concat(&fmt_hz(b.frequency)).concat(
            " · ",
        ).concat(&write_fixed(b.gain, 1, true)).concat(" dB");
        Some((kind_to_i(b.kind), b.q, label))
    }

    /// The handles of the graph: for each band the number of its type, its frequency, and
    /// its gain, kept within the plot. There are none outside edit mode.
    pub fn handles(&self) -> (r: Vec<(i32, Double, Double)>)
        ensures
            r@ == if self@.edit_mode {
                Seq::new(self@.current.bands.len(), |i: int| handle(self@, i))
            } else {
                seq![]
            },
    {
        let mut r: Vec<(i32, Double, Double)> = Vec::new();
        if !self.edit_mode {
            assert(r@ =~= seq![]);
            return r;
        }
        let range: Double = db_range(&self.current);
        let ghost all = Seq::new(self@.current.bands.len(), |i: int| handle(self@, i));
        for i in 0..self.current.bands.len()
            invariant
                range == half_range(self@),
                all == Seq::new(self@.current.bands.len(), |i: int| handle(self@, i)),
                r@ =~= all.take(i as int),
        {
            let b: FilterBand = self.current.bands[i];
            r.push((kind_to_i(b.kind), b.frequency, b.gain.clamp(range.neg(), range)));
        }
        assert(r@ =~= all);
        r
    }

    /// The index of the first profile of the library with the given path, or its length.
    fn saved_position(&self, path: &[u8]) -> (r: usize)
        ensures
            r == saved_index(self@.library, path@),
            r <= self.library@.len(),
    {
        let ghost all = self@.library;
        assert(all.skip(0) =~= all);
        let mut i: usize = 0;
        while i < self.library.len() && !same_bytes(self.library[i].path.as_slice(), path)
            invariant
                i <= self.library@.len(),
                all == saved_views(self.library@),
                saved_index(all, path@) == i + saved_index(all.skip(i as int), path@),
            decreases self.library@.len() - i,
        {
            assert(all.skip(i as int)[0] == self.library@[i as int]@);
            assert(all.skip(i as int).drop_first() =~= all.skip(i + 1));
            i = i + 1;
        }
        if i < self.library.len() {
            assert(all.skip(i as int)[0] == self.library@[i as int]@);
        }
        i
    }

    /// Loads the profile of a list key, which ends any edit session.
    pub fn perform_select(&mut self, key: &str)
        ensures
            final(self)@ == chosen(old(self)@, key@),
    {
        let ghost v = self@;
        proof {
            reveal_strlit("lib:");
        }
        if starts(key, "lib:") {
            let path: String = after(key, 4);
            let i: usize = self.saved_position(path.as_str().as_bytes());
            proof {
                lemma_find_saved(v.library, encode_utf8(path@));
            }
            if i < self.library.len() {
                let profile: AudioProfile = self.library[i].profile.clone();
                let at: Vec<u8> = copy_bytes(&self.library[i].path);
                self.current = profile;
                self.loaded_path = Some(at);
                self.selected = -1;
                self.editing = true;
            }
        } else {
            let found: Option<AudioProfile> = match self.catalog.get(key) {
                Some(p) => Some(p.clone()),
                None => None,
            };
            if let Some(p) = found {
                self.editing = starts(&p.key, "custom:");
                self.current = p;
                self.loaded_path = None;
                self.selected = -1;
            }
        }
        self.edit_mode = false;
        self.baseline = None;
        self.dirty = false;
    }

    /// Gives up the edit session.
    pub fn perform_reset(&mut self)
        ensures
            final(self)@ == reset(old(self)@),
    {
        if let Some((profile, path)) = self.baseline.take() {
            self.current = profile;
            self.loaded_path = path;
        }
        self.editing = starts(&self.current.key, "custom:");
        self.selected = -1;
        self.edit_mode = false;
        self.dirty = false;
    }

    /// Enters or leaves edit mode, and says how what it is left with is to be kept: in the
    /// file that the profile was loaded from, or in a new one.
    pub fn toggle_edit(&mut self) -> (r: Commit)
        ensures
            final(self)@ == toggled(old(self)@),
            match r {
                Commit::Nothing => !old(self)@.edit_mode || !old(self)@.dirty,
                Commit::Overwrite(path) => old(self)@.edit_mode && old(self)@.dirty
                    && old(self)@.loaded_path == Some(path@),
                Commit::SaveNew => old(self)@.edit_mode && old(self)@.dirty
                    && old(self)@.loaded_path is None,
            },
    {
        if !self.edit_mode {
            self.edit_mode = true;
            let path: Option<Vec<u8>> = match &self.loaded_path {
                Some(p) => Some(copy_bytes(p)),
                None => None,
            };
            self.baseline = Some((self.current.clone(), path));
            return Commit::Nothing;
        }
        self.edit_mode = false;
        self.selected = -1;
        if !self.dirty {
            return Commit::Nothing;
        }
        match &self.loaded_path {
            Some(p) => Commit::Overwrite(copy_bytes(p)),
            None => Commit::SaveNew,
        }
    }

    /// The edits have been kept in a file, or could not be.
    pub fn committed(&mut self, result: Result<(Vec<u8>, Vec<SavedProfile>), String>) -> (message:
        String)
        ensures
            match result {
                Ok((path, library)) => final(self)@ == kept(
                    old(self)@,
                    path@,
                    saved_views(library@),
                ) && message@ == "Saved “"@ + old(self)@.current.name + "” to your library."@,
                Err(e) => final(self)@ == old(self)@ && message@
                    == "⚠ Could not save the edited profile: "@ + e@,
            },
    {
        match result {
            Ok((path, library)) => {
                self.loaded_path = Some(path);
                self.library = library;
                self.dirty = false;
                quoted("Saved “", &self.current.name, "” to your library.")
            },
            Err(e) => "⚠ Could not save the edited profile: ".to_owned().concat(&e),
        }
    }

    /// Chooses a profile of the list; asks first where edits would be lost.
    pub fn select_profile(&mut self, key: &str) -> (r: Option<Question>)
        ensures
            r is Some <==> old(self)@.dirty,
            final(self)@ == if old(self)@.dirty {
                EditorView { pending: Some(PendingView::SwitchProfile(key@)), ..old(self)@ }
            } else {
                chosen(old(self)@, key@)
            },
            r matches Some(q) ==> asks(
                q,
                "Discard your edits?"@,
                "You have unsaved changes to this profile. Switching to another will discard them."@,
                "Discard & switch"@,
                "Keep editing"@,
            ),
    {
        if self.dirty {
            self.pending = Some(Pending::SwitchProfile(key.to_owned()));
            Some(
                ask(
                    "Discard your edits?",
                    "You have unsaved changes to this profile. Switching to another will discard them.",
                    "Discard & switch",
                    "Keep editing",
                ),
            )
        } else {
            self.perform_select(key);
            None
        }
    }

    /// Gives up the edit session; asks first where edits would be lost.
    pub fn reset_edit(&mut self) -> (r: Option<Question>)
        ensures
            r is Some <==> old(self)@.dirty,
            final(self)@ == if old(self)@.dirty {
                EditorView { pending: Some(PendingView::ResetEdit), ..old(self)@ }
            } else {
                reset(old(self)@)
            },
            r matches Some(q) ==> asks(
                q,
                "Discard your edits?"@,
                "This resets the graph to how it was before you started editing this profile."@,
                "Discard"@,
                "Keep editing"@,
            ),
    {
        if self.dirty {
            self.pending = Some(Pending::ResetEdit);
            Some(
                ask(
                    "Discard your edits?",
                    "This resets the graph to how it was before you started editing this profile.",
                    "Discard",
                    "Keep editing",
                ),
            )
        } else {
            self.perform_reset();
            None
        }
    }

    /// Asks where an import would lose edits; without a question it can go ahead.
    pub fn import_profile(&mut self) -> (r: Option<Question>)
        ensures
            r is Some <==> old(self)@.dirty,
            final(self)@ == if old(self)@.dirty {
                EditorView { pending: Some(PendingView::ImportProfile), ..old(self)@ }
            } else {
                old(self)@
            },
            r matches Some(q) ==> asks(
                q,
                "Discard your edits?"@,
                "Importing a profile will discard your unsaved changes."@,
                "Discard & import"@,
                "Keep editing"@,
            ),
    {
        if self.dirty {
            self.pending = Some(Pending::ImportProfile);
            Some(
                ask(
                    "Discard your edits?",
                    "Importing a profile will discard your unsaved changes.",
                    "Discard & import",
                    "Keep editing",
                ),
            )
        } else {
            None
        }
    }

    /// Asks whether to delete the profile of a list key, where it is one of the library.
    pub fn delete_profile(&mut self, key: &str) -> (r: Option<Question>)
        ensures
            ({
                let found = match library_path(key@) {
                    Some(path) => find_saved(old(self)@.library, path),
                    None => None,
                };
                &&& r is Some <==> found is Some
                &&& final(self)@ == match found {
                    Some(s) => EditorView {
                        pending: Some(PendingView::DeleteProfile(s.path)),
                        ..old(self)@
                    },
                    None => old(self)@,
                }
                &&& r matches Some(q) ==> asks(
                    q,
                    "Delete profile?"@,
                    "“"@ + found->0.profile.name
                        + "” will be permanently removed from your library."@,
                    "Delete"@,
                    "Cancel"@,
                )
            }),
    {
        let ghost v = self@;
        proof {
            reveal_strlit("lib:");
        }
        if !starts(key, "lib:") {
            return None;
        }
        let path: String = after(key, 4);
        let i: usize = self.saved_position(path.as_str().as_bytes());
        proof {
            lemma_find_saved(v.library, encode_utf8(path@));
        }
        if i >= self.library.len() {
            return None;
        }
        let message: String = quoted(
            "“",
            &self.library[i].profile.name,
            "” will be permanently removed from your library.",
        );
        self.pending = Some(Pending::DeleteProfile(copy_bytes(&self.library[i].path)));
        Some(ask("Delete profile?", &message, "Delete", "Cancel"))
    }

    /// The action that was waiting, once the user has confirmed it.
    pub fn confirm(&mut self) -> (r: Option<Pending>)
        ensures
            final(self)@ == (EditorView { pending: None, ..old(self)@ }),
            old(self)@.pending == match r {
                Some(p) => Some(p@),
                None => None,
            },
    {
        self.pending.take()
    }

    /// Forgets the action that was waiting.
    pub fn cancel(&mut self)
        ensures
            final(self)@ == (EditorView { pending: None, ..old(self)@ }),
    {
        self.pending = None;
    }

    /// Takes a profile out of the library, and tells the user; nothing happens where it is
    /// not there any longer. Its file is to be deleted.
    pub fn delete(&mut self, path: &[u8]) -> (message: Option<String>)
        ensures
            final(self)@ == deleted(old(self)@, path@),
            message is Some <==> find_saved(old(self)@.library, path@) is Some,
            message matches Some(m) ==> m@ == "Deleted “"@ + find_saved(
                old(self)@.library,
                path@,
            )->0.profile.name + "” from your library."@,
    {
        let ghost v = self@;
        proof {
            lemma_find_saved(v.library, path@);
            reveal_strlit("custom:");
        }
        let i: usize = self.saved_position(path);
        if i >= self.library.len() {
            return None;
        }
        let gone: SavedProfile = self.library.remove(i);
        assert(saved_views(self.library@) =~= v.library.remove(i as int));
        let shown: bool = match &self.loaded_path {
            Some(p) => same_bytes(p.as_slice(), gone.path.as_slice()),
            None => false,
        };
        if shown {
            let base: Option<AudioProfile> = if starts(&self.current.key, "custom:") {
                match self.catalog.get(&after(&self.current.key, 7)) {
                    Some(p) => Some(p.clone()),
                    None => None,
                }
            } else {
                None
            };
            self.current = match base {
                Some(p) => p,
                None => flat_profile(),
            };
            self.loaded_path = None;
            self.editing = false;
            self.dirty = false;
            self.selected = -1;
            self.edit_mode = false;
            self.baseline = None;
        }
        Some(quoted("Deleted “", &gone.profile.name, "” from your library."))
    }

    /// A profile has been imported, and saved to the library, or could not be.
    pub fn import_done(
        &mut self,
        profile: AudioProfile,
        result: Result<(Vec<u8>, Vec<SavedProfile>), String>,
    ) -> (message: String)
        ensures
            match result {
                Ok((path, library)) => final(self)@ == imported(
                    old(self)@,
                    profile@,
                    Some((path@, saved_views(library@))),
                ) && message@ == "Imported “"@ + profile@.name + "” into your library."@,
                Err(e) => final(self)@ == imported(old(self)@, profile@, None) && message@
                    == "⚠ Imported, but could not save to the library: "@ + e@,
            },
    {
        let message: String = match result {
            Ok((path, library)) => {
                self.loaded_path = Some(path);
                self.library = library;
                quoted("Imported “", &profile.name, "” into your library.")
            },
            Err(e) => {
                self.loaded_path = None;
                "⚠ Imported, but could not save to the library: ".to_owned().concat(&e)
            },
        };
        self.current = profile;
        self.selected = -1;
        self.editing = true;
        self.edit_mode = false;
        self.baseline = None;
        self.dirty = false;
        message
    }
}

} // verus!
