//! The list of profiles to choose from, and how many there are.

use vstd::prelude::*;
use vstd::string::*;
use vstd::utf8::encode_utf8;

use crate::catalog::{is_search, referred};
use crate::decimal::{digit, digit_char, last_digits, numeral, write_number};
use crate::profile::{AudioProfile, ProfileView};
use crate::text::{chars_of, holds, holds_chars, lowercase, same, to_lowercase, views};
use crate::ui::editor::{begins, chosen, find_saved, saved_views, Editor, EditorView, SavedProfile, SavedView};
use crate::ui::session::same_bytes;

verus! {

/// A number with a comma between each three digits.
pub open spec fn grouped(n: nat) -> Seq<char>
    decreases n,
{
    if n < 1000 {
        numeral(n)
    } else {
        grouped(n / 1000) + seq![','] + last_digits(n, 3)
    }
}

/// `s` without its commas.
pub open spec fn without_commas(s: Seq<char>) -> Seq<char>
    decreases s.len(),
{
    if s.len() == 0 {
        seq![]
    } else if s.last() == ',' {
        without_commas(s.drop_last())
    } else {
        without_commas(s.drop_last()).push(s.last())
    }
}

/// A number with a comma between each three digits: `8,850`.
pub fn thousands(n: u64) -> (r: String)
    ensures
        r@ == grouped(n as nat),
    decreases n,
{
    if n < 1000 {
        return write_number(n);
    }
    let mut r: String = thousands(n / 1000);
    let ghost head = r@;
    r.push(',');
    r.push(('0' as u8 + (n / 100 % 10) as u8) as char);
    r.push(('0' as u8 + (n / 10 % 10) as u8) as char);
    r.push(('0' as u8 + (n % 10) as u8) as char);
    proof {
        let m = n as nat;
        assert(last_digits(m / 10 / 10 / 10, 0) =~= seq![]);
        assert(last_digits(m / 10 / 10, 1) =~= seq![digit_char(m / 10 / 10 % 10)]);
        assert(last_digits(m / 10, 2) =~= seq![
            digit_char(m / 10 / 10 % 10),
            digit_char(m / 10 % 10),
        ]);
        assert(m / 10 / 10 == m / 100);
        assert(last_digits(m, 3) =~= seq![
            digit_char(m / 100 % 10),
            digit_char(m / 10 % 10),
            digit_char(m % 10),
        ]);
        assert(r@ =~= head + seq![','] + last_digits(m, 3));
    }
    r
}

proof fn lemma_without_concat(a: Seq<char>, b: Seq<char>)
    ensures
        without_commas(a + b) == without_commas(a) + without_commas(b),
    decreases b.len(),
{
    if b.len() == 0 {
        assert(a + b =~= a);
        assert(without_commas(a) + without_commas(b) =~= without_commas(a));
    } else {
        lemma_without_concat(a, b.drop_last());
        assert((a + b).drop_last() =~= a + b.drop_last());
        assert(without_commas(a + b) =~= without_commas(a) + without_commas(b));
    }
}

proof fn lemma_digits_stay(s: Seq<char>)
    requires
        crate::decimal::all_digits(s),
    ensures
        without_commas(s) == s,
    decreases s.len(),
{
    if s.len() > 0 {
        assert(digit(s[s.len() - 1]));
        lemma_digits_stay(s.drop_last());
        assert(s.drop_last().push(s.last()) =~= s);
    } else {
        assert(without_commas(s) =~= s);
    }
}

/// The commas aside, the digits are those of the number.
pub proof fn law_grouping_adds_commas_only(n: nat)
    ensures
        without_commas(grouped(n)) == numeral(n),
    decreases n,
{
    crate::round_trip::lemma_numeral(n);
    if n < 1000 {
        lemma_digits_stay(numeral(n));
    } else {
        law_grouping_adds_commas_only(n / 1000);
        let comma = seq![','];
        let tail = last_digits(n, 3);
        lemma_without_concat(grouped(n / 1000) + comma, tail);
        lemma_without_concat(grouped(n / 1000), comma);
        let none = Seq::<char>::empty();
        assert(comma.drop_last() =~= none);
        assert(without_commas(none) =~= none);
        assert(without_commas(comma) == none);
        lemma_tail_digits(n);
        lemma_digits_stay(tail);
        let a = n / 10;
        let b = n / 10 / 10;
        assert(numeral(n) == numeral(a).push(digit_char(n % 10)));
        assert(numeral(a) == numeral(b).push(digit_char(a % 10)));
        assert(numeral(b) == numeral(b / 10).push(digit_char(b % 10)));
        assert(b / 10 == n / 1000);
        assert(last_digits(b / 10, 0) =~= seq![]);
        assert(last_digits(b, 1) =~= seq![digit_char(b % 10)]);
        assert(last_digits(a, 2) =~= seq![digit_char(b % 10), digit_char(a % 10)]);
        assert(tail =~= seq![digit_char(b % 10), digit_char(a % 10), digit_char(n % 10)]);
        assert(numeral(n) =~= numeral(n / 1000) + tail);
        assert(without_commas(grouped(n)) =~= numeral(n / 1000) + tail);
    }
}

proof fn lemma_tail_digits(n: nat)
    ensures
        crate::decimal::all_digits(last_digits(n, 3)),
{
    let a = n / 10;
    let b = n / 10 / 10;
    assert(last_digits(b / 10, 0) =~= seq![]);
    assert(last_digits(b, 1) =~= seq![digit_char(b % 10)]);
    assert(last_digits(a, 2) =~= seq![digit_char(b % 10), digit_char(a % 10)]);
    assert(last_digits(n, 3) =~= seq![digit_char(b % 10), digit_char(a % 10), digit_char(n % 10)]);
}

/// A row of the list.
#[derive(Debug)]
pub struct ResultItem {
    pub key: String,
    pub name: String,
    pub sub: String,
    pub selected: bool,
    pub deletable: bool,
}

/// What a row holds.
pub struct RowView {
    pub key: Seq<char>,
    pub name: Seq<char>,
    pub sub: Seq<char>,
    pub selected: bool,
    pub deletable: bool,
}

impl View for ResultItem {
    type V = RowView;

    open spec fn view(&self) -> RowView {
        RowView {
            key: self.key@,
            name: self.name@,
            sub: self.sub@,
            selected: self.selected,
            deletable: self.deletable,
        }
    }
}

/// What some rows hold.
pub open spec fn row_views(rows: Seq<ResultItem>) -> Seq<RowView> {
    Seq::new(rows.len(), |i: int| rows[i]@)
}

/// The row of a profile of the library. Its key is its path as a text, so that profiles of
/// the same name stay apart.
pub open spec fn saved_row(s: SavedView, v: EditorView) -> RowView {
    RowView {
        key: "lib:"@ + s.shown,
        name: s.profile.name,
        sub: "★ saved profile"@,
        selected: v.loaded_path == Some(s.path),
        deletable: true,
    }
}

proof fn lemma_found(library: Seq<SavedView>, i: int)
    requires
        0 <= i < library.len(),
        forall|j: int| 0 <= j < i ==> (#[trigger] library[j]).path != library[i].path,
    ensures
        find_saved(library, library[i].path) == Some(library[i]),
    decreases library.len(),
{
    if i > 0 {
        let rest = library.drop_first();
        assert(library[0].path != library[i].path);
        assert forall|j: int| 0 <= j < i - 1 implies (#[trigger] rest[j]).path != rest[i - 1].path by {
            assert(library[j + 1].path != library[i].path);
        }
        lemma_found(rest, i - 1);
    }
}

/// Choosing the row of a profile of the library loads that profile from that file, whatever
/// other profiles have the same name, as long as the path of the file is text.
pub proof fn law_row_loads_its_file(v: EditorView, i: int)
    requires
        0 <= i < v.library.len(),
        forall|j: int| 0 <= j < i ==> (#[trigger] v.library[j]).path != v.library[i].path,
        v.library[i].path == encode_utf8(v.library[i].shown),
    ensures
        ({
            let after = chosen(v, saved_row(v.library[i], v).key);
            &&& after.current == v.library[i].profile
            &&& after.loaded_path == Some(v.library[i].path)
            &&& saved_row(v.library[i], after).selected
        }),
{
    reveal_strlit("lib:");
    let key = saved_row(v.library[i], v).key;
    assert(key.take(4) =~= "lib:"@);
    assert(key.skip(4) =~= v.library[i].shown);
    assert(begins(key, "lib:"@));
    lemma_found(v.library, i);
}

/// The row of a profile of the catalog.
pub open spec fn catalog_row(p: ProfileView, v: EditorView) -> RowView {
    RowView {
        key: p.key,
        name: p.name,
        sub: p.form + " · "@ + p.source,
        selected: v.loaded_path is None && p.key == v.current.key,
        deletable: false,
    }
}

/// The rows of the profiles of the library whose names hold the query, both given in
/// lower case; all of them without a query.
pub open spec fn saved_rows(
    library: Seq<SavedView>,
    names: Seq<Seq<char>>,
    query: Seq<char>,
    v: EditorView,
) -> Seq<RowView>
    decreases library.len(),
{
    if library.len() == 0 {
        seq![]
    } else {
        let before = saved_rows(library.drop_last(), names, query, v);
        let i = library.len() - 1;
        if query.len() == 0 || holds(names[i], query) {
            before.push(saved_row(library[i], v))
        } else {
            before
        }
    }
}

/// The rows of the profiles that were found in the catalog.
pub open spec fn catalog_rows(hits: Seq<ProfileView>, v: EditorView) -> Seq<RowView> {
    Seq::new(hits.len(), |i: int| catalog_row(hits[i], v))
}

/// The line that says how many profiles there are.
pub open spec fn count_text(searching: bool, saved: nat, hits: nat) -> Seq<char> {
    if !searching {
        if saved == 0 {
            grouped(hits) + " models"@
        } else {
            grouped(hits) + " models · "@ + numeral(saved) + " saved"@
        }
    } else if saved + hits == 1 {
        "1 match"@
    } else {
        grouped(saved + hits) + " matches"@
    }
}

/// The line that says how many profiles there are.
pub fn count_line(searching: bool, saved: u64, hits: u64) -> (r: String)
    requires
        saved + hits <= u64::MAX,
    ensures
        r@ == count_text(searching, saved as nat, hits as nat),
{
    if !searching {
        if saved == 0 {
            thousands(hits).concat(" models")
        } else {
            thousands(hits).concat(" models · ").concat(&write_number(saved)).concat(" saved")
        }
    } else if saved + hits == 1 {
        "1 match".to_owned()
    } else {
        thousands(saved + hits).concat(" matches")
    }
}

/// The names of the profiles of a library in lower case.
pub open spec fn lower_saved(library: Seq<SavedView>) -> Seq<Seq<char>> {
    Seq::new(library.len(), |i: int| lowercase(library[i].profile.name))
}

impl Editor {
    /// The rows of the list: first the profiles of the library whose names hold the
    /// query, then what was found in the catalog. The names of the library and the query
    /// are given in lower case.
    pub fn rows(&self, names: &Vec<Vec<char>>, query: &Vec<char>, hits: &Vec<&AudioProfile>) -> (r:
        (Vec<ResultItem>, usize))
        requires
            names@.len() == self.library@.len(),
        ensures
            row_views(r.0@) == saved_rows(
                self@.library,
                views(names@),
                query@,
                self@,
            ) + catalog_rows(referred(hits@), self@),
            r.1 == saved_rows(self@.library, views(names@), query@, self@).len(),
            r.1 <= r.0@.len(),
    {
        let ghost v = self@;
        let ghost lib = v.library;
        let ghost lower = views(names@);
        let mut items: Vec<ResultItem> = Vec::new();
        assert(row_views(items@) =~= saved_rows(lib.take(0), lower, query@, v));
        for i in 0..self.library.len()
            invariant
                v == self@,
                lib == saved_views(self.library@),
                lower == views(names@),
                names@.len() == self.library@.len(),
                row_views(items@) == saved_rows(lib.take(i as int), lower, query@, v),
        {
            let s: &SavedProfile = &self.library[i];
            let ghost before = row_views(items@);
            assert(lib.take(i + 1).drop_last() =~= lib.take(i as int));
            assert(lib.take(i + 1)[i as int] == s@);
            if query.len() == 0 || holds_chars(&names[i], query) {
                let selected: bool = match &self.loaded_path {
                    Some(p) => same_bytes(p.as_slice(), s.path.as_slice()),
                    None => false,
                };
                items.push(
                    ResultItem {
                        key: "lib:".to_owned().concat(&s.shown),
                        name: s.profile.name.clone(),
                        sub: "★ saved profile".to_owned(),
                        selected,
                        deletable: true,
                    },
                );
                assert(row_views(items@) =~= before.push(saved_row(s@, v)));
            }
        }
        assert(lib.take(lib.len() as int) =~= lib);
        let saved: usize = items.len();
        let ghost first = row_views(items@);
        let ghost found = referred(hits@);
        assert(first + catalog_rows(found, v).take(0) =~= first);
        for i in 0..hits.len()
            invariant
                v == self@,
                found == referred(hits@),
                saved <= items@.len(),
                row_views(items@) =~= first + catalog_rows(found, v).take(i as int),
        {
            let p: &AudioProfile = hits[i];
            let ghost before = row_views(items@);
            let selected: bool = self.loaded_path.is_none() && same(&p.key, &self.current.key);
            items.push(
                ResultItem {
                    key: p.key.clone(),
                    name: p.name.clone(),
                    sub: p.form.clone().concat(" · ").concat(&p.source),
                    selected,
                    deletable: false,
                },
            );
            assert(row_views(items@) =~= before.push(catalog_row(p@, v)));
        }
        assert(catalog_rows(found, v).take(found.len() as int) =~= catalog_rows(found, v));
        (items, saved)
    }

    /// The list for a query: its rows, and the line that says how many there are. Nothing
    /// is cut off.
    pub fn refresh_results(&self, query: &str) -> (r: (Vec<ResultItem>, String))
        ensures
            exists|order: Seq<usize>, hits: Seq<ProfileView>|
                #[trigger] is_search(self@.catalog, query@, ""@, usize::MAX, order, hits) && shows(
                    self@,
                    query@,
                    hits,
                    row_views(r.0@),
                    r.1@,
                ),
    {
        let hits: Vec<&AudioProfile> = self.catalog.search(query, "", usize::MAX);
        let lower: Vec<char> = chars_of(&to_lowercase(query));
        let mut names: Vec<Vec<char>> = Vec::new();
        for i in 0..self.library.len()
            invariant
                names@.len() == i,
                views(names@) =~= lower_saved(self@.library).take(i as int),
        {
            let ghost before = views(names@);
            let name: Vec<char> = chars_of(&to_lowercase(&self.library[i].profile.name));
            let ghost n = name@;
            names.push(name);
            assert(views(names@) =~= before.push(n));
        }
        assert(views(names@) =~= lower_saved(self@.library));
        let (items, saved) = self.rows(&names, &lower, &hits);
        let found: usize = items.len() - saved;
        let count: String = count_line(!query.is_empty(), saved as u64, found as u64);
        proof {
            let first = saved_rows(self@.library, views(names@), lower@, self@);
            assert(row_views(items@).len() == first.len() + hits@.len());
            let order = choose|order: Seq<usize>|
                is_search(self@.catalog, query@, ""@, usize::MAX, order, referred(hits@));
            assert(is_search(self@.catalog, query@, ""@, usize::MAX, order, referred(hits@)));
            assert(shows(self@, query@, referred(hits@), row_views(items@), count@));
        }
        (items, count)
    }
}

/// The rows and the count line are those for a query, given what it finds in the
/// catalog.
pub open spec fn shows(
    v: EditorView,
    query: Seq<char>,
    hits: Seq<ProfileView>,
    rows: Seq<RowView>,
    count: Seq<char>,
) -> bool {
    let first = saved_rows(v.library, lower_saved(v.library), lowercase(query), v);
    rows == first + catalog_rows(hits, v) && count == count_text(
        query.len() > 0,
        first.len(),
        hits.len(),
    )
}

} // verus!
