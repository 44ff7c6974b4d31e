//! The catalog of measured corrections: validating its entries and searching it.

use std::io::Read;
use vstd::prelude::*;
use vstd::string::*;

use crate::double::Double;
use crate::order::{in_order, key_views, lemma_precedes_irreflexive, lemma_precedes_transitive, precedes, sorted, SortKey, SortKeyView};
use crate::profile::{
    byte_len, sane, sane_preamp, width, AudioProfile, FilterBand, ProfileView, GAIN_MAX, GAIN_MIN,
};
use crate::state::{band_views, capped, usable, usable_bands, StoredBand, StoredBandView};
use crate::text::{chars_of, holds, holds_chars, join_words, lowercase, push_all, same, same_chars, spaced, split_words, stands_at, stands_chars, to_lowercase, views, words};

verus! {

/// What `flate2` unpacks from the first member of a gzip stream, cut off after `limit`
/// bytes; the text of its error where the stream is damaged or what it holds is not UTF-8.
pub uninterp spec fn unpacked(data: Seq<u8>, limit: u64) -> Result<Seq<char>, Seq<char>>;

/// `flate2::read::GzDecoder`, read to the end through `Read::take` and
/// `Read::read_to_string`: the text of the first member of a gzip stream, cut off
/// after `limit` bytes, or the text of the error. Which of the two it is, and which text,
/// depends on the stream and the limit alone; what is unpacked is never longer than the
/// limit.
#[verifier::external_body]
fn gunzip(data: &[u8], limit: u64) -> (r: Result<String, String>)
    ensures
        unpacked(data@, limit) == match r {
            Ok(t) => Ok(t@),
            Err(e) => Err(e@),
        },
        r matches Ok(t) ==> byte_len(t@) <= limit,
{
    let mut text = String::new();
    match flate2::read::GzDecoder::new(data).take(limit).read_to_string(&mut text) {
        Ok(_) => Ok(text),
        Err(e) => Err(e.to_string()),
    }
}

/// Why a catalog could not be read.
#[derive(Debug, PartialEq, Eq)]
pub enum CatalogError {
    /// The compressed stream is damaged, or does not hold text. What is wrong with it is
    /// said in words.
    Damaged(String),
}

impl CatalogError {
    /// What the user is told.
    pub fn message(&self) -> (r: String)
        ensures
            self matches CatalogError::Damaged(text) && r@ == text@,
    {
        match self {
            CatalogError::Damaged(text) => text.clone(),
        }
    }
}

/// Cap on the unpacked size of a catalog: 64 MiB. A small stream can unpack to
/// gigabytes.
pub const MAX_CATALOG_BYTES: u64 = 67_108_864;

/// The text of a compressed catalog, no more than [`MAX_CATALOG_BYTES`] of it, or what is
/// wrong with it.
pub fn unpack_catalog(data: &[u8]) -> (r: Result<String, CatalogError>)
    ensures
        unpacked(data@, MAX_CATALOG_BYTES) == match r {
            Ok(t) => Ok(t@),
            Err(CatalogError::Damaged(text)) => Err(text@),
        },
        r matches Ok(t) ==> byte_len(t@) <= MAX_CATALOG_BYTES,
{
    match gunzip(data, MAX_CATALOG_BYTES) {
        Ok(text) => Ok(text),
        Err(text) => Err(CatalogError::Damaged(text)),
    }
}

/// An entry of the catalog as it is read, before it is validated.
#[derive(Debug)]
pub struct RawProfile {
    pub key: String,
    pub name: String,
    pub source: String,
    pub form: String,
    pub preamp: Double,
    pub bands: Vec<StoredBand>,
}

/// What a raw entry holds.
pub struct RawProfileView {
    pub key: Seq<char>,
    pub name: Seq<char>,
    pub source: Seq<char>,
    pub form: Seq<char>,
    pub preamp: Double,
    pub bands: Seq<StoredBandView>,
}

impl View for RawProfile {
    type V = RawProfileView;

    open spec fn view(&self) -> RawProfileView {
        RawProfileView {
            key: self.key@,
            name: self.name@,
            source: self.source@,
            form: self.form@,
            preamp: self.preamp,
            bands: band_views(self.bands@),
        }
    }
}

/// The one-line description of an entry: its form factor and who measured it, as
/// far as they are known.
pub open spec fn entry_detail(form: Seq<char>, source: Seq<char>) -> Seq<char> {
    if form.len() == 0 && source.len() == 0 {
        "AutoEq correction"@
    } else if source.len() == 0 {
        form
    } else if form.len() == 0 {
        "measured by "@ + source
    } else {
        form + " · "@ + "measured by "@ + source
    }
}

/// The profile of a raw entry; none where it has no usable band.
pub open spec fn entry(raw: RawProfileView) -> Option<ProfileView> {
    let bands = usable(capped(raw.bands));
    if bands.len() == 0 {
        None
    } else {
        Some(
            ProfileView {
                key: raw.key,
                name: raw.name,
                detail: entry_detail(raw.form, raw.source),
                source: raw.source,
                form: raw.form,
                preamp: sane(raw.preamp, 0, GAIN_MIN, GAIN_MAX),
                bands,
            },
        )
    }
}

/// The profiles of the entries that have one, in order.
pub open spec fn entries(raw: Seq<RawProfileView>) -> Seq<ProfileView>
    decreases raw.len(),
{
    if raw.len() == 0 {
        seq![]
    } else {
        let before = entries(raw.drop_last());
        match entry(raw.last()) {
            Some(p) => before.push(p),
            None => before,
        }
    }
}

/// The profile of a raw entry; none where it has no usable band.
pub fn to_profile(raw: RawProfile) -> (r: Option<AudioProfile>)
    ensures
        r is Some <==> entry(raw@) is Some,
        r matches Some(p) ==> Some(p@) == entry(raw@) && p@.valid(),
{
    let bands: Vec<FilterBand> = usable_bands(&raw.bands);
    if bands.len() == 0 {
        return None;
    }
    let mut detail: String = String::new();
    let has_form: bool = !raw.form.as_str().is_empty();
    let has_source: bool = !raw.source.as_str().is_empty();
    if !has_form && !has_source {
        detail.append("AutoEq correction");
    } else {
        if has_form {
            detail.append(&raw.form);
            if has_source {
                detail.append(" · ");
            }
        }
        if has_source {
            detail.append("measured by ");
            detail.append(&raw.source);
        }
    }
    assert(detail@ =~= entry_detail(raw.form@, raw.source@));
    Some(
        AudioProfile {
            key: raw.key,
            name: raw.name,
            detail,
            source: raw.source,
            form: raw.form,
            preamp: sane_preamp(raw.preamp),
            bands,
        },
    )
}

/// The profiles of a catalog.
pub struct Catalog {
    entries: Vec<AudioProfile>,
}

/// What some profiles hold.
pub open spec fn profile_views(profiles: Seq<AudioProfile>) -> Seq<ProfileView> {
    Seq::new(profiles.len(), |i: int| profiles[i]@)
}

/// What some raw entries hold.
pub open spec fn raw_views(raw: Seq<RawProfile>) -> Seq<RawProfileView> {
    Seq::new(raw.len(), |i: int| raw[i]@)
}

impl View for Catalog {
    type V = Seq<ProfileView>;

    closed spec fn view(&self) -> Seq<ProfileView> {
        profile_views(self.entries@)
    }
}

/// The first profile with the given key.
pub open spec fn find_profile(profiles: Seq<ProfileView>, key: Seq<char>) -> Option<ProfileView>
    decreases profiles.len(),
{
    if profiles.len() == 0 {
        None
    } else if profiles[0].key == key {
        Some(profiles[0])
    } else {
        find_profile(profiles.drop_first(), key)
    }
}

/// The search terms of a query in lower case: its words.
pub open spec fn terms(query: Seq<char>) -> Seq<Seq<char>> {
    words(query)
}

/// Every term stands in the name or the source of an entry, all in lower case.
pub open spec fn matches_terms(name: Seq<char>, source: Seq<char>, query: Seq<char>) -> bool {
    forall|i: int|
        0 <= i < terms(query).len() ==> holds(
            name + seq![' '] + source,
            #[trigger] terms(query)[i],
        )
}

/// How tightly a query matches a name, both in lower case: best of all the whole
/// name, then its start, then a part of it. Among equals the shorter name is
/// better, up to 40 bytes. Without a query all names match alike.
pub open spec fn score(name: Seq<char>, query: Seq<char>) -> int {
    let joined = spaced(terms(query));
    let length = if byte_len(name) < 40 {
        byte_len(name) as int
    } else {
        40
    };
    if terms(query).len() == 0 {
        0
    } else if name == joined {
        2000 - length
    } else if stands_at(name, joined, 0) {
        1400 - length
    } else if holds(name, joined) {
        900 - length
    } else {
        400 - length
    }
}

/// The names and sources of entries in lower case, with their scores.
pub open spec fn search_keys(
    names: Seq<Seq<char>>,
    sources: Seq<Seq<char>>,
    query: Seq<char>,
) -> Seq<SortKeyView> {
    Seq::new(
        names.len(),
        |i: int|
            SortKeyView { score: score(names[i], query), name: names[i], source: sources[i] },
    )
}

/// `order` holds the entries that fit and match, each once, best first.
pub open spec fn is_ranking(
    names: Seq<Seq<char>>,
    sources: Seq<Seq<char>>,
    fits: Seq<bool>,
    query: Seq<char>,
    order: Seq<usize>,
) -> bool {
    &&& in_order(search_keys(names, sources, query), order)
    &&& forall|i: usize| #[trigger]
        order.contains(i) <==> i < names.len() && fits[i as int] && matches_terms(
            names[i as int],
            sources[i as int],
            query,
        )
}

/// There is only one ranking.
pub proof fn law_ranking_unique(
    names: Seq<Seq<char>>,
    sources: Seq<Seq<char>>,
    fits: Seq<bool>,
    query: Seq<char>,
    a: Seq<usize>,
    b: Seq<usize>,
)
    requires
        is_ranking(names, sources, fits, query, a),
        is_ranking(names, sources, fits, query, b),
    ensures
        a == b,
{
    let keys = search_keys(names, sources, query);
    assert forall|i: usize| #[trigger] a.contains(i) <==> b.contains(i) by {}
    lemma_order_unique(keys, a, b);
}

proof fn lemma_order_unique(keys: Seq<SortKeyView>, a: Seq<usize>, b: Seq<usize>)
    requires
        in_order(keys, a),
        in_order(keys, b),
        forall|i: usize| #[trigger] a.contains(i) <==> b.contains(i),
    ensures
        a == b,
    decreases a.len(),
{
    if a.len() == 0 {
        if b.len() > 0 {
            assert(b.contains(b[0]));
            assert(a.contains(b[0]));
        }
        assert(a =~= b);
    } else {
        assert(a.contains(a[0]));
        assert(b.contains(a[0]));
        let k = choose|k: int| 0 <= k < b.len() && b[k] == a[0];
        assert(b.contains(b[0]));
        assert(a.contains(b[0]));
        let j = choose|j: int| 0 <= j < a.len() && a[j] == b[0];
        if k > 0 && j > 0 {
            assert(precedes(keys, b[0] as int, b[k] as int));
            assert(precedes(keys, a[0] as int, a[j] as int));
            lemma_precedes_transitive(keys, a[0] as int, b[0] as int, a[0] as int);
            lemma_precedes_irreflexive(keys, a[0] as int);
        }
        assert(a[0] == b[0]);
        let x = a.drop_first();
        let y = b.drop_first();
        assert forall|i: usize| #[trigger] x.contains(i) <==> y.contains(i) by {
            lemma_tail_contains(keys, a, i);
            lemma_tail_contains(keys, b, i);
            assert(a.contains(i) <==> b.contains(i));
        }
        assert forall|p: int, q: int| 0 <= p < q < x.len() implies precedes(
            keys,
            #[trigger] x[p] as int,
            #[trigger] x[q] as int,
        ) by {
            assert(precedes(keys, a[p + 1] as int, a[q + 1] as int));
        }
        assert forall|p: int, q: int| 0 <= p < q < y.len() implies precedes(
            keys,
            #[trigger] y[p] as int,
            #[trigger] y[q] as int,
        ) by {
            assert(precedes(keys, b[p + 1] as int, b[q + 1] as int));
        }
        lemma_order_unique(keys, x, y);
        assert(a =~= seq![a[0]] + x);
        assert(b =~= seq![b[0]] + y);
    }
}

proof fn lemma_tail_contains(keys: Seq<SortKeyView>, a: Seq<usize>, i: usize)
    requires
        a.len() > 0,
        in_order(keys, a),
    ensures
        a.drop_first().contains(i) <==> a.contains(i) && i != a[0],
{
    let x = a.drop_first();
    if x.contains(i) {
        let p = choose|p: int| 0 <= p < x.len() && x[p] == i;
        assert(a[p + 1] == i);
        assert(precedes(keys, a[0] as int, a[p + 1] as int));
        lemma_precedes_irreflexive(keys, a[0] as int);
    }
    if a.contains(i) && i != a[0] {
        let p = choose|p: int| 0 <= p < a.len() && a[p] == i;
        assert(x[p - 1] == i);
    }
}

fn text_size(v: &Vec<char>) -> (r: u32)
    ensures
        r == if byte_len(v@) < 40 {
            byte_len(v@)
        } else {
            40
        },
{
    let mut size: usize = 0;
    let mut n: usize = 0;
    assert(v@.take(0) =~= Seq::<char>::empty());
    while n < v.len() && size < 40
        invariant
            n <= v@.len(),
            size == byte_len(v@.take(n as int)),
            size < 44,
        decreases v@.len() - n,
    {
        assert(v@.take(n + 1).drop_last() =~= v@.take(n as int));
        size = size + width(v[n]);
        n = n + 1;
    }
    proof {
        crate::profile::lemma_byte_len_grows(v@, n as int, v@.len() as int);
        assert(v@.take(v@.len() as int) =~= v@);
    }
    if size < 40 {
        size as u32
    } else {
        40
    }
}

/// Whether every term stands in a text.
fn holds_all(hay: &Vec<char>, query: &Vec<Vec<char>>) -> (r: bool)
    ensures
        r == forall|i: int|
            0 <= i < views(query@).len() ==> holds(hay@, #[trigger] views(query@)[i]),
{
    for i in 0..query.len()
        invariant
            forall|j: int| 0 <= j < i ==> holds(hay@, #[trigger] views(query@)[j]),
    {
        if !holds_chars(hay, &query[i]) {
            assert(!holds(hay@, views(query@)[i as int]));
            return false;
        }
    }
    true
}

/// The entries that fit and match a query, best first. Names, sources and query are
/// in lower case.
pub fn ranking(
    names: &Vec<Vec<char>>,
    sources: &Vec<Vec<char>>,
    fits: &Vec<bool>,
    query: &Vec<char>,
) -> (r: Vec<usize>)
    requires
        names@.len() == sources@.len(),
        names@.len() == fits@.len(),
    ensures
        is_ranking(views(names@), views(sources@), fits@, query@, r@),
{
    let query_terms: Vec<Vec<char>> = split_words(query);
    let joined: Vec<char> = join_words(&query_terms);
    let mut keys: Vec<SortKey> = Vec::new();
    let mut found: Vec<usize> = Vec::new();
    let ghost all = search_keys(views(names@), views(sources@), query@);
    for i in 0..names.len()
        invariant
            names@.len() == sources@.len(),
            names@.len() == fits@.len(),
            views(query_terms@) == terms(query@),
            joined@ == spaced(terms(query@)),
            all == search_keys(views(names@), views(sources@), query@),
            key_views(keys@) =~= all.take(i as int),
            keys@.len() == i,
            found@.no_duplicates(),
            forall|j: int| 0 <= j < found@.len() ==> #[trigger] found@[j] < i,
            forall|j: usize| #[trigger]
                found@.contains(j) <==> j < i && fits@[j as int] && matches_terms(
                    views(names@)[j as int],
                    views(sources@)[j as int],
                    query@,
                ),
    {
        let name: &Vec<char> = &names[i];
        let mut hay: Vec<char> = Vec::new();
        push_all(&mut hay, name);
        hay.push(' ');
        push_all(&mut hay, &sources[i]);
        assert(hay@ =~= name@ + seq![' '] + sources@[i as int]@);
        let length: u32 = text_size(name);
        let points: u32 = if query_terms.len() == 0 {
            0
        } else if same_chars(name, &joined) {
            2000 - length
        } else if stands_chars(name, &joined, 0) {
            1400 - length
        } else if holds_chars(name, &joined) {
            900 - length
        } else {
            400 - length
        };
        let mut key_name: Vec<char> = Vec::new();
        push_all(&mut key_name, name);
        let mut key_source: Vec<char> = Vec::new();
        push_all(&mut key_source, &sources[i]);
        let ghost before = keys@;
        assert(key_name@ =~= name@);
        assert(key_source@ =~= sources@[i as int]@);
        keys.push(SortKey { score: points, name: key_name, source: key_source });
        assert(key_views(keys@) =~= key_views(before).push(all[i as int]));
        let ghost listed = found@;
        if fits[i] && holds_all(&hay, &query_terms) {
            found.push(i);
            assert(found@[listed.len() as int] == i);
            assert forall|j: usize| #[trigger] found@.contains(j) <==> listed.contains(j) || j == i by {
                if listed.contains(j) {
                    let p = choose|p: int| 0 <= p < listed.len() && listed[p] == j;
                    assert(found@[p] == j);
                }
            }
        }
        assert(matches_terms(views(names@)[i as int], views(sources@)[i as int], query@)
            == forall|k: int|
            0 <= k < terms(query@).len() ==> holds(hay@, #[trigger] terms(query@)[k]));
    }
    let r: Vec<usize> = sorted(&keys, &found);
    proof {
        broadcast use vstd::seq_lib::group_to_multiset_ensures;
        assert(key_views(keys@) =~= all);
        assert forall|i: usize| #[trigger] r@.contains(i) <==> found@.contains(i) by {
            assert(r@.to_multiset().count(i) == found@.to_multiset().count(i));
        }
    }
    r
}

/// The names of profiles in lower case.
pub open spec fn lower_names(profiles: Seq<ProfileView>) -> Seq<Seq<char>> {
    Seq::new(profiles.len(), |i: int| lowercase(profiles[i].name))
}

/// The sources of profiles in lower case.
pub open spec fn lower_sources(profiles: Seq<ProfileView>) -> Seq<Seq<char>> {
    Seq::new(profiles.len(), |i: int| lowercase(profiles[i].source))
}

/// Which profiles have the form factor; all of them where it is empty.
pub open spec fn fitting(profiles: Seq<ProfileView>, form: Seq<char>) -> Seq<bool> {
    Seq::new(profiles.len(), |i: int| form.len() == 0 || profiles[i].form == form)
}

/// What some borrowed profiles hold.
pub open spec fn referred(profiles: Seq<&AudioProfile>) -> Seq<ProfileView> {
    Seq::new(profiles.len(), |i: int| profiles[i]@)
}

/// `found` are the first of the profiles that fit and match, best first.
pub open spec fn is_search(
    profiles: Seq<ProfileView>,
    query: Seq<char>,
    form: Seq<char>,
    limit: usize,
    order: Seq<usize>,
    found: Seq<ProfileView>,
) -> bool {
    &&& is_ranking(
        lower_names(profiles),
        lower_sources(profiles),
        fitting(profiles, form),
        lowercase(query),
        order,
    )
    &&& found.len() == if order.len() < limit {
        order.len()
    } else {
        limit as nat
    }
    &&& forall|i: int| 0 <= i < found.len() ==> #[trigger] found[i] == profiles[order[i] as int]
}

impl Catalog {
    /// The catalog of some raw entries, less those without a usable band.
    pub fn from_raw(raw: Vec<RawProfile>) -> (r: Catalog)
        ensures
            r@ == entries(raw_views(raw@)),
            forall|i: int| 0 <= i < r@.len() ==> (#[trigger] r@[i]).valid(),
    {
        let ghost all = raw_views(raw@);
        let mut entries: Vec<AudioProfile> = Vec::new();
        assert(profile_views(entries@) =~= crate::catalog::entries(all.take(0)));
        for one in it: raw
            invariant
                all == raw_views(it.seq()),
                profile_views(entries@) == crate::catalog::entries(all.take(it.index() as int)),
                forall|i: int|
                    0 <= i < entries@.len() ==> (#[trigger] profile_views(entries@)[i]).valid(),
        {
            let ghost before = entries@;
            assert(all.take(it.index() + 1).drop_last() =~= all.take(it.index() as int));
            assert(all.take(it.index() + 1).last() == one@);
            if let Some(p) = to_profile(one) {
                let ghost v = p@;
                entries.push(p);
                assert(profile_views(entries@) =~= profile_views(before).push(v));
            }
        }
        assert(all.take(all.len() as int) =~= all);
        Catalog { entries }
    }

    /// The number of profiles.
    pub fn len(&self) -> (r: usize)
        ensures
            r == self@.len(),
    {
        self.entries.len()
    }

    /// Whether there is no profile.
    pub fn is_empty(&self) -> (r: bool)
        ensures
            r == (self@.len() == 0),
    {
        self.entries.len() == 0
    }

    /// The first profile with the given key.
    pub fn get(&self, key: &str) -> (r: Option<&AudioProfile>)
        ensures
            find_profile(self@, key@) == match r {
                Some(p) => Some(p@),
                None => None,
            },
    {
        assert(self@.skip(0) =~= self@);
        for i in 0..self.entries.len()
            invariant
                find_profile(self@, key@) == find_profile(self@.skip(i as int), key@),
        {
            let ghost rest = self@.skip(i as int);
            assert(rest[0] == self.entries@[i as int]@);
            if same(&self.entries[i].key, key) {
                return Some(&self.entries[i]);
            }
            assert(rest.drop_first() =~= self@.skip(i + 1));
        }
        assert(self@.skip(self@.len() as int) =~= seq![]);
        None
    }

    /// The profiles that match a query and have the given form factor, best first,
    /// at most `limit` of them. An empty form factor stands for all.
    pub fn search(&self, query: &str, form: &str, limit: usize) -> (r: Vec<&AudioProfile>)
        ensures
            exists|order: Seq<usize>|
                is_search(self@, query@, form@, limit, order, referred(r@)),
    {
        let mut names: Vec<Vec<char>> = Vec::new();
        let mut sources: Vec<Vec<char>> = Vec::new();
        let mut fits: Vec<bool> = Vec::new();
        for i in 0..self.entries.len()
            invariant
                names@.len() == i,
                sources@.len() == i,
                views(names@) =~= lower_names(self@).take(i as int),
                views(sources@) =~= lower_sources(self@).take(i as int),
                fits@ =~= fitting(self@, form@).take(i as int),
        {
            let e: &AudioProfile = &self.entries[i];
            assert(self@[i as int] == e@);
            let ghost n = views(names@);
            let ghost s = views(sources@);
            let name: Vec<char> = chars_of(&to_lowercase(&e.name));
            let source: Vec<char> = chars_of(&to_lowercase(&e.source));
            let ghost nv = name@;
            let ghost sv = source@;
            names.push(name);
            sources.push(source);
            fits.push(form.is_empty() || same(&e.form, form));
            assert(views(names@) =~= n.push(nv));
            assert(views(sources@) =~= s.push(sv));
        }
        assert(views(names@) =~= lower_names(self@));
        assert(views(sources@) =~= lower_sources(self@));
        assert(fits@ =~= fitting(self@, form@));
        let order: Vec<usize> = ranking(&names, &sources, &fits, &chars_of(&to_lowercase(query)));
        let n: usize = if order.len() < limit { order.len() } else { limit };
        let mut r: Vec<&AudioProfile> = Vec::new();
        for i in 0..n
            invariant
                n <= order@.len(),
                r@.len() == i,
                views(names@) == lower_names(self@),
                is_ranking(views(names@), views(sources@), fits@, lowercase(query@), order@),
                forall|j: int| 0 <= j < i ==> (#[trigger] r@[j])@ == self@[order@[j] as int],
        {
            assert(order@.contains(order@[i as int]));
            let k: usize = order[i];
            assert(k < lower_names(self@).len());
            r.push(&self.entries[k]);
            assert(self@[k as int] == self.entries@[k as int]@);
        }
        assert(is_search(self@, query@, form@, limit, order@, referred(r@)));
        r
    }
}

/// What a search finds has the form factor asked for, matches every term, and is no
/// more than the limit.
pub proof fn law_search_finds_matches(
    profiles: Seq<ProfileView>,
    query: Seq<char>,
    form: Seq<char>,
    limit: usize,
    order: Seq<usize>,
    found: Seq<ProfileView>,
    i: int,
)
    requires
        is_search(profiles, query, form, limit, order, found),
        0 <= i < found.len(),
    ensures
        found.len() <= limit,
        profiles.contains(found[i]),
        form.len() == 0 || found[i].form == form,
        matches_terms(lowercase(found[i].name), lowercase(found[i].source), lowercase(query)),
{
    assert(order.contains(order[i]));
    assert(found[i] == profiles[order[i] as int]);
    assert(fitting(profiles, form)[order[i] as int]);
}

/// Every profile that has the form factor and matches every term is found, as long
/// as the limit leaves room.
pub proof fn law_search_finds_all(
    profiles: Seq<ProfileView>,
    query: Seq<char>,
    form: Seq<char>,
    limit: usize,
    order: Seq<usize>,
    found: Seq<ProfileView>,
    k: usize,
)
    requires
        is_search(profiles, query, form, limit, order, found),
        found.len() < limit,
        k < profiles.len(),
        form.len() == 0 || profiles[k as int].form == form,
        matches_terms(
            lowercase(profiles[k as int].name),
            lowercase(profiles[k as int].source),
            lowercase(query),
        ),
    ensures
        found.contains(profiles[k as int]),
{
    assert(fitting(profiles, form)[k as int]);
    assert(order.contains(k));
    let i = choose|i: int| 0 <= i < order.len() && order[i] == k;
    assert(found[i] == profiles[order[i] as int]);
}

} // verus!
