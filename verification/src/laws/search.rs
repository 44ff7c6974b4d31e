//! The catalog: what a search finds, and in which order.

use vstd::prelude::*;

use crate::catalog::{
    entries, entry, find_profile, is_ranking, is_search, law_ranking_unique, lower_names,
    lower_sources, search_keys, RawProfileView,
};
use crate::double::{double, lemma_order, whole};
use crate::laws::text::law_word_alone;
use crate::order::{lex, precedes};
use crate::profile::{byte_len, lemma_bounds, ProfileView, GAIN_MAX, GAIN_MIN};
use crate::text::{holds, lowercase, spaced, stands_at, white, words};

verus! {

/// Where a key is in the catalog, a profile of that key is found, and only then.
pub proof fn law_get_finds_the_key(profiles: Seq<ProfileView>, key: Seq<char>)
    ensures
        find_profile(profiles, key) is Some <==> exists|i: int|
            0 <= i < profiles.len() && (#[trigger] profiles[i]).key == key,
        find_profile(profiles, key) matches Some(p) ==> p.key == key && profiles.contains(p),
    decreases profiles.len(),
{
    if profiles.len() > 0 {
        let rest = profiles.drop_first();
        law_get_finds_the_key(rest, key);
        if profiles[0].key == key {
            assert(profiles.contains(profiles[0]));
        } else {
            if exists|i: int| 0 <= i < profiles.len() && (#[trigger] profiles[i]).key == key {
                let i = choose|i: int| 0 <= i < profiles.len() && (#[trigger] profiles[i]).key == key;
                assert(rest[i - 1].key == key);
            }
            if find_profile(rest, key) is Some {
                let p = find_profile(rest, key)->0;
                let j = choose|j: int| 0 <= j < rest.len() && rest[j] == p;
                assert(profiles[j + 1] == p);
                assert(profiles.contains(p));
            }
        }
    }
}

/// Of profiles with the same key the first one is found.
pub proof fn law_get_finds_the_first(profiles: Seq<ProfileView>, k: int)
    requires
        0 <= k < profiles.len(),
        forall|j: int| 0 <= j < k ==> (#[trigger] profiles[j]).key != profiles[k].key,
    ensures
        find_profile(profiles, profiles[k].key) == Some(profiles[k]),
    decreases profiles.len(),
{
    if k > 0 {
        let rest = profiles.drop_first();
        assert(profiles[0].key != profiles[k].key);
        assert forall|j: int| 0 <= j < k - 1 implies (#[trigger] rest[j]).key != rest[k - 1].key by {
            assert(profiles[j + 1].key != profiles[k].key);
        }
        law_get_finds_the_first(rest, k - 1);
    }
}

/// `t` is a contiguous part of `s`.
pub open spec fn part(s: Seq<char>, t: Seq<char>) -> bool {
    exists|at: int| 0 <= at && at + t.len() <= s.len() && #[trigger] s.subrange(at, at + t.len()) == t
}

proof fn lemma_part(s: Seq<char>, t: Seq<char>)
    ensures
        part(s, t) == holds(s, t),
{
    if part(s, t) {
        let at = choose|at: int|
            0 <= at && at + t.len() <= s.len() && #[trigger] s.subrange(at, at + t.len()) == t;
        assert(stands_at(s, t, at));
    }
    if holds(s, t) {
        let at = choose|at: int| stands_at(s, t, at);
        assert(s.subrange(at, at + t.len()) == t);
    }
}

/// An entry is ranked exactly where it is of the form asked for and every word of the query is a
/// contiguous part of its name, a space and its source, at any place.
pub proof fn law_ranked_by_parts(
    names: Seq<Seq<char>>,
    sources: Seq<Seq<char>>,
    fits: Seq<bool>,
    query: Seq<char>,
    order: Seq<usize>,
    i: usize,
)
    requires
        is_ranking(names, sources, fits, query, order),
        names.len() == sources.len(),
        i < names.len(),
    ensures
        order.contains(i) <==> fits[i as int] && forall|k: int|
            0 <= k < words(query).len() ==> part(
                names[i as int] + seq![' '] + sources[i as int],
                #[trigger] words(query)[k],
            ),
{
    let hay = names[i as int] + seq![' '] + sources[i as int];
    assert forall|k: int| 0 <= k < words(query).len() implies part(hay, #[trigger] words(query)[k])
        == holds(hay, words(query)[k]) by {
        lemma_part(hay, words(query)[k]);
    }
}

/// No entry is ranked twice, and nothing else is.
pub proof fn law_ranked_once(
    names: Seq<Seq<char>>,
    sources: Seq<Seq<char>>,
    fits: Seq<bool>,
    query: Seq<char>,
    order: Seq<usize>,
    a: int,
    b: int,
)
    requires
        is_ranking(names, sources, fits, query, order),
        0 <= a < b < order.len(),
    ensures
        order[a] != order[b],
        order[a] < names.len(),
{
    let keys = search_keys(names, sources, query);
    assert(precedes(keys, order[a] as int, order[b] as int));
    if order[a] == order[b] {
        crate::order::lemma_precedes_irreflexive(keys, order[a] as int);
    }
    assert(order.contains(order[a]));
}

/// A search for a single word finds every profile of whose name, in lower case, it is a part, at
/// any place and not only where a word begins; the form has to be the one asked for, and the
/// limit to leave room.
pub proof fn law_part_of_a_name_is_found(
    profiles: Seq<ProfileView>,
    query: Seq<char>,
    form: Seq<char>,
    limit: usize,
    order: Seq<usize>,
    found: Seq<ProfileView>,
    k: usize,
    a: Seq<char>,
    b: Seq<char>,
)
    requires
        is_search(profiles, query, form, limit, order, found),
        found.len() < limit,
        k < profiles.len(),
        form.len() == 0 || profiles[k as int].form == form,
        lowercase(query).len() > 0,
        forall|i: int| 0 <= i < lowercase(query).len() ==> !white(#[trigger] lowercase(query)[i]),
        lowercase(profiles[k as int].name) == a + lowercase(query) + b,
    ensures
        found.contains(profiles[k as int]),
{
    let t = lowercase(query);
    let hay = lowercase(profiles[k as int].name) + seq![' '] + lowercase(profiles[k as int].source);
    assert(hay.subrange(a.len() as int, a.len() as int + t.len()) =~= t);
    lemma_single(profiles, query, form, limit, order, found, k, a.len() as int);
}

/// So does a search for a part of the source.
pub proof fn law_part_of_a_source_is_found(
    profiles: Seq<ProfileView>,
    query: Seq<char>,
    form: Seq<char>,
    limit: usize,
    order: Seq<usize>,
    found: Seq<ProfileView>,
    k: usize,
    a: Seq<char>,
    b: Seq<char>,
)
    requires
        is_search(profiles, query, form, limit, order, found),
        found.len() < limit,
        k < profiles.len(),
        form.len() == 0 || profiles[k as int].form == form,
        lowercase(query).len() > 0,
        forall|i: int| 0 <= i < lowercase(query).len() ==> !white(#[trigger] lowercase(query)[i]),
        lowercase(profiles[k as int].source) == a + lowercase(query) + b,
    ensures
        found.contains(profiles[k as int]),
{
    let t = lowercase(query);
    let name = lowercase(profiles[k as int].name);
    let hay = name + seq![' '] + lowercase(profiles[k as int].source);
    let at: int = name.len() as int + 1 + a.len();
    assert(hay.subrange(at, at + t.len()) =~= t);
    lemma_single(profiles, query, form, limit, order, found, k, at);
}

proof fn lemma_single(
    profiles: Seq<ProfileView>,
    query: Seq<char>,
    form: Seq<char>,
    limit: usize,
    order: Seq<usize>,
    found: Seq<ProfileView>,
    k: usize,
    at: int,
)
    requires
        is_search(profiles, query, form, limit, order, found),
        found.len() < limit,
        k < profiles.len(),
        form.len() == 0 || profiles[k as int].form == form,
        lowercase(query).len() > 0,
        forall|i: int| 0 <= i < lowercase(query).len() ==> !white(#[trigger] lowercase(query)[i]),
        stands_at(
            lowercase(profiles[k as int].name) + seq![' '] + lowercase(profiles[k as int].source),
            lowercase(query),
            at,
        ),
    ensures
        found.contains(profiles[k as int]),
{
    let t = lowercase(query);
    let names = lower_names(profiles);
    let sources = lower_sources(profiles);
    let fits = crate::catalog::fitting(profiles, form);
    law_word_alone(t);
    let hay = names[k as int] + seq![' '] + sources[k as int];
    assert(holds(hay, t));
    lemma_part(hay, t);
    law_ranked_by_parts(names, sources, fits, t, order, k);
    assert(words(t)[0] == t);
    assert(order.contains(k));
    let p = choose|p: int| 0 <= p < order.len() && order[p] == k;
    assert(found[p] == profiles[k as int]);
}

/// A search for several words finds exactly the profiles of the form asked for of whose name, a
/// space and whose source, in lower case, each of the words is a part; as far as the limit
/// leaves room.
pub proof fn law_search_is_by_parts(
    profiles: Seq<ProfileView>,
    query: Seq<char>,
    form: Seq<char>,
    limit: usize,
    order: Seq<usize>,
    found: Seq<ProfileView>,
    p: ProfileView,
)
    requires
        is_search(profiles, query, form, limit, order, found),
        profiles.len() <= usize::MAX,
        found.len() < limit,
    ensures
        found.contains(p) <==> profiles.contains(p) && (form.len() == 0 || p.form == form) && forall|
            k: int,
        |
            0 <= k < words(lowercase(query)).len() ==> part(
                lowercase(p.name) + seq![' '] + lowercase(p.source),
                #[trigger] words(lowercase(query))[k],
            ),
{
    let names = lower_names(profiles);
    let sources = lower_sources(profiles);
    let fits = crate::catalog::fitting(profiles, form);
    if found.contains(p) {
        let i = choose|i: int| 0 <= i < found.len() && found[i] == p;
        let k = order[i];
        assert(order.contains(k));
        law_ranked_by_parts(names, sources, fits, lowercase(query), order, k);
        assert(profiles[k as int] == p);
    }
    if profiles.contains(p) && (form.len() == 0 || p.form == form) && forall|k: int|
        0 <= k < words(lowercase(query)).len() ==> part(
            lowercase(p.name) + seq![' '] + lowercase(p.source),
            #[trigger] words(lowercase(query))[k],
        ) {
        let j = choose|j: int| 0 <= j < profiles.len() && profiles[j] == p;
        law_ranked_by_parts(names, sources, fits, lowercase(query), order, j as usize);
        assert(order.contains(j as usize));
        let i = choose|i: int| 0 <= i < order.len() && order[i] == j as usize;
        assert(found[i] == p);
    }
}

/// A smaller limit cuts the same list off earlier.
pub proof fn law_limit_cuts_off(
    profiles: Seq<ProfileView>,
    query: Seq<char>,
    form: Seq<char>,
    few: usize,
    many: usize,
    a: Seq<usize>,
    b: Seq<usize>,
    found_few: Seq<ProfileView>,
    found_many: Seq<ProfileView>,
    i: int,
)
    requires
        is_search(profiles, query, form, few, a, found_few),
        is_search(profiles, query, form, many, b, found_many),
        few <= many,
        0 <= i < found_few.len(),
    ensures
        found_few.len() <= few,
        found_few.len() == few || found_few.len() == found_many.len(),
        i < found_many.len(),
        found_few[i] == found_many[i],
{
    law_ranking_unique(
        lower_names(profiles),
        lower_sources(profiles),
        crate::catalog::fitting(profiles, form),
        lowercase(query),
        a,
        b,
    );
}

/// How a name fits a query: 3 where it is the query, 2 where it begins with it, 1 where it
/// holds it, 0 else.
pub open spec fn fit(name: Seq<char>, query: Seq<char>) -> int {
    if name == query {
        3
    } else if name.len() >= query.len() && name.take(query.len() as int) == query {
        2
    } else if part(name, query) {
        1
    } else {
        0
    }
}

pub open spec fn at_most_40(n: nat) -> nat {
    if n < 40 {
        n
    } else {
        40
    }
}

/// The better a name fits the query, the earlier it comes; among names that fit equally the
/// shorter one, then the one that comes first by its characters, then the one whose source does.
/// The query is given with single spaces between its words.
pub proof fn law_better_fits_come_first(
    names: Seq<Seq<char>>,
    sources: Seq<Seq<char>>,
    fits: Seq<bool>,
    query: Seq<char>,
    order: Seq<usize>,
    a: int,
    b: int,
)
    requires
        is_ranking(names, sources, fits, query, order),
        names.len() == sources.len(),
        words(query).len() > 0,
        spaced(words(query)) == query,
        0 <= a < b < order.len(),
    ensures
        ({
            let (x, y) = (order[a] as int, order[b] as int);
            let (f, g) = (fit(names[x], query), fit(names[y], query));
            let (m, n) = (at_most_40(byte_len(names[x])), at_most_40(byte_len(names[y])));
            &&& f >= g
            &&& f == g ==> m <= n
            &&& f == g && m == n ==> names[x] == names[y] || lex(names[x], names[y])
            &&& f == g && names[x] == names[y] ==> sources[x] == sources[y] || lex(
                sources[x],
                sources[y],
            )
        }),
{
    let keys = search_keys(names, sources, query);
    let (x, y) = (order[a] as int, order[b] as int);
    assert(order.contains(order[a]));
    assert(order.contains(order[b]));
    assert(precedes(keys, x, y));
    lemma_score(names[x], query);
    lemma_score(names[y], query);
    crate::order::lemma_lex_irreflexive(names[x]);
}

proof fn lemma_score(name: Seq<char>, query: Seq<char>)
    requires
        words(query).len() > 0,
        spaced(words(query)) == query,
    ensures
        ({
            let base: int = if fit(name, query) == 3 {
                2000
            } else if fit(name, query) == 2 {
                1400
            } else if fit(name, query) == 1 {
                900
            } else {
                400
            };
            crate::catalog::score(name, query) == base - at_most_40(byte_len(name))
        }),
{
    lemma_part(name, query);
    if name.len() >= query.len() {
        assert(name.subrange(0, query.len() as int) =~= name.take(query.len() as int));
    }
}

/// Without a query everything of the form is listed by name, then by source.
pub proof fn law_without_query_by_name(
    names: Seq<Seq<char>>,
    sources: Seq<Seq<char>>,
    fits: Seq<bool>,
    query: Seq<char>,
    order: Seq<usize>,
    a: int,
    b: int,
)
    requires
        is_ranking(names, sources, fits, query, order),
        names.len() == sources.len(),
        words(query).len() == 0,
        0 <= a < b < order.len(),
    ensures
        ({
            let (x, y) = (order[a] as int, order[b] as int);
            &&& names[x] == names[y] || lex(names[x], names[y])
            &&& names[x] == names[y] ==> sources[x] == sources[y] || lex(sources[x], sources[y])
        }),
{
    let keys = search_keys(names, sources, query);
    assert(order.contains(order[a]));
    assert(order.contains(order[b]));
    assert(precedes(keys, order[a] as int, order[b] as int));
    crate::order::lemma_lex_irreflexive(names[order[a] as int]);
}

/// The first place at which two texts differ decides which comes first, and a start of a text
/// comes before it.
pub proof fn law_lex(common: Seq<char>, a: Seq<char>, b: Seq<char>)
    requires
        a.len() == 0 || b.len() == 0 || a[0] != b[0],
    ensures
        lex(common + a, common + b) <==> b.len() > 0 && (a.len() == 0 || a[0] < b[0]),
    decreases common.len(),
{
    if common.len() == 0 {
        assert(common + a =~= a);
        assert(common + b =~= b);
    } else {
        let rest = common.drop_first();
        assert((common + a).drop_first() =~= rest + a);
        assert((common + b).drop_first() =~= rest + b);
        law_lex(rest, a, b);
    }
}

/// A catalog holds the entries with a usable band, in their order, and no others.
pub proof fn law_catalog_keeps_the_order(raw: Seq<RawProfileView>, more: Seq<RawProfileView>)
    ensures
        entries(raw + more) == entries(raw) + entries(more),
    decreases more.len(),
{
    if more.len() == 0 {
        assert(raw + more =~= raw);
        assert(entries(raw) + entries(more) =~= entries(raw));
    } else {
        law_catalog_keeps_the_order(raw, more.drop_last());
        assert((raw + more).drop_last() =~= raw + more.drop_last());
        assert((raw + more).last() == more.last());
        assert(entries(raw + more) =~= entries(raw) + entries(more));
    }
}

/// An entry keeps its key, its name, its source and its form; it is in the catalog exactly where
/// one of its first 32 bands is of a known type.
pub proof fn law_entry(raw: RawProfileView)
    ensures
        entry(raw) is Some <==> exists|i: int|
            0 <= i < raw.bands.len() && i < 32 && crate::profile::band_type(
                (#[trigger] raw.bands[i]).kind,
            ) is Some,
        entry(raw) matches Some(p) ==> p.key == raw.key && p.name == raw.name && p.source
            == raw.source && p.form == raw.form && (raw.bands.len() <= 32 ==> p.bands
            == crate::state::usable(raw.bands)) && (raw.bands.len() > 32 ==> p.bands
            == crate::state::usable(raw.bands.take(32))) && (raw.preamp.finite() && whole(-24)
            <= raw.preamp.value() <= whole(24) ==> p.preamp == raw.preamp) && (raw.form.len() > 0
            && raw.source.len() > 0 ==> p.detail == raw.form + " · "@ + "measured by "@ + raw.source),
        entries(seq![raw]) == match entry(raw) {
            Some(p) => seq![p],
            None => Seq::<ProfileView>::empty(),
        },
{
    let first = crate::state::capped(raw.bands);
    assert(raw.bands.len() <= 32 ==> first =~= raw.bands);
    assert(raw.bands.len() > 32 ==> first =~= raw.bands.take(32));
    lemma_bounds();
    if raw.preamp.finite() {
        lemma_order(raw.preamp, double(GAIN_MIN));
        lemma_order(double(GAIN_MAX), raw.preamp);
    }
    crate::laws::stored::lemma_usable(first);
    if exists|i: int|
        0 <= i < raw.bands.len() && i < 32 && crate::profile::band_type(
            (#[trigger] raw.bands[i]).kind,
        ) is Some {
        let i = choose|i: int|
            0 <= i < raw.bands.len() && i < 32 && crate::profile::band_type(
                (#[trigger] raw.bands[i]).kind,
            ) is Some;
        assert(first[i] == raw.bands[i]);
    }
    if crate::state::usable(first).len() > 0 {
        let i = choose|i: int|
            0 <= i < first.len() && crate::profile::band_type((#[trigger] first[i]).kind) is Some;
        assert(raw.bands[i] == first[i]);
    }
    let one = seq![raw];
    assert(one.drop_last() =~= Seq::<RawProfileView>::empty());
    assert(one.last() == raw);
    assert(entries(one.drop_last()) =~= Seq::<ProfileView>::empty());
    assert(entries(one) =~= match entry(raw) {
        Some(p) => seq![p],
        None => Seq::<ProfileView>::empty(),
    });
}

} // verus!
