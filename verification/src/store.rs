//! The user's library of profiles: one file per profile, its name and its kind.

use vstd::prelude::*;
use vstd::string::*;

use crate::decimal::{digit, numeral, write_number};
use crate::order::{in_order, key_views, sorted, SortKey, SortKeyView};
use crate::profile::{AudioProfile, ProfileView};
use crate::text::{
    alike, alike_chars, chars_of, lower, piece, push_all, same, text_of, texts, to_lower, to_lowercase,
    trim, trimmed, views,
};

verus! {

/// Upper bound on the size of a profile file that is read: 8 MiB.
pub const MAX_PROFILE_BYTES: u64 = 8_388_608;

/// The extension of native profile files.
pub open spec fn profile_ext() -> Seq<char> {
    "adtuneprofile"@
}

pub open spec fn letter_or_digit(c: char) -> bool {
    digit(c) || ('a' <= c && c <= 'z') || ('A' <= c && c <= 'Z')
}

/// A character of a file name: a letter in lower case or a digit as it is, a dash
/// for anything else.
pub open spec fn file_char(c: char) -> char {
    if letter_or_digit(c) {
        lower(c)
    } else {
        '-'
    }
}

/// `s` without the dashes at its start.
pub open spec fn undashed_start(s: Seq<char>) -> Seq<char>
    decreases s.len(),
{
    if s.len() > 0 && s[0] == '-' {
        undashed_start(s.drop_first())
    } else {
        s
    }
}

/// `s` without the dashes at its end.
pub open spec fn undashed_end(s: Seq<char>) -> Seq<char>
    decreases s.len(),
{
    if s.len() > 0 && s.last() == '-' {
        undashed_end(s.drop_last())
    } else {
        s
    }
}

/// A file name for a text.
pub open spec fn file_text(s: Seq<char>) -> Seq<char> {
    undashed_end(undashed_start(Seq::new(s.len(), |i: int| file_char(s[i]))))
}

/// The file name of a profile, without suffix and extension: from its key, or from
/// its name where it has none.
pub open spec fn slug_of(p: ProfileView) -> Seq<char> {
    let base = file_text(
        if trim(p.key).len() == 0 {
            p.name
        } else {
            p.key
        },
    );
    if base.len() == 0 {
        "profile"@
    } else {
        base
    }
}

/// The file name of a profile, without suffix and extension: from its key, or from
/// its name where it has none.
pub fn slug(profile: &AudioProfile) -> (r: String)
    ensures
        r@ == slug_of(profile@),
{
    let base: Vec<char> = if trimmed(&chars_of(&profile.key)).len() == 0 {
        chars_of(&profile.name)
    } else {
        chars_of(&profile.key)
    };
    let ghost mapped = Seq::new(base@.len(), |i: int| file_char(base@[i]));
    let mut s: Vec<char> = Vec::new();
    for i in 0..base.len()
        invariant
            mapped == Seq::new(base@.len(), |i: int| file_char(base@[i])),
            s@ =~= mapped.take(i as int),
    {
        let c: char = base[i];
        let plain: bool = ('0' <= c && c <= '9') || ('a' <= c && c <= 'z') || ('A' <= c && c <= 'Z');
        s.push(
            if plain {
                to_lower(c)
            } else {
                '-'
            },
        );
    }
    assert(s@ =~= mapped);
    let mut from: usize = 0;
    assert(s@.skip(0) =~= s@);
    while from < s.len() && s[from] == '-'
        invariant
            from <= s@.len(),
            undashed_start(s@) == undashed_start(s@.skip(from as int)),
        decreases s@.len() - from,
    {
        assert(s@.skip(from as int).drop_first() =~= s@.skip(from + 1));
        from = from + 1;
    }
    let ghost rest = s@.skip(from as int);
    let mut to: usize = s.len();
    assert(rest.take(to - from) =~= rest);
    while to > from && s[to - 1] == '-'
        invariant
            from <= to <= s@.len(),
            rest == s@.skip(from as int),
            undashed_end(rest) == undashed_end(rest.take(to - from)),
        decreases to,
    {
        assert(rest.take(to - from).drop_last() =~= rest.take(to - from - 1));
        to = to - 1;
    }
    assert(rest.take(to - from) =~= s@.subrange(from as int, to as int));
    if from == to {
        "profile".to_owned()
    } else {
        text_of(&piece(&s, from, to))
    }
}

proof fn lemma_undashed(s: Seq<char>)
    requires
        forall|i: int| 0 <= i < s.len() ==> (#[trigger] s[i] == '-' || letter_or_digit(s[i])),
    ensures
        ({
            let r = undashed_end(undashed_start(s));
            &&& forall|i: int| 0 <= i < r.len() ==> s.contains(#[trigger] r[i])
            &&& r.len() > 0 ==> r[0] != '-' && r.last() != '-'
        }),
{
    let a = undashed_start(s);
    lemma_undashed_start(s);
    lemma_undashed_end(a);
    let r = undashed_end(a);
    assert forall|i: int| 0 <= i < r.len() implies s.contains(#[trigger] r[i]) by {
        assert(a.contains(r[i]));
        let k = choose|k: int| 0 <= k < a.len() && a[k] == r[i];
        assert(s.contains(a[k]));
    }
}

proof fn lemma_undashed_start(s: Seq<char>)
    ensures
        forall|i: int| 0 <= i < undashed_start(s).len() ==> s.contains(#[trigger] undashed_start(s)[i]),
        undashed_start(s).len() > 0 ==> undashed_start(s)[0] != '-',
    decreases s.len(),
{
    if s.len() > 0 && s[0] == '-' {
        let t = s.drop_first();
        lemma_undashed_start(t);
        assert forall|i: int| 0 <= i < undashed_start(s).len() implies s.contains(
            #[trigger] undashed_start(s)[i],
        ) by {
            assert(t.contains(undashed_start(t)[i]));
            let k = choose|k: int| 0 <= k < t.len() && t[k] == undashed_start(t)[i];
            assert(s[k + 1] == t[k]);
        }
    }
}

proof fn lemma_undashed_end(s: Seq<char>)
    ensures
        forall|i: int| 0 <= i < undashed_end(s).len() ==> s.contains(#[trigger] undashed_end(s)[i]),
        undashed_end(s).len() > 0 ==> undashed_end(s).last() != '-',
        undashed_end(s).len() > 0 ==> undashed_end(s)[0] == s[0],
    decreases s.len(),
{
    if s.len() > 0 && s.last() == '-' {
        let t = s.drop_last();
        lemma_undashed_end(t);
        assert forall|i: int| 0 <= i < undashed_end(s).len() implies s.contains(
            #[trigger] undashed_end(s)[i],
        ) by {
            assert(t.contains(undashed_end(t)[i]));
            let k = choose|k: int| 0 <= k < t.len() && t[k] == undashed_end(t)[i];
            assert(s[k] == t[k]);
        }
    }
}

/// A character that is safe in a file name on every platform.
pub open spec fn safe_char(c: char) -> bool {
    digit(c) || ('a' <= c && c <= 'z') || c == '-'
}

/// A file name is never empty, holds only lower-case letters, digits and dashes, and
/// neither begins nor ends with a dash.
pub proof fn law_slug_is_safe(p: ProfileView)
    ensures
        slug_of(p).len() > 0,
        forall|i: int| 0 <= i < slug_of(p).len() ==> safe_char(#[trigger] slug_of(p)[i]),
        slug_of(p)[0] != '-',
        slug_of(p).last() != '-',
{
    reveal_strlit("profile");
    let text = if trim(p.key).len() == 0 {
        p.name
    } else {
        p.key
    };
    let mapped = Seq::new(text.len(), |i: int| file_char(text[i]));
    lemma_undashed(mapped);
    let r = slug_of(p);
    assert forall|i: int| 0 <= i < r.len() implies safe_char(#[trigger] r[i]) by {
        if file_text(text).len() > 0 {
            assert(mapped.contains(r[i]));
        }
    }
}

/// The file name of the `n`-th attempt to save: without a number at first, then
/// with the number of the attempt.
pub open spec fn attempt_name(base: Seq<char>, n: nat) -> Seq<char> {
    if n <= 1 {
        base + "."@ + profile_ext()
    } else {
        base + "-"@ + numeral(n) + "."@ + profile_ext()
    }
}

/// The file name under which to save a profile at the `n`-th attempt. A name that is
/// taken is not used: the next attempt gives another one.
pub fn file_name(profile: &AudioProfile, n: u64) -> (r: String)
    ensures
        r@ == attempt_name(slug_of(profile@), n as nat),
{
    let mut r: String = slug(profile);
    if n > 1 {
        r.append("-");
        r.append(&write_number(n));
    }
    r.append(".");
    r.append("adtuneprofile");
    r
}

/// Different attempts have different names, so that saving gets past any number of
/// names that are taken.
pub proof fn law_attempts_differ(base: Seq<char>, m: nat, n: nat)
    requires
        1 <= m < n,
    ensures
        attempt_name(base, m) != attempt_name(base, n),
{
    reveal_strlit(".");
    reveal_strlit("-");
    let a = attempt_name(base, m);
    let b = attempt_name(base, n);
    let tail = "."@ + profile_ext();
    crate::round_trip::lemma_numeral(m);
    crate::round_trip::lemma_numeral(n);
    if a == b {
        let mid_b = "-"@ + numeral(n);
        assert(b =~= base + mid_b + tail);
        if m == 1 {
            assert(a =~= base + tail);
            assert(a.len() != b.len());
        } else {
            let mid_a = "-"@ + numeral(m);
            assert(a =~= base + mid_a + tail);
            assert(mid_a.len() == mid_b.len());
            assert(a.subrange(base.len() as int + 1, base.len() as int + mid_a.len()) =~= numeral(m));
            assert(b.subrange(base.len() as int + 1, base.len() as int + mid_b.len()) =~= numeral(n));
        }
    }
}

/// The names of the first `n` attempts.
pub open spec fn attempt_names(base: Seq<char>, n: nat) -> Seq<Seq<char>> {
    Seq::new(n, |i: int| attempt_name(base, (i + 1) as nat))
}

/// No more attempts can meet taken names than there are taken names.
proof fn lemma_attempts_taken(base: Seq<char>, n: nat, taken: Seq<Seq<char>>)
    requires
        forall|k: nat| 1 <= k <= n ==> taken.contains(#[trigger] attempt_name(base, k)),
    ensures
        n <= taken.len(),
{
    let names = attempt_names(base, n);
    assert forall|i: int, j: int| 0 <= i < names.len() && 0 <= j < names.len() && i != j implies names[i]
        != names[j] by {
        if i < j {
            law_attempts_differ(base, (i + 1) as nat, (j + 1) as nat);
        } else {
            law_attempts_differ(base, (j + 1) as nat, (i + 1) as nat);
        }
    }
    names.unique_seq_to_set();
    taken.lemma_cardinality_of_set();
    assert(names.to_set().subset_of(taken.to_set())) by {
        assert forall|s: Seq<char>| names.to_set().contains(s) implies taken.to_set().contains(s) by {
            let i = choose|i: int| 0 <= i < names.len() && names[i] == s;
            assert(taken.contains(attempt_name(base, (i + 1) as nat)));
        }
    }
    vstd::set_lib::lemma_len_subset(names.to_set(), taken.to_set());
}

/// Whether a name is among some names.
fn is_taken(taken: &Vec<String>, name: &str) -> (r: bool)
    ensures
        r == texts(taken@).contains(name@),
{
    for i in 0..taken.len()
        invariant
            forall|j: int| 0 <= j < i ==> texts(taken@)[j] != name@,
    {
        if same(&taken[i], name) {
            assert(texts(taken@)[i as int] == name@);
            return true;
        }
    }
    false
}

/// The first attempt to save a profile whose name is not taken. A profile that is saved anew
/// never takes the place of another.
pub fn first_free(profile: &AudioProfile, taken: &Vec<String>) -> (n: u64)
    requires
        taken@.len() < u64::MAX,
    ensures
        n >= 1,
        !texts(taken@).contains(attempt_name(slug_of(profile@), n as nat)),
        forall|k: nat|
            1 <= k < n ==> texts(taken@).contains(#[trigger] attempt_name(slug_of(profile@), k)),
{
    let ghost base = slug_of(profile@);
    let ghost all = texts(taken@);
    let mut n: u64 = 1;
    while is_taken(taken, &file_name(profile, n))
        invariant
            n >= 1,
            n <= all.len() + 1,
            all == texts(taken@),
            all.len() < u64::MAX,
            base == slug_of(profile@),
            forall|k: nat| 1 <= k < n ==> all.contains(#[trigger] attempt_name(base, k)),
        decreases all.len() + 1 - n,
    {
        proof {
            assert forall|k: nat| 1 <= k <= n implies all.contains(#[trigger] attempt_name(base, k)) by {
                if k == n {
                    assert(all.contains(attempt_name(base, n as nat)));
                }
            }
            lemma_attempts_taken(base, n as nat, all);
        }
        n = n + 1;
    }
    n
}

/// Whether a file with this extension is a native profile file.
pub fn is_profile_file(ext: Option<&str>) -> (r: bool)
    ensures
        r == (ext matches Some(e) && alike(e@, profile_ext())),
{
    match ext {
        Some(e) => alike_chars(&chars_of(e), "adtuneprofile"),
        None => false,
    }
}

/// The order in which profiles are listed: by name in lower case, and as they were
/// found where two names are equal.
pub open spec fn is_name_order(names: Seq<Seq<char>>, order: Seq<usize>) -> bool {
    let keys = Seq::new(
        names.len(),
        |i: int| SortKeyView { score: 0, name: names[i], source: seq![] },
    );
    in_order(keys, order) && forall|i: usize| #[trigger]
        order.contains(i) <==> i < names.len()
}

/// The order of some names in lower case.
pub fn name_order(names: &Vec<Vec<char>>) -> (r: Vec<usize>)
    ensures
        is_name_order(views(names@), r@),
        r@.len() == names@.len(),
{
    let ghost all = Seq::new(
        views(names@).len(),
        |i: int| SortKeyView { score: 0, name: views(names@)[i], source: seq![] },
    );
    let mut keys: Vec<SortKey> = Vec::new();
    let mut items: Vec<usize> = Vec::new();
    for i in 0..names.len()
        invariant
            all == Seq::new(
                views(names@).len(),
                |i: int| SortKeyView { score: 0, name: views(names@)[i], source: seq![] },
            ),
            key_views(keys@) =~= all.take(i as int),
            keys@.len() == i,
            items@.len() == i,
            forall|j: int| 0 <= j < i ==> items@[j] == j,
    {
        let mut name: Vec<char> = Vec::new();
        push_all(&mut name, &names[i]);
        assert(name@ =~= names@[i as int]@);
        let source: Vec<char> = Vec::new();
        assert(source@ =~= seq![]);
        let ghost before = keys@;
        keys.push(SortKey { score: 0, name, source });
        assert(key_views(keys@) =~= key_views(before).push(all[i as int]));
        items.push(i);
    }
    assert(key_views(keys@) =~= all);
    let r: Vec<usize> = sorted(&keys, &items);
    proof {
        broadcast use vstd::seq_lib::group_to_multiset_ensures;
        assert forall|i: usize| #[trigger] r@.contains(i) <==> i < names@.len() by {
            assert(r@.to_multiset().count(i) == items@.to_multiset().count(i));
            if i < names@.len() {
                assert(items@[i as int] == i);
                assert(items@.contains(i));
            }
        }
        assert(r@.to_multiset().len() == items@.to_multiset().len());
    }
    r
}

/// The order in which to list profiles.
pub fn list_order(profiles: &Vec<AudioProfile>) -> (r: Vec<usize>)
    ensures
        is_name_order(
            crate::catalog::lower_names(crate::catalog::profile_views(profiles@)),
            r@,
        ),
        r@.len() == profiles@.len(),
{
    let mut names: Vec<Vec<char>> = Vec::new();
    let ghost all = crate::catalog::lower_names(crate::catalog::profile_views(profiles@));
    for i in 0..profiles.len()
        invariant
            all == crate::catalog::lower_names(crate::catalog::profile_views(profiles@)),
            views(names@) =~= all.take(i as int),
            names@.len() == i,
    {
        let ghost before = views(names@);
        let name: Vec<char> = chars_of(&to_lowercase(&profiles[i].name));
        let ghost v = name@;
        names.push(name);
        assert(views(names@) =~= before.push(v));
    }
    assert(views(names@) =~= all);
    name_order(&names)
}

/// A name for an imported file: its own, unless that is the generic one of AutoEq,
/// in which case that of its directory, if it has one.
pub open spec fn name_of_import(stem: Option<Seq<char>>, parent: Option<Seq<char>>) -> Seq<char> {
    let own = match stem {
        Some(s) => s,
        None => "Imported profile"@,
    };
    match parent {
        Some(p) => if (alike(own, "parametriceq"@) || alike(own, "parametric"@)) && p.len() > 0 {
            p
        } else {
            own
        },
        None => own,
    }
}

/// The view of an optional text.
pub open spec fn opt_view(s: Option<&str>) -> Option<Seq<char>> {
    match s {
        Some(t) => Some(t@),
        None => None,
    }
}

/// A name for an imported file, from the name of the file without its extension and
/// that of its directory.
pub fn import_name(stem: Option<&str>, parent: Option<&str>) -> (r: String)
    ensures
        r@ == name_of_import(opt_view(stem), opt_view(parent)),
{
    let own: &str = match stem {
        Some(s) => s,
        None => "Imported profile",
    };
    let v: Vec<char> = chars_of(own);
    let generic: bool = alike_chars(&v, "parametriceq") || alike_chars(&v, "parametric");
    match parent {
        Some(p) => if generic && !p.is_empty() {
            p.to_owned()
        } else {
            own.to_owned()
        },
        None => own.to_owned(),
    }
}

/// The formats of profile files.
#[derive(Clone, Copy, Debug, PartialEq, Eq, Structural)]
pub enum FileFormat {
    /// The native format.
    Native,
    /// ParametricEQ text.
    ParametricEq,
}

/// The format of a file with the given extension.
pub open spec fn format_of(ext: Option<Seq<char>>) -> FileFormat {
    match ext {
        Some(e) => if alike(e, profile_ext()) || alike(e, "json"@) {
            FileFormat::Native
        } else {
            FileFormat::ParametricEq
        },
        None => FileFormat::ParametricEq,
    }
}

/// The format in which to read a file: native for `.adtuneprofile` and `.json`, in
/// any case, ParametricEQ text for anything else.
pub fn file_format(ext: Option<&str>) -> (r: FileFormat)
    ensures
        r == format_of(opt_view(ext)),
{
    match ext {
        Some(e) => {
            let v: Vec<char> = chars_of(e);
            if alike_chars(&v, "adtuneprofile") || alike_chars(&v, "json") {
                FileFormat::Native
            } else {
                FileFormat::ParametricEq
            }
        },
        None => FileFormat::ParametricEq,
    }
}

} // verus!
