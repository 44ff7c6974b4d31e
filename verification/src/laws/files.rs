//! The files of the library: how they are named, found and listed.

use vstd::prelude::*;

use crate::order::{lex, precedes, SortKeyView};
use crate::profile::ProfileView;
use crate::store::{file_char, file_text, format_of, is_name_order, name_of_import, slug_of, undashed_end, undashed_start, FileFormat};
use crate::text::{alike, trim};

verus! {

proof fn lemma_text_kept(s: Seq<char>)
    requires
        s.len() > 0,
        s[0] != '-',
        s.last() != '-',
        forall|i: int|
            0 <= i < s.len() ==> {
                let c = #[trigger] s[i];
                ('a' <= c && c <= 'z') || ('0' <= c && c <= '9') || c == '-'
            },
    ensures
        file_text(s) == s,
{
    let m = Seq::new(s.len(), |i: int| file_char(s[i]));
    assert forall|i: int| 0 <= i < s.len() implies m[i] == s[i] by {
        let c = s[i];
    }
    assert(m =~= s);
    assert(undashed_start(s) == s);
    assert(undashed_end(s) == s);
}

/// A key that is fit to be a file name is the name of the file.
pub proof fn law_fit_keys_are_kept(p: ProfileView)
    requires
        p.key.len() > 0,
        p.key[0] != '-',
        p.key.last() != '-',
        forall|i: int|
            0 <= i < p.key.len() ==> {
                let c = #[trigger] p.key[i];
                ('a' <= c && c <= 'z') || ('0' <= c && c <= '9') || c == '-'
            },
    ensures
        slug_of(p) == p.key,
{
    lemma_text_kept(p.key);
    let e = Seq::<char>::empty();
    crate::laws::text::law_whitespace(p.key[0]);
    crate::laws::text::law_whitespace(p.key.last());
    assert(e + p.key + e =~= p.key);
    crate::laws::text::law_trim(e, p.key, e);
}

/// A profile without a key is saved under its name, as one whose key is that name would be.
pub proof fn law_unkeyed_profiles_go_by_name(p: ProfileView)
    requires
        trim(p.key).len() == 0,
        trim(p.name).len() > 0,
    ensures
        slug_of(p) == slug_of(ProfileView { key: p.name, ..p }),
{
}

/// The name of a profile makes no difference to its file where it has a key.
pub proof fn law_keyed_profiles_go_by_key(p: ProfileView, q: ProfileView)
    requires
        p.key == q.key,
        trim(p.key).len() > 0,
    ensures
        slug_of(p) == slug_of(q),
{
}

/// An imported file is named by itself, unless its name is the one that all files of the format
/// have, in any case: then by its directory.
pub proof fn law_import_names(stem: Seq<char>, parent: Seq<char>)
    ensures
        !alike(stem, "parametriceq"@) && !alike(stem, "parametric"@) ==> name_of_import(
            Some(stem),
            Some(parent),
        ) == stem,
        (alike(stem, "parametriceq"@) || alike(stem, "parametric"@)) && parent.len() > 0
            ==> name_of_import(Some(stem), Some(parent)) == parent,
        parent.len() == 0 ==> name_of_import(Some(stem), Some(parent)) == stem,
        name_of_import(Some(stem), None) == stem,
{
}

/// Files of the two native extensions, in any case, are native; all others are ParametricEQ.
pub proof fn law_formats(ext: Seq<char>)
    ensures
        format_of(Some(ext)) == FileFormat::Native <==> alike(ext, "adtuneprofile"@) || alike(
            ext,
            "json"@,
        ),
        format_of(None) == FileFormat::ParametricEq,
{
}

/// Profiles are listed by name, each once.
pub proof fn law_listed_by_name(names: Seq<Seq<char>>, order: Seq<usize>, a: int, b: int)
    requires
        is_name_order(names, order),
        0 <= a < b < order.len(),
    ensures
        order[a] != order[b],
        order[a] < names.len(),
        names[order[a] as int] == names[order[b] as int] || lex(
            names[order[a] as int],
            names[order[b] as int],
        ),
        names[order[a] as int] == names[order[b] as int] ==> order[a] < order[b],
{
    let keys = Seq::new(
        names.len(),
        |i: int| SortKeyView { score: 0, name: names[i], source: Seq::<char>::empty() },
    );
    let (x, y) = (order[a] as int, order[b] as int);
    assert(order.contains(order[a]));
    assert(order.contains(order[b]));
    assert(precedes(keys, x, y));
    crate::order::lemma_lex_irreflexive(names[x]);
    crate::order::lemma_lex_irreflexive(Seq::<char>::empty());
    if order[a] == order[b] {
        crate::order::lemma_precedes_irreflexive(keys, x);
    }
}

/// Every profile is listed.
pub proof fn law_all_are_listed(names: Seq<Seq<char>>, order: Seq<usize>, i: usize)
    requires
        is_name_order(names, order),
        i < names.len(),
    ensures
        order.contains(i),
{
}

} // verus!
