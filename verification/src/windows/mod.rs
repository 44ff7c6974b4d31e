//! The Windows side: endpoint identifiers, the registration of the audio
//! processing object (APO) on an endpoint, and what the controller decides.

use vstd::prelude::*;
use vstd::string::*;

use crate::text::{chars_of, piece, text_of};

pub mod devices;
pub mod elevate;
pub mod elsewhere;
pub mod env;
pub mod native;
pub mod paths;
pub mod register;
pub mod restore;
pub mod setup;

verus! {

/// The index of the last `c` in `s`, or -1 where there is none.
pub open spec fn last_index(s: Seq<char>, c: char) -> int
    decreases s.len(),
{
    if s.len() == 0 {
        -1
    } else if s.last() == c {
        s.len() - 1
    } else {
        last_index(s.drop_last(), c)
    }
}

/// The last braced group of an endpoint identifier, or all of it where it has no
/// brace.
pub open spec fn guid_of(id: Seq<char>) -> Seq<char> {
    let i = last_index(id, '{');
    if i < 0 {
        id
    } else {
        id.skip(i)
    }
}

/// The name of the registry key of an endpoint: the last braced group of its
/// identifier `{0.0.0.00000000}.{GUID}`. What has no brace is returned whole.
pub fn endpoint_guid(id: &str) -> (r: String)
    ensures
        r@ == guid_of(id@),
{
    let v: Vec<char> = chars_of(id);
    let mut n: usize = v.len();
    assert(v@.take(n as int) =~= v@);
    while n > 0 && v[n - 1] != '{'
        invariant
            n <= v@.len(),
            last_index(v@, '{') == last_index(v@.take(n as int), '{'),
        decreases n,
    {
        assert(v@.take(n as int).drop_last() =~= v@.take(n - 1));
        n = n - 1;
    }
    if n == 0 {
        text_of(&v)
    } else {
        assert(v@.skip(n - 1) =~= v@.subrange(n - 1, v@.len() as int));
        text_of(&piece(&v, n - 1, v.len()))
    }
}

/// A hexadecimal digit, a brace, a dot or a dash.
pub open spec fn id_char(c: char) -> bool {
    ('0' <= c && c <= '9') || ('a' <= c && c <= 'f') || ('A' <= c && c <= 'F') || c == '{' || c
        == '}' || c == '.' || c == '-'
}

/// A well-formed endpoint identifier.
pub open spec fn valid_id(id: Seq<char>) -> bool {
    &&& 0 < id.len() <= 200
    &&& id.contains('{')
    &&& forall|i: int| 0 <= i < id.len() ==> id_char(#[trigger] id[i])
}

/// Whether `id` is a well-formed endpoint identifier: not empty, at most 200
/// characters, with a brace, and made of hexadecimal digits, braces, dots and dashes
/// alone.
pub fn is_valid_endpoint_id(id: &str) -> (r: bool)
    ensures
        r == valid_id(id@),
{
    let v: Vec<char> = chars_of(id);
    if v.len() == 0 || v.len() > 200 {
        return false;
    }
    let mut brace: bool = false;
    for i in 0..v.len()
        invariant
            v@ == id@,
            brace == exists|j: int| 0 <= j < i && v@[j] == '{',
            forall|j: int| 0 <= j < i ==> id_char(#[trigger] v@[j]),
    {
        let c: char = v[i];
        let fine: bool = ('0' <= c && c <= '9') || ('a' <= c && c <= 'f') || ('A' <= c && c <= 'F')
            || c == '{' || c == '}' || c == '.' || c == '-';
        if !fine {
            assert(!id_char(v@[i as int]));
            return false;
        }
        if c == '{' {
            brace = true;
        }
    }
    brace
}

/// A well-formed identifier holds nothing that could split a command line or step
/// out of a registry path, and is no word without a brace, such as a flag.
pub proof fn law_valid_id_is_inert(id: Seq<char>, word: Seq<char>)
    requires
        valid_id(id),
        !word.contains('{'),
    ensures
        forall|i: int| 0 <= i < id.len() ==> !crate::text::white(#[trigger] id[i]) && id[i] != '"'
            && id[i] != '\\' && id[i] != '/',
        id != word,
        guid_of(id).len() > 0 && guid_of(id)[0] == '{',
        forall|i: int| 0 <= i < guid_of(id).len() ==> guid_of(id)[i] != '\\',
{
    assert forall|i: int| 0 <= i < id.len() implies !crate::text::white(#[trigger] id[i]) && id[i]
        != '"' && id[i] != '\\' && id[i] != '/' by {
        assert(id_char(id[i]));
    }
    lemma_last_index(id, '{');
    let k = last_index(id, '{');
    assert forall|i: int| 0 <= i < guid_of(id).len() implies guid_of(id)[i] != '\\' by {
        assert(guid_of(id)[i] == id[k + i]);
        assert(id_char(id[k + i]));
    }
}

proof fn lemma_last_index(s: Seq<char>, c: char)
    ensures
        -1 <= last_index(s, c) < s.len(),
        last_index(s, c) >= 0 ==> s[last_index(s, c)] == c,
        s.contains(c) ==> last_index(s, c) >= 0,
    decreases s.len(),
{
    if s.len() > 0 && s.last() != c {
        let t = s.drop_last();
        lemma_last_index(t, c);
        if s.contains(c) {
            let i = choose|i: int| 0 <= i < s.len() && s[i] == c;
            assert(t[i] == c);
        }
    }
}

/// Outcome of an apply.
#[derive(Clone, Copy, Debug, PartialEq, Eq, Structural)]
pub struct ApplyOutcome {
    /// The audio processing object does not run on the target yet: it takes an
    /// administrator to enable it there.
    pub needs_enable: bool,
}

} // verus!
