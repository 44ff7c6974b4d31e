//! Words, lines and the space around them.

use vstd::prelude::*;

use crate::round_trip::{is_word, lemma_one_word, unbroken};
use crate::text::{alike, holds, lemma_position, lines, lower, stands_at, trim, trim_end, trim_start, white, words};

verus! {

/// Space, tab and the characters that end a line are whitespace; no ASCII letter, digit or mark
/// is.
pub proof fn law_whitespace(c: char)
    ensures
        white(' '),
        white('\t'),
        white('\n'),
        white('\r'),
        '!' <= c && c <= '~' ==> !white(c),
{
}

/// Whitespace parts a text into words: those before it and those behind it.
pub proof fn law_words_part(a: Seq<char>, c: char, b: Seq<char>)
    requires
        white(c),
    ensures
        words(a + seq![c] + b) == words(a) + words(b),
    decreases b.len(),
{
    let s = a + seq![c] + b;
    if b.len() == 0 {
        assert(s.drop_last() =~= a);
        assert(s.last() == c);
        assert(words(a) + words(b) =~= words(a));
    } else {
        let d = b.drop_last();
        assert(s.drop_last() =~= a + seq![c] + d);
        law_words_part(a, c, d);
        let before = words(s.drop_last());
        assert(before == words(a) + words(d));
        assert(s.last() == b.last());
        if white(b.last()) {
            assert(words(s) == before);
        } else if b.len() == 1 {
            assert(s[s.len() - 2] == c);
            assert(words(d) =~= seq![]);
            assert(words(b) =~= seq![seq![b.last()]]);
            assert(words(s) =~= words(a) + words(b));
        } else {
            assert(s[s.len() - 2] == b[b.len() - 2]);
            if white(b[b.len() - 2]) {
                assert(words(s) =~= words(a) + words(b));
            } else {
                crate::text::lemma_words_open(d);
                assert(words(d).len() > 0);
                assert(before.last() == words(d).last());
                assert(words(s) =~= words(a) + words(b));
            }
        }
    }
}

/// A text without whitespace is a word; an empty text has none.
pub proof fn law_word_alone(w: Seq<char>)
    ensures
        words(Seq::<char>::empty()) == Seq::<Seq<char>>::empty(),
        w.len() > 0 && (forall|i: int| 0 <= i < w.len() ==> !white(#[trigger] w[i])) ==> words(w)
            == seq![w],
{
    if w.len() > 0 && (forall|i: int| 0 <= i < w.len() ==> !white(#[trigger] w[i])) {
        assert(is_word(w));
        lemma_one_word(w);
    }
    assert(words(Seq::<char>::empty()) =~= Seq::<Seq<char>>::empty());
}

/// A line feed, with or without a carriage return before it, ends a line.
pub proof fn law_lines_part(a: Seq<char>, b: Seq<char>)
    requires
        unbroken(a),
        a.len() == 0 || a.last() != '\r',
    ensures
        lines(a + seq!['\n'] + b) == seq![a] + lines(b),
        lines(a + seq!['\r', '\n'] + b) == seq![a] + lines(b),
{
    let s = a + seq!['\n'] + b;
    assert forall|i: int| 0 <= i < a.len() implies !seq!['\n'].contains(s[i]) by {
        assert(s[i] == a[i]);
        assert(a[i] != '\n');
    }
    assert(seq!['\n'].contains(s[a.len() as int])) by {
        assert(seq!['\n'][0] == '\n');
    }
    lemma_position(s, seq!['\n'], a.len() as int);
    assert(s.take(a.len() as int) =~= a);
    assert(s.skip(a.len() as int + 1) =~= b);
    let t = a + seq!['\r', '\n'] + b;
    let n: int = a.len() as int + 1;
    assert forall|i: int| 0 <= i < n implies !seq!['\n'].contains(t[i]) by {
        if i < a.len() {
            assert(t[i] == a[i]);
            assert(a[i] != '\n');
        }
    }
    assert(seq!['\n'].contains(t[n])) by {
        assert(seq!['\n'][0] == '\n');
    }
    lemma_position(t, seq!['\n'], n);
    assert(t.take(n).drop_last() =~= a);
    assert(t.skip(n + 1) =~= b);
}

/// What follows the last line feed is a line too, unless there is nothing.
pub proof fn law_line_alone(a: Seq<char>)
    requires
        unbroken(a),
    ensures
        lines(Seq::<char>::empty()) == Seq::<Seq<char>>::empty(),
        a.len() > 0 ==> lines(a) == seq![a],
{
    assert forall|i: int| 0 <= i < a.len() implies !seq!['\n'].contains(a[i]) by {
        assert(a[i] != '\n');
    }
    lemma_position(a, seq!['\n'], a.len() as int);
    assert(lines(Seq::<char>::empty()) =~= Seq::<Seq<char>>::empty());
}

proof fn lemma_trim_start(a: Seq<char>, s: Seq<char>)
    requires
        forall|i: int| 0 <= i < a.len() ==> white(#[trigger] a[i]),
        s.len() == 0 || !white(s[0]),
    ensures
        trim_start(a + s) == s,
    decreases a.len(),
{
    if a.len() == 0 {
        assert(a + s =~= s);
    } else {
        assert((a + s)[0] == a[0]);
        assert((a + s).drop_first() =~= a.drop_first() + s);
        assert forall|i: int| 0 <= i < a.drop_first().len() implies white(#[trigger] a.drop_first()[i]) by {
            assert(white(a[i + 1]));
        }
        lemma_trim_start(a.drop_first(), s);
    }
}

proof fn lemma_trim_end(s: Seq<char>, b: Seq<char>)
    requires
        forall|i: int| 0 <= i < b.len() ==> white(#[trigger] b[i]),
        s.len() == 0 || !white(s.last()),
    ensures
        trim_end(s + b) == s,
    decreases b.len(),
{
    if b.len() == 0 {
        assert(s + b =~= s);
    } else {
        assert((s + b).last() == b.last());
        assert((s + b).drop_last() =~= s + b.drop_last());
        lemma_trim_end(s, b.drop_last());
    }
}

/// Trimming takes away the whitespace at both ends and nothing else.
pub proof fn law_trim(a: Seq<char>, s: Seq<char>, b: Seq<char>)
    requires
        forall|i: int| 0 <= i < a.len() ==> white(#[trigger] a[i]),
        forall|i: int| 0 <= i < b.len() ==> white(#[trigger] b[i]),
        s.len() == 0 || (!white(s[0]) && !white(s.last())),
    ensures
        trim(a + s + b) == s,
{
    if s.len() == 0 {
        let w = a + b;
        assert(a + s + b =~= w + s);
        assert forall|i: int| 0 <= i < w.len() implies white(#[trigger] w[i]) by {
            if i < a.len() {
                assert(white(a[i]));
            } else {
                assert(white(b[i - a.len()]));
            }
        }
        lemma_trim_start(w, s);
        assert(trim_end(s) =~= s);
    } else {
        assert(a + s + b =~= a + (s + b));
        lemma_trim_start(a, s + b);
        lemma_trim_end(s, b);
    }
}

/// Only the case of ASCII letters makes no difference.
pub proof fn law_alike(a: char, b: char)
    ensures
        alike(seq![a], seq![b]) <==> a == b || ('A' <= a && a <= 'Z' && b as int == a as int + 32)
            || ('A' <= b && b <= 'Z' && a as int == b as int + 32),
{
    assert(seq![a][0] == a);
    assert(seq![b][0] == b);
    if alike(seq![a], seq![b]) {
        assert(lower(seq![a][0]) == lower(seq![b][0]));
    }
}

/// Texts are alike where they are as long and their characters are.
pub proof fn law_alike_by_character(a: Seq<char>, b: Seq<char>)
    ensures
        alike(a, b) <==> a.len() == b.len() && forall|i: int|
            0 <= i < a.len() ==> alike(seq![#[trigger] a[i]], seq![b[i]]),
{
    if alike(a, b) {
        assert forall|i: int| 0 <= i < a.len() implies alike(seq![#[trigger] a[i]], seq![b[i]]) by {
            assert(lower(a[i]) == lower(b[i]));
        }
    } else if a.len() == b.len() && forall|i: int|
        0 <= i < a.len() ==> alike(seq![#[trigger] a[i]], seq![b[i]]) {
        assert forall|i: int| 0 <= i < a.len() implies lower(#[trigger] a[i]) == lower(b[i]) by {
            assert(alike(seq![a[i]], seq![b[i]]));
            assert(lower(seq![a[i]][0]) == lower(seq![b[i]][0]));
        }
    }
}

/// A text holds another exactly where that is a contiguous part of it, at any place.
pub proof fn law_holds(s: Seq<char>, t: Seq<char>)
    ensures
        holds(s, t) <==> exists|a: Seq<char>, b: Seq<char>| s == #[trigger] (a + t + b),
{
    if holds(s, t) {
        let i = choose|i: int| stands_at(s, t, i);
        let a = s.take(i);
        let b = s.skip(i + t.len());
        assert(a + t + b =~= s);
    }
    if exists|a: Seq<char>, b: Seq<char>| s == #[trigger] (a + t + b) {
        let (a, b) = choose|a: Seq<char>, b: Seq<char>| s == #[trigger] (a + t + b);
        assert(s.subrange(a.len() as int, a.len() as int + t.len()) =~= t);
        assert(stands_at(s, t, a.len() as int));
    }
}

} // verus!
