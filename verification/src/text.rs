//! Text as sequences of characters: trimming, splitting into lines and words, and
//! comparison without regard to ASCII case.

use vstd::prelude::*;
use vstd::string::*;

verus! {

/// `String::push` appends one character to the end of the string.
pub assume_specification[ String::push ](s: &mut String, c: char)
    ensures
        final(s)@ == old(s)@.push(c),
;

/// The characters with the Unicode property White_Space.
pub open spec fn white(c: char) -> bool {
    let n = c as u32;
    ||| 0x09 <= n <= 0x0d
    ||| n == 0x20
    ||| n == 0x85
    ||| n == 0xa0
    ||| n == 0x1680
    ||| 0x2000 <= n <= 0x200a
    ||| n == 0x2028
    ||| n == 0x2029
    ||| n == 0x202f
    ||| n == 0x205f
    ||| n == 0x3000
}

/// An ASCII letter in lower case; any other character as it is.
pub open spec fn lower(c: char) -> char {
    if 'A' <= c && c <= 'Z' {
        (c as u32 + 32) as char
    } else {
        c
    }
}

/// Equal but for the case of ASCII letters.
pub open spec fn alike(a: Seq<char>, b: Seq<char>) -> bool {
    a.len() == b.len() && forall|i: int| 0 <= i < a.len() ==> lower(#[trigger] a[i]) == lower(b[i])
}

/// The index of the first character of `s` that occurs in `set`, or the length of
/// `s` where none does.
pub open spec fn position(s: Seq<char>, set: Seq<char>) -> nat
    decreases s.len(),
{
    if s.len() == 0 || set.contains(s[0]) {
        0
    } else {
        1 + position(s.drop_first(), set)
    }
}

/// `s` without the whitespace at its start.
pub open spec fn trim_start(s: Seq<char>) -> Seq<char>
    decreases s.len(),
{
    if s.len() > 0 && white(s[0]) {
        trim_start(s.drop_first())
    } else {
        s
    }
}

/// `s` without the whitespace at its end.
pub open spec fn trim_end(s: Seq<char>) -> Seq<char>
    decreases s.len(),
{
    if s.len() > 0 && white(s.last()) {
        trim_end(s.drop_last())
    } else {
        s
    }
}

/// `s` without the whitespace at both ends.
pub open spec fn trim(s: Seq<char>) -> Seq<char> {
    trim_end(trim_start(s))
}

/// The longest runs of characters that are not whitespace, in order.
pub open spec fn words(s: Seq<char>) -> Seq<Seq<char>>
    decreases s.len(),
{
    if s.len() == 0 {
        seq![]
    } else {
        let before = words(s.drop_last());
        if white(s.last()) {
            before
        } else if s.len() == 1 || white(s[s.len() - 2]) {
            before.push(seq![s.last()])
        } else {
            before.drop_last().push(before.last().push(s.last()))
        }
    }
}

/// `s` without one carriage return at its end.
pub open spec fn without_return(s: Seq<char>) -> Seq<char> {
    if s.len() > 0 && s.last() == '\r' {
        s.drop_last()
    } else {
        s
    }
}

/// The lines of a text: what stands before each line feed, less a carriage return
/// right before it, and what follows the last line feed if that is not empty.
pub open spec fn lines(s: Seq<char>) -> Seq<Seq<char>>
    decreases s.len(),
{
    if s.len() == 0 {
        seq![]
    } else {
        let n = position(s, seq!['\n']);
        if n >= s.len() {
            seq![s]
        } else {
            seq![without_return(s.take(n as int))] + lines(s.skip(n as int + 1))
        }
    }
}

/// The views of a sequence of character vectors.
pub open spec fn views(v: Seq<Vec<char>>) -> Seq<Seq<char>> {
    Seq::new(v.len(), |i: int| v[i]@)
}

pub proof fn lemma_position(s: Seq<char>, set: Seq<char>, n: int)
    requires
        0 <= n <= s.len(),
        forall|i: int| 0 <= i < n ==> !set.contains(s[i]),
        n < s.len() ==> set.contains(s[n]),
    ensures
        position(s, set) == n,
    decreases s.len(),
{
    if n > 0 {
        let t = s.drop_first();
        assert forall|i: int| 0 <= i < n - 1 implies !set.contains(t[i]) by {
            assert(t[i] == s[i + 1]);
        }
        lemma_position(t, set, n - 1);
    }
}

/// The characters of a string.
pub fn chars_of(s: &str) -> (r: Vec<char>)
    ensures
        r@ == s@,
{
    let mut r: Vec<char> = Vec::new();
    for c in it: s.chars()
        invariant
            it.seq() == s@,
            r@ == s@.take(it.index() as int),
    {
        proof {
            assert(s@.take(it.index() + 1) =~= s@.take(it.index() as int).push(c));
        }
        r.push(c);
    }
    assert(s@.take(s@.len() as int) =~= s@);
    r
}

/// The string made of some characters.
pub fn text_of(v: &Vec<char>) -> (r: String)
    ensures
        r@ == v@,
{
    let mut r: String = String::new();
    for i in 0..v.len()
        invariant
            r@ =~= v@.take(i as int),
    {
        r.push(v[i]);
    }
    assert(v@.take(v@.len() as int) =~= v@);
    r
}

/// A copy of the characters from `from` up to `to`.
pub fn piece(v: &Vec<char>, from: usize, to: usize) -> (r: Vec<char>)
    requires
        from <= to <= v@.len(),
    ensures
        r@ == v@.subrange(from as int, to as int),
{
    let mut r: Vec<char> = Vec::new();
    let mut i: usize = from;
    while i < to
        invariant
            from <= i <= to <= v@.len(),
            r@ =~= v@.subrange(from as int, i as int),
        decreases to - i,
    {
        r.push(v[i]);
        i = i + 1;
    }
    r
}

/// Whether a character occurs in a set.
pub fn is_in(c: char, set: &[char]) -> (r: bool)
    ensures
        r == set@.contains(c),
{
    for i in 0..set.len()
        invariant
            forall|j: int| 0 <= j < i ==> set@[j] != c,
    {
        if set[i] == c {
            return true;
        }
    }
    false
}

/// How far after `from` the first character lies that occurs in `set`; the distance
/// to the end where there is none.
pub fn find_from(v: &Vec<char>, from: usize, set: &[char]) -> (r: usize)
    requires
        from <= v@.len(),
    ensures
        r == position(v@.skip(from as int), set@),
        from + r <= v@.len(),
{
    let mut i: usize = from;
    while i < v.len() && !is_in(v[i], set)
        invariant
            from <= i <= v@.len(),
            forall|j: int| from <= j < i ==> !set@.contains(v@[j]),
        decreases v@.len() - i,
    {
        i = i + 1;
    }
    proof {
        let rest = v@.skip(from as int);
        assert forall|j: int| 0 <= j < i - from implies !set@.contains(rest[j]) by {
            assert(rest[j] == v@[from + j]);
        }
        lemma_position(rest, set@, i - from);
    }
    i - from
}

/// The index of the first character that occurs in `set`, or the length.
pub fn find(v: &Vec<char>, set: &[char]) -> (r: usize)
    ensures
        r == position(v@, set@),
        r <= v@.len(),
{
    assert(v@.skip(0) =~= v@);
    find_from(v, 0, set)
}

/// Whether two character vectors hold the same text.
pub fn same_chars(a: &Vec<char>, b: &Vec<char>) -> (r: bool)
    ensures
        r == (a@ == b@),
{
    if a.len() != b.len() {
        return false;
    }
    for i in 0..a.len()
        invariant
            a@.len() == b@.len(),
            forall|j: int| 0 <= j < i ==> a@[j] == b@[j],
    {
        if a[i] != b[i] {
            return false;
        }
    }
    assert(a@ =~= b@);
    true
}

/// Whether two strings are equal.
pub fn same(a: &str, b: &str) -> (r: bool)
    ensures
        r == (a@ == b@),
{
    same_chars(&chars_of(a), &chars_of(b))
}

/// Whether a character is whitespace.
pub fn is_white(c: char) -> (r: bool)
    ensures
        r == white(c),
{
    let n: u32 = c as u32;
    (0x09 <= n && n <= 0x0d) || n == 0x20 || n == 0x85 || n == 0xa0 || n == 0x1680 || (0x2000 <= n
        && n <= 0x200a) || n == 0x2028 || n == 0x2029 || n == 0x202f || n == 0x205f || n == 0x3000
}

/// An ASCII letter in lower case; any other character as it is.
pub fn to_lower(c: char) -> (r: char)
    ensures
        r == lower(c),
{
    if 'A' <= c && c <= 'Z' {
        (c as u8 + 32) as char
    } else {
        c
    }
}

/// Whether a text equals another but for the case of ASCII letters.
pub fn alike_chars(a: &Vec<char>, b: &str) -> (r: bool)
    ensures
        r == alike(a@, b@),
{
    let other: Vec<char> = chars_of(b);
    if a.len() != other.len() {
        return false;
    }
    for i in 0..a.len()
        invariant
            other@ == b@,
            a@.len() == other@.len(),
            forall|j: int| 0 <= j < i ==> lower(#[trigger] a@[j]) == lower(b@[j]),
    {
        if to_lower(a[i]) != to_lower(other[i]) {
            return false;
        }
    }
    true
}

/// The text without the whitespace at its start.
pub fn trimmed_start(v: &Vec<char>) -> (r: Vec<char>)
    ensures
        r@ == trim_start(v@),
{
    let mut i: usize = 0;
    assert(v@.skip(0) =~= v@);
    while i < v.len() && is_white(v[i])
        invariant
            i <= v@.len(),
            trim_start(v@) == trim_start(v@.skip(i as int)),
        decreases v@.len() - i,
    {
        assert(v@.skip(i as int).drop_first() =~= v@.skip(i + 1));
        i = i + 1;
    }
    assert(v@.skip(i as int) =~= v@.subrange(i as int, v@.len() as int));
    piece(v, i, v.len())
}

/// The text without the whitespace at both ends.
pub fn trimmed(v: &Vec<char>) -> (r: Vec<char>)
    ensures
        r@ == trim(v@),
{
    let t: Vec<char> = trimmed_start(v);
    let mut n: usize = t.len();
    assert(t@.take(n as int) =~= t@);
    while n > 0 && is_white(t[n - 1])
        invariant
            n <= t@.len(),
            trim_end(t@) == trim_end(t@.take(n as int)),
        decreases n,
    {
        assert(t@.take(n as int).drop_last() =~= t@.take(n - 1));
        n = n - 1;
    }
    assert(t@.take(n as int) =~= t@.subrange(0, n as int));
    piece(&t, 0, n)
}

pub proof fn lemma_words_open(s: Seq<char>)
    requires
        s.len() > 0,
        !white(s.last()),
    ensures
        words(s).len() > 0,
{
}

/// The words of a text.
pub fn split_words(v: &Vec<char>) -> (r: Vec<Vec<char>>)
    ensures
        views(r@) == words(v@),
{
    let mut done: Vec<Vec<char>> = Vec::new();
    let mut word: Vec<char> = Vec::new();
    let mut open: bool = false;
    assert(views(done@) =~= words(v@.take(0)));
    for i in 0..v.len()
        invariant
            open == (i > 0 && !white(v@[i - 1])),
            open ==> views(done@).push(word@) == words(v@.take(i as int)),
            !open ==> views(done@) == words(v@.take(i as int)) && word@.len() == 0,
    {
        let ghost head = v@.take(i as int);
        let ghost next = v@.take(i + 1);
        assert(next.drop_last() =~= head);
        assert(next.last() == v@[i as int]);
        if i > 0 {
            assert(next[next.len() - 2] == v@[i - 1]);
        }
        if is_white(v[i]) {
            if open {
                let ghost before = done@;
                let ghost w = word@;
                done.push(word);
                assert(views(done@) =~= views(before).push(w));
                word = Vec::new();
            }
            open = false;
        } else {
            let ghost w = word@;
            word.push(v[i]);
            if open {
                proof {
                    let ghost all = words(head);
                    assert(all.drop_last() =~= views(done@));
                    assert(all.last() == w);
                }
            } else {
                assert(w =~= Seq::<char>::empty());
                assert(word@ =~= seq![v@[i as int]]);
            }
            open = true;
        }
    }
    assert(v@.take(v@.len() as int) =~= v@);
    if open {
        let ghost before = done@;
        let ghost w = word@;
        done.push(word);
        assert(views(done@) =~= views(before).push(w));
    }
    done
}

/// The lines of a text.
pub fn split_lines(v: &Vec<char>) -> (r: Vec<Vec<char>>)
    ensures
        views(r@) == lines(v@),
{
    let mut r: Vec<Vec<char>> = Vec::new();
    let mut at: usize = 0;
    let feed: [char; 1] = ['\n'];
    assert(feed@ =~= seq!['\n']);
    assert(v@.skip(0) =~= v@);
    assert(views(r@) + lines(v@) =~= lines(v@));
    while at < v.len()
        invariant
            at <= v@.len(),
            feed@ == seq!['\n'],
            lines(v@) == views(r@) + lines(v@.skip(at as int)),
        decreases v@.len() - at,
    {
        let ghost rest = v@.skip(at as int);
        let ghost before = views(r@);
        let n: usize = find_from(v, at, &feed);
        let feed_at: usize = at + n;
        let mut end: usize = feed_at;
        if feed_at < v.len() && n > 0 && v[feed_at - 1] == '\r' {
            end = feed_at - 1;
        }
        let line: Vec<char> = piece(v, at, end);
        let after: usize = if feed_at < v.len() { feed_at + 1 } else { v.len() };
        proof {
            if feed_at < v@.len() {
                assert(line@ =~= without_return(rest.take(n as int)));
                assert(rest.skip(n + 1) =~= v@.skip(after as int));
            } else {
                assert(line@ =~= rest);
                assert(v@.skip(v@.len() as int) =~= Seq::<char>::empty());
                assert(lines(v@.skip(v@.len() as int)) =~= seq![]);
            }
            assert(lines(rest) =~= seq![line@] + lines(v@.skip(after as int)));
            assert(before.push(line@) + lines(v@.skip(after as int)) =~= before + lines(rest));
        }
        let ghost text = line@;
        r.push(line);
        assert(views(r@) =~= before.push(text));
        at = after;
    }
    assert(v@.skip(at as int) =~= Seq::<char>::empty());
    assert(views(r@) + lines(v@.skip(at as int)) =~= views(r@));
    r
}

/// Words with single spaces between them.
pub open spec fn spaced(words: Seq<Seq<char>>) -> Seq<char>
    decreases words.len(),
{
    if words.len() == 0 {
        seq![]
    } else if words.len() == 1 {
        words[0]
    } else {
        spaced(words.drop_last()) + seq![' '] + words.last()
    }
}

/// Lines that end in a carriage return and a line feed each.
pub open spec fn document(lines: Seq<Seq<char>>) -> Seq<char>
    decreases lines.len(),
{
    if lines.len() == 0 {
        seq![]
    } else {
        document(lines.drop_last()) + lines.last() + seq!['\r', '\n']
    }
}

/// The text with a space for each line break character.
pub open spec fn one_line(s: Seq<char>) -> Seq<char> {
    Seq::new(
        s.len(),
        |i: int|
            if s[i] == '\r' || s[i] == '\n' {
                ' '
            } else {
                s[i]
            },
    )
}

/// Appends the text with a space for each line break character.
pub fn push_one_line(r: &mut String, s: &str)
    ensures
        final(r)@ == old(r)@ + one_line(s@),
{
    let v: Vec<char> = chars_of(s);
    let ghost head = r@;
    assert(head + one_line(v@).take(0) =~= head);
    for i in 0..v.len()
        invariant
            r@ =~= head + one_line(v@).take(i as int),
    {
        let c: char = if v[i] == '\r' || v[i] == '\n' { ' ' } else { v[i] };
        r.push(c);
    }
    assert(one_line(v@).take(v@.len() as int) =~= one_line(v@));
}

/// Appends a line end.
pub fn end_line(r: &mut String)
    ensures
        final(r)@ == old(r)@ + seq!['\r', '\n'],
{
    let ghost head = r@;
    r.push('\r');
    r.push('\n');
    assert(r@ =~= head + seq!['\r', '\n']);
}

/// Appends a space and a word.
pub fn push_word(r: &mut String, word: &str, Ghost(words): Ghost<Seq<Seq<char>>>)
    requires
        old(r)@ == spaced(words),
        words.len() > 0,
    ensures
        final(r)@ == spaced(words.push(word@)),
{
    r.push(' ');
    r.append(word);
    assert(words.push(word@).drop_last() =~= words);
    assert(r@ =~= spaced(words.push(word@)));
}

/// `t` stands in `s` at `i`.
pub open spec fn stands_at(s: Seq<char>, t: Seq<char>, i: int) -> bool {
    0 <= i && i + t.len() <= s.len() && s.subrange(i, i + t.len()) == t
}

/// `t` stands somewhere in `s`.
pub open spec fn holds(s: Seq<char>, t: Seq<char>) -> bool {
    exists|i: int| stands_at(s, t, i)
}

/// Whether `t` stands in `s` at `i`.
pub fn stands_chars(s: &Vec<char>, t: &Vec<char>, i: usize) -> (r: bool)
    requires
        i <= s@.len(),
    ensures
        r == stands_at(s@, t@, i as int),
{
    if s.len() - i < t.len() {
        return false;
    }
    let n: usize = s.len();
    for k in 0..t.len()
        invariant
            i + t@.len() <= s@.len() == n,
            forall|j: int| 0 <= j < k ==> s@[i + j] == t@[j],
    {
        if s[i + k] != t[k] {
            assert(s@.subrange(i as int, i + t@.len())[k as int] != t@[k as int]);
            return false;
        }
    }
    assert(s@.subrange(i as int, i + t@.len()) =~= t@);
    true
}

/// Whether `t` stands somewhere in `s`.
pub fn holds_chars(s: &Vec<char>, t: &Vec<char>) -> (r: bool)
    ensures
        r == holds(s@, t@),
{
    let mut i: usize = 0;
    while i <= s.len()
        invariant
            forall|j: int| 0 <= j < i ==> !stands_at(s@, t@, j),
            i <= s@.len() + 1,
        decreases s@.len() + 1 - i,
    {
        if stands_chars(s, t, i) {
            return true;
        }
        if i == s.len() {
            assert(forall|j: int| stands_at(s@, t@, j) ==> 0 <= j <= s@.len());
            return false;
        }
        i = i + 1;
    }
    false
}

/// What `str::to_lowercase` makes of a text.
pub uninterp spec fn lowercase(s: Seq<char>) -> Seq<char>;

/// `str::to_lowercase`: the lower-case form of the text by the Unicode rules, which
/// depends on the text alone.
#[verifier::external_body]
pub(crate) fn to_lowercase(s: &str) -> (r: String)
    ensures
        r@ == lowercase(s@),
{
    s.to_lowercase()
}

/// Words with single spaces between them.
pub fn join_words(words: &Vec<Vec<char>>) -> (r: Vec<char>)
    ensures
        r@ == spaced(views(words@)),
{
    let ghost all = views(words@);
    let mut r: Vec<char> = Vec::new();
    assert(r@ =~= spaced(all.take(0)));
    for i in 0..words.len()
        invariant
            all == views(words@),
            r@ == spaced(all.take(i as int)),
    {
        let ghost before = r@;
        if i > 0 {
            r.push(' ');
        }
        let ghost head = r@;
        push_all(&mut r, &words[i]);
        proof {
            let next = all.take(i + 1);
            assert(next.drop_last() =~= all.take(i as int));
            assert(next.last() == words@[i as int]@);
            if i > 0 {
                assert(r@ =~= before + seq![' '] + words@[i as int]@);
            } else {
                assert(before =~= seq![]);
                assert(r@ =~= next[0]);
            }
        }
    }
    assert(all.take(all.len() as int) =~= all);
    r
}

/// Appends some characters.
pub fn push_all(r: &mut Vec<char>, v: &Vec<char>)
    ensures
        final(r)@ == old(r)@ + v@,
{
    let ghost head = r@;
    assert(head + v@.take(0) =~= head);
    for i in 0..v.len()
        invariant
            r@ =~= head + v@.take(i as int),
    {
        r.push(v[i]);
    }
    assert(v@.take(v@.len() as int) =~= v@);
}

/// The views of a sequence of strings.
pub open spec fn texts(v: Seq<String>) -> Seq<Seq<char>> {
    Seq::new(v.len(), |i: int| v[i]@)
}

/// Texts with line feeds between them.
pub open spec fn on_lines(texts: Seq<Seq<char>>) -> Seq<char>
    decreases texts.len(),
{
    if texts.len() == 0 {
        seq![]
    } else if texts.len() == 1 {
        texts[0]
    } else {
        on_lines(texts.drop_last()) + seq!['\n'] + texts.last()
    }
}

/// The texts with line feeds between them.
pub fn join_lines(l: &Vec<String>) -> (r: String)
    ensures
        r@ == on_lines(texts(l@)),
{
    let ghost all = texts(l@);
    let mut r: String = String::new();
    assert(r@ =~= on_lines(all.take(0)));
    for i in 0..l.len()
        invariant
            all == texts(l@),
            r@ == on_lines(all.take(i as int)),
    {
        let ghost before = r@;
        if i > 0 {
            r.push('\n');
        }
        r.append(&l[i]);
        proof {
            let next = all.take(i + 1);
            assert(next.drop_last() =~= all.take(i as int));
            assert(next.last() == l@[i as int]@);
            if i > 0 {
                assert(r@ =~= before + seq!['\n'] + l@[i as int]@);
            } else {
                assert(before =~= seq![]);
                assert(r@ =~= next[0]);
            }
        }
    }
    assert(all.take(all.len() as int) =~= all);
    r
}

/// Appends a text to a list.
pub fn push_text(l: &mut Vec<String>, s: String)
    ensures
        texts(final(l)@) == texts(old(l)@).push(s@),
{
    let ghost before = texts(l@);
    l.push(s);
    assert(texts(l@) =~= before.push(s@));
}

/// A copy of a list of texts.
pub fn copy_list(l: &Vec<String>) -> (r: Vec<String>)
    ensures
        texts(r@) == texts(l@),
{
    let mut r: Vec<String> = Vec::new();
    for i in 0..l.len()
        invariant
            r@.len() == i,
            texts(r@) =~= texts(l@).take(i as int),
    {
        let ghost before = texts(r@);
        r.push(l[i].clone());
        assert(texts(r@) =~= before.push(l@[i as int]@));
    }
    assert(texts(r@) =~= texts(l@));
    r
}

} // verus!
