//! Taking text apart and putting it together: pieces, lines, words, joins and
//! shortened forms.
use crate::text::{chars_of, find_from, first_at, lemma_first_at, string_of, CharClass};
use vstd::prelude::*;
use vstd::string::*;

verus! {

/// The characters of each string of a list.
pub open spec fn texts(v: Seq<String>) -> Seq<Seq<char>> {
    v.map_values(|x: String| x@)
}

/// Pushing a string on a list pushes its characters.
pub broadcast proof fn lemma_texts_push(v: Seq<String>, x: String)
    ensures
        #[trigger] texts(v.push(x)) == texts(v).push(x@),
{
    assert(texts(v.push(x)) =~= texts(v).push(x@));
}

/// The position of the first character of `class` in `s`; its length if there is none.
pub open spec fn first_of(s: Seq<char>, class: CharClass) -> int
    decreases s.len(),
{
    if s.len() == 0 || class.has(s[0]) {
        0
    } else {
        1 + first_of(s.drop_first(), class)
    }
}

/// What `first_of` finds.
pub proof fn lemma_first_of(s: Seq<char>, class: CharClass)
    ensures
        0 <= first_of(s, class) <= s.len(),
        first_of(s, class) < s.len() ==> class.has(s[first_of(s, class)]),
        forall|i: int| 0 <= i < first_of(s, class) ==> !class.has(#[trigger] s[i]),
    decreases s.len(),
{
    if s.len() > 0 && !class.has(s[0]) {
        let t = s.drop_first();
        lemma_first_of(t, class);
        assert forall|i: int| 0 <= i < first_of(s, class) implies !class.has(#[trigger] s[i]) by {
            if i > 0 {
                assert(t[i - 1] == s[i]);
            }
        }
    }
}

/// A position before which nothing, and at which something, is of `class`.
pub proof fn lemma_first_of_is(s: Seq<char>, class: CharClass, n: int)
    requires
        0 <= n <= s.len(),
        forall|i: int| 0 <= i < n ==> !class.has(#[trigger] s[i]),
        n < s.len() ==> class.has(s[n]),
    ensures
        first_of(s, class) == n,
{
    lemma_first_of(s, class);
    let k = first_of(s, class);
    if k < n {
        assert(!class.has(s[k]));
    } else if n < k {
        assert(!class.has(s[n]));
    }
}

/// The pieces of `s` between the characters of `class`.
pub open spec fn pieces(s: Seq<char>, class: CharClass) -> Seq<Seq<char>>
    decreases s.len(),
{
    let n = first_of(s, class);
    if 0 <= n < s.len() {
        seq![s.take(n)] + pieces(s.skip(n + 1), class)
    } else {
        seq![s]
    }
}

/// The position of the first character of `class` in `cs` at or after `from`.
fn next_of(cs: &Vec<char>, class: CharClass, from: usize) -> (r: usize)
    requires
        from <= cs@.len(),
    ensures
        from <= r <= cs@.len(),
        first_of(cs@.skip(from as int), class) == r - from,
{
    let mut i: usize = from;
    while i < cs.len() && !class.holds(cs[i])
        invariant
            from <= i <= cs@.len(),
            forall|j: int| from <= j < i ==> !class.has(#[trigger] cs@[j]),
        decreases cs.len() - i,
    {
        i += 1;
    }
    proof {
        let s = cs@.skip(from as int);
        assert forall|j: int| 0 <= j < i - from implies !class.has(#[trigger] s[j]) by {
            assert(s[j] == cs@[from + j]);
        }
        lemma_first_of_is(s, class, i - from);
    }
    i
}

/// The pieces of `s` between the characters of `class`.
pub fn split(s: &str, class: CharClass) -> (r: Vec<String>)
    ensures
        texts(r@) == pieces(s@, class),
{
    broadcast use lemma_texts_push;

    let cs = chars_of(s);
    let mut out: Vec<String> = Vec::new();
    let mut start: usize = 0;
    proof {
        assert(cs@.skip(0) =~= s@);
        assert(texts(out@) + pieces(cs@.skip(0), class) =~= pieces(s@, class));
    }
    loop
        invariant
            cs@ == s@,
            start <= cs@.len(),
            texts(out@) + pieces(cs@.skip(start as int), class) == pieces(s@, class),
        decreases cs.len() - start,
    {
        let ghost rest = cs@.skip(start as int);
        let ghost done = texts(out@);
        let end = next_of(&cs, class, start);
        let piece = string_of(&cs, start, end);
        proof {
            assert(rest.take(end - start) =~= piece@);
        }
        out.push(piece);
        if end == cs.len() {
            assert(rest.take(end - start) =~= rest);
            assert(texts(out@) =~= done + pieces(rest, class));
            return out;
        }
        proof {
            assert(cs@.skip(end + 1) =~= rest.skip(end - start + 1));
            assert(texts(out@) + pieces(cs@.skip(end + 1), class) =~= done + (seq![piece@] + pieces(
                cs@.skip(end + 1),
                class,
            )));
        }
        start = end + 1;
    }
}

/// `s` around the first occurrence of `mark`.
pub open spec fn around_first(s: Seq<char>, mark: Seq<char>) -> Option<(Seq<char>, Seq<char>)> {
    match first_at(s, mark, 0) {
        Some(k) => Some((s.take(k), s.skip(k + mark.len()))),
        None => None,
    }
}

/// `s` around the first occurrence of `mark`.
pub fn split_once(s: &str, mark: &str) -> (r: Option<(String, String)>)
    ensures
        match r {
            Some((a, b)) => around_first(s@, mark@) == Some((a@, b@)),
            None => around_first(s@, mark@) is None,
        },
{
    let cs = chars_of(s);
    let ms = chars_of(mark);
    proof {
        lemma_first_at(s@, mark@, 0);
    }
    match find_from(&cs, &ms, 0) {
        Some(k) => {
            assert(k + ms.len() <= cs.len());
            let a = string_of(&cs, 0, k);
            let b = string_of(&cs, k + ms.len(), cs.len());
            assert(a@ =~= s@.take(k as int));
            assert(b@ =~= s@.skip(k + mark@.len()));
            Some((a, b))
        },
        None => None,
    }
}

/// `s` without a carriage return at its end.
pub open spec fn without_cr(s: Seq<char>) -> Seq<char> {
    if s.len() > 0 && s.last() == '\r' {
        s.drop_last()
    } else {
        s
    }
}

/// The lines of `s`: each ends at a line feed, or at a carriage return and a
/// line feed, neither of which belongs to it; the end of the last may be missing.
pub open spec fn lines_of(s: Seq<char>) -> Seq<Seq<char>>
    decreases s.len(),
{
    let n = first_of(s, CharClass::Only('\n'));
    if s.len() == 0 {
        Seq::empty()
    } else if 0 <= n < s.len() {
        seq![without_cr(s.take(n))] + lines_of(s.skip(n + 1))
    } else {
        seq![s]
    }
}

/// The lines of `s`.
pub fn lines(s: &str) -> (r: Vec<String>)
    ensures
        texts(r@) == lines_of(s@),
{
    broadcast use lemma_texts_push;

    let cs = chars_of(s);
    let mut out: Vec<String> = Vec::new();
    let mut start: usize = 0;
    proof {
        assert(cs@.skip(0) =~= s@);
        assert(texts(out@) + lines_of(cs@.skip(0)) =~= lines_of(s@));
    }
    while start < cs.len()
        invariant
            cs@ == s@,
            start <= cs@.len(),
            texts(out@) + lines_of(cs@.skip(start as int)) == lines_of(s@),
        decreases cs.len() - start,
    {
        let ghost rest = cs@.skip(start as int);
        let ghost done = texts(out@);
        let end = next_of(&cs, CharClass::Only('\n'), start);
        if end == cs.len() {
            let piece = string_of(&cs, start, end);
            assert(piece@ =~= rest);
            out.push(piece);
            assert(texts(out@) =~= done + lines_of(rest));
            return out;
        }
        let stop = if end > start && cs[end - 1] == '\r' {
            end - 1
        } else {
            end
        };
        let piece = string_of(&cs, start, stop);
        proof {
            assert(piece@ =~= without_cr(rest.take(end - start)));
            assert(cs@.skip(end + 1) =~= rest.skip(end - start + 1));
        }
        out.push(piece);
        proof {
            assert(texts(out@) + lines_of(cs@.skip(end + 1)) =~= done + (seq![piece@] + lines_of(
                cs@.skip(end + 1),
            )));
        }
        start = end + 1;
    }
    assert(cs@.skip(start as int) =~= Seq::<char>::empty());
    assert(texts(out@) =~= lines_of(s@));
    out
}

/// The words of `s`: its longest runs without white space.
pub open spec fn words_of(s: Seq<char>) -> Seq<Seq<char>>
    decreases s.len(),
{
    let n = first_of(s, CharClass::Whitespace);
    if s.len() == 0 {
        Seq::empty()
    } else if n == 0 {
        words_of(s.skip(1))
    } else if 0 < n < s.len() {
        seq![s.take(n)] + words_of(s.skip(n))
    } else {
        seq![s]
    }
}

/// The words of `s`.
pub fn words(s: &str) -> (r: Vec<String>)
    ensures
        texts(r@) == words_of(s@),
{
    broadcast use lemma_texts_push;

    let cs = chars_of(s);
    let mut out: Vec<String> = Vec::new();
    let mut start: usize = 0;
    proof {
        assert(cs@.skip(0) =~= s@);
        assert(texts(out@) + words_of(cs@.skip(0)) =~= words_of(s@));
    }
    while start < cs.len()
        invariant
            cs@ == s@,
            start <= cs@.len(),
            texts(out@) + words_of(cs@.skip(start as int)) == words_of(s@),
        decreases cs.len() - start,
    {
        let ghost rest = cs@.skip(start as int);
        let ghost done = texts(out@);
        let end = next_of(&cs, CharClass::Whitespace, start);
        if end == start {
            assert(cs@.skip(start + 1) =~= rest.skip(1));
            start = start + 1;
        } else {
            let piece = string_of(&cs, start, end);
            assert(piece@ =~= rest.take(end - start));
            out.push(piece);
            if end == cs.len() {
                assert(piece@ =~= rest);
                assert(texts(out@) =~= done + words_of(rest));
                return out;
            }
            proof {
                assert(cs@.skip(end as int) =~= rest.skip(end - start));
                assert(texts(out@) + words_of(cs@.skip(end as int)) =~= done + (seq![piece@]
                    + words_of(cs@.skip(end as int))));
            }
            start = end;
        }
    }
    assert(cs@.skip(start as int) =~= Seq::<char>::empty());
    assert(texts(out@) =~= words_of(s@));
    out
}

/// The parts one after the other, with `sep` between each two.
pub open spec fn joined(parts: Seq<Seq<char>>, sep: Seq<char>) -> Seq<char>
    decreases parts.len(),
{
    if parts.len() == 0 {
        Seq::empty()
    } else if parts.len() == 1 {
        parts[0]
    } else {
        joined(parts.drop_last(), sep) + sep + parts.last()
    }
}

/// The parts one after the other, with `sep` between each two.
pub fn join(parts: &Vec<String>, sep: &str) -> (r: String)
    ensures
        r@ == joined(texts(parts@), sep@),
{
    let mut out = String::new();
    let mut i: usize = 0;
    let ghost all = texts(parts@);
    while i < parts.len()
        invariant
            i <= parts@.len(),
            all == texts(parts@),
            out@ == joined(all.take(i as int), sep@),
        decreases parts.len() - i,
    {
        proof {
            assert(all.take(i + 1).drop_last() =~= all.take(i as int));
            assert(all.take(i + 1).last() == parts@[i as int]@);
        }
        if i > 0 {
            out.append(sep);
        }
        out.append(parts[i].as_str());
        i += 1;
    }
    assert(all.take(i as int) =~= all);
    out
}

/// The pieces of two texts with a character of `class` between them.
pub proof fn lemma_pieces_around(x: Seq<char>, c: char, y: Seq<char>, class: CharClass)
    requires
        class.has(c),
    ensures
        pieces(x.push(c) + y, class) == pieces(x, class) + pieces(y, class),
    decreases x.len(),
{
    let z = x.push(c) + y;
    let n = first_of(x, class);
    lemma_first_of(x, class);
    assert forall|i: int| 0 <= i < n implies !class.has(#[trigger] z[i]) by {
        assert(z[i] == x[i]);
    }
    lemma_first_of_is(z, class, n);
    if n < x.len() {
        assert(z.take(n) =~= x.take(n));
        assert(z.skip(n + 1) =~= x.skip(n + 1).push(c) + y);
        lemma_pieces_around(x.skip(n + 1), c, y, class);
        assert(pieces(z, class) =~= pieces(x, class) + pieces(y, class));
    } else {
        assert(z.take(n) =~= x);
        assert(z.skip(n + 1) =~= y);
        assert(pieces(z, class) =~= pieces(x, class) + pieces(y, class));
    }
}

/// Splitting a joined text at the separator gives its parts back, where no
/// part holds the separator.
pub proof fn lemma_pieces_of_joined(parts: Seq<Seq<char>>, c: char, sep: Seq<char>)
    requires
        parts.len() > 0,
        sep == seq![c],
        forall|i: int, j: int|
            0 <= i < parts.len() && 0 <= j < parts[i].len() ==> #[trigger] parts[i][j] != c,
    ensures
        pieces(joined(parts, sep), CharClass::Only(c)) == parts,
    decreases parts.len(),
{
    let class = CharClass::Only(c);
    let last = parts.last();
    assert forall|j: int| 0 <= j < last.len() implies !class.has(#[trigger] last[j]) by {
        assert(parts[parts.len() - 1][j] != c);
    }
    lemma_first_of_is(last, class, last.len() as int);
    assert(pieces(last, class) =~= seq![last]);
    if parts.len() == 1 {
        assert(parts =~= seq![last]);
    } else {
        let before = parts.drop_last();
        assert forall|i: int, j: int|
            0 <= i < before.len() && 0 <= j < before[i].len() implies #[trigger] before[i][j]
            != c by {
            assert(parts[i][j] != c);
        }
        lemma_pieces_of_joined(before, c, sep);
        let x = joined(before, sep);
        lemma_pieces_around(x, c, last, class);
        assert(joined(parts, sep) =~= x.push(c) + last);
        assert(before + seq![last] =~= parts);
    }
}

/// `s` if it has at most `max` characters; else its first `max - 1` characters
/// (none where `max` is 0) and an ellipsis.
pub open spec fn shortened(s: Seq<char>, max: int) -> Seq<char> {
    if s.len() <= max {
        s
    } else if max <= 0 {
        "…"@
    } else {
        s.take(max - 1) + "…"@
    }
}

/// `s` cut down to `max` characters, the last of which is then an ellipsis.
pub fn shorten(s: &str, max: usize) -> (r: String)
    ensures
        r@ == shortened(s@, max as int),
{
    let n = s.unicode_len();
    if n <= max {
        s.to_owned()
    } else {
        let keep: usize = if max == 0 {
            0
        } else {
            max - 1
        };
        let mut out = s.substring_char(0, keep).to_owned();
        out.append("…");
        assert(out@ =~= s@.take(keep as int) + "…"@);
        assert(max == 0 ==> out@ =~= "…"@);
        out
    }
}

/// At most the first `max` characters of `s`.
pub open spec fn head(s: Seq<char>, max: int) -> Seq<char> {
    if s.len() <= max {
        s
    } else {
        s.take(max)
    }
}

/// At most the first `max` characters of `s`.
pub fn first_chars(s: &str, max: usize) -> (r: String)
    ensures
        r@ == head(s@, max as int),
{
    let n = s.unicode_len();
    if n <= max {
        s.to_owned()
    } else {
        let out = s.substring_char(0, max).to_owned();
        assert(out@ =~= s@.take(max as int));
        out
    }
}

/// A shortened text is no longer than was asked for.
pub proof fn law_shortened_fits(s: Seq<char>, max: int)
    requires
        max >= 1,
    ensures
        shortened(s, max).len() <= max,
{
    reveal_strlit("…");
}

/// Shortening twice to the same length is shortening once.
pub proof fn law_shortened_idempotent(s: Seq<char>, max: int)
    requires
        max >= 1,
    ensures
        shortened(shortened(s, max), max) == shortened(s, max),
{
    law_shortened_fits(s, max);
}

/// Each part stands in the joined text.
pub proof fn law_joined_holds_parts(parts: Seq<Seq<char>>, sep: Seq<char>, k: int)
    requires
        0 <= k < parts.len(),
    ensures
        crate::text::occurs(joined(parts, sep), parts[k]),
    decreases parts.len(),
{
    let all = joined(parts, sep);
    let p = parts[k];
    if parts.len() == 1 {
        assert(all.subrange(0, all.len() as int) =~= p);
        assert(crate::text::occurs_at(all, p, 0));
    } else {
        let before = joined(parts.drop_last(), sep);
        if k == parts.len() - 1 {
            let n = (before.len() + sep.len()) as int;
            assert(all.subrange(n, n + p.len()) =~= p);
            assert(crate::text::occurs_at(all, p, n));
        } else {
            law_joined_holds_parts(parts.drop_last(), sep, k);
            assert(parts.drop_last()[k] == p);
            let i = choose|i: int| crate::text::occurs_at(before, p, i);
            assert(all.subrange(i, i + p.len()) =~= before.subrange(i, i + p.len()));
            assert(crate::text::occurs_at(all, p, i));
        }
    }
}

/// A text that is too long keeps its beginning, and ends in an ellipsis; one that fits stays.
pub proof fn law_shortened_keeps_beginning(s: Seq<char>, max: int)
    requires
        max >= 1,
    ensures
        s.len() <= max ==> shortened(s, max) == s && head(s, max) == s,
        s.len() > max ==> shortened(s, max) == s.take(max - 1) + seq!['…'] && head(s, max)
            == s.take(max),
{
    reveal_strlit("…");
    assert("…"@ =~= seq!['…']);
}

/// A line ends at its line feed, and a carriage return before that does not belong to it; what
/// follows are the other lines.
pub proof fn law_lines_end_at_line_feeds(line: Seq<char>, rest: Seq<char>)
    requires
        forall|i: int| 0 <= i < line.len() ==> #[trigger] line[i] != '\n',
        line.len() > 0 ==> line.last() != '\r',
    ensures
        lines_of(line + seq!['\n'] + rest) == seq![line] + lines_of(rest),
        lines_of(line + seq!['\r', '\n'] + rest) == seq![line] + lines_of(rest),
        line.len() > 0 ==> lines_of(line) == seq![line],
        lines_of(Seq::empty()).len() == 0,
{
    let feed = CharClass::Only('\n');
    let n = line.len() as int;
    let s = line + seq!['\n'] + rest;
    let t = line + seq!['\r', '\n'] + rest;
    assert forall|i: int| 0 <= i < n implies !feed.has(#[trigger] s[i]) by {
        assert(s[i] == line[i]);
    }
    assert forall|i: int| 0 <= i < n + 1 implies !feed.has(#[trigger] t[i]) by {
        if i < n {
            assert(t[i] == line[i]);
        }
    }
    lemma_first_of_is(s, feed, n);
    lemma_first_of_is(t, feed, n + 1);
    lemma_first_of_is(line, feed, n);
    assert(s.take(n) =~= line);
    assert(s.skip(n + 1) =~= rest);
    assert(t.take(n + 1).drop_last() =~= line);
    assert(t.skip(n + 2) =~= rest);
}

/// Joining puts the separator between each two parts, and nowhere else.
pub proof fn law_parts_are_joined(parts: Seq<Seq<char>>, p: Seq<char>, sep: Seq<char>)
    ensures
        joined(Seq::empty(), sep).len() == 0,
        joined(seq![p], sep) == p,
        parts.len() > 0 ==> joined(parts.push(p), sep) == joined(parts, sep) + sep + p,
{
    assert(parts.push(p).drop_last() =~= parts);
}

} // verus!
