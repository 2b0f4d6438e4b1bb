//! Character-level text primitives shared by every other module.
//!
//! A string is modelled by the sequence of its characters (`s@`). Every
//! function here comes with a small recursive or quantified description of its
//! result, on which the contracts of the other modules are built.
use vstd::prelude::*;
use vstd::string::*;

verus! {

/// `String::push` appends the given character to the end of the string.
pub assume_specification[ String::push ](s: &mut String, ch: char)
    ensures
        final(s)@ == old(s)@.push(ch),
;

/// The white space characters: those with the Unicode `White_Space` property.
pub open spec fn is_ws(c: char) -> bool {
    ||| '\u{9}' <= c <= '\u{d}'
    ||| c == ' '
    ||| c == '\u{85}'
    ||| c == '\u{a0}'
    ||| c == '\u{1680}'
    ||| '\u{2000}' <= c <= '\u{200a}'
    ||| c == '\u{2028}'
    ||| c == '\u{2029}'
    ||| c == '\u{202f}'
    ||| c == '\u{205f}'
    ||| c == '\u{3000}'
}

/// Is `c` white space?
pub fn is_whitespace(c: char) -> (r: bool)
    ensures
        r == is_ws(c),
{
    ('\u{9}' <= c && c <= '\u{d}') || c == ' ' || c == '\u{85}' || c == '\u{a0}' || c == '\u{1680}'
        || ('\u{2000}' <= c && c <= '\u{200a}') || c == '\u{2028}' || c == '\u{2029}' || c
        == '\u{202f}' || c == '\u{205f}' || c == '\u{3000}'
}

/// A set of characters to trim or to split at.
#[derive(Clone, Copy)]
pub enum CharClass {
    /// Unicode white space.
    Whitespace,
    /// A space or a tab.
    Blank,
    /// The marks between and after the fields of a clock time.
    ClockMark,
    /// One character.
    Only(char),
}

impl CharClass {
    /// Does the class hold `c`?
    pub open spec fn has(self, c: char) -> bool {
        match self {
            CharClass::Whitespace => is_ws(c),
            CharClass::Blank => c == ' ' || c == '\t',
            CharClass::ClockMark => c == ':' || c == '.' || c == 'Z' || c == '+' || c == '-',
            CharClass::Only(d) => c == d,
        }
    }

    /// Does the class hold `c`?
    pub fn holds(self, c: char) -> (r: bool)
        ensures
            r == self.has(c),
    {
        match self {
            CharClass::Whitespace => is_whitespace(c),
            CharClass::Blank => c == ' ' || c == '\t',
            CharClass::ClockMark => c == ':' || c == '.' || c == 'Z' || c == '+' || c == '-',
            CharClass::Only(d) => c == d,
        }
    }
}

/// The characters of a string.
pub fn chars_of(s: &str) -> (v: Vec<char>)
    ensures
        v@ == s@,
{
    let mut v: Vec<char> = Vec::new();
    for c in it: s.chars()
        invariant
            v@ == it.seq().take(it.index() as int),
            it.seq() == s@,
    {
        v.push(c);
    }
    v
}

/// The string made of the characters `cs[from..to]`.
pub fn string_of(cs: &Vec<char>, from: usize, to: usize) -> (r: String)
    requires
        from <= to <= cs@.len(),
    ensures
        r@ == cs@.subrange(from as int, to as int),
{
    let mut r = String::new();
    let mut i: usize = from;
    while i < to
        invariant
            from <= i <= to <= cs@.len(),
            r@ == cs@.subrange(from as int, i as int),
        decreases to - i,
    {
        r.push(cs[i]);
        i += 1;
    }
    r
}

/// Do two strings hold the same characters?
pub fn str_eq(a: &str, b: &str) -> (r: bool)
    ensures
        r == (a@ == b@),
{
    let x = chars_of(a);
    let y = chars_of(b);
    if x.len() != y.len() {
        return false;
    }
    let mut i: usize = 0;
    while i < x.len()
        invariant
            x@.len() == y@.len(),
            i <= x@.len(),
            forall|j: int| 0 <= j < i ==> x@[j] == y@[j],
            x@ == a@,
            y@ == b@,
        decreases x.len() - i,
    {
        if x[i] != y[i] {
            assert(a@[i as int] != b@[i as int]);
            return false;
        }
        i += 1;
    }
    assert(a@ =~= b@);
    true
}

/// Has `s` no characters?
pub fn is_empty(s: &str) -> (r: bool)
    ensures
        r == (s@.len() == 0),
{
    s.unicode_len() == 0
}

/// `s` without its leading characters of `class`.
pub open spec fn drop_leading(s: Seq<char>, class: CharClass) -> Seq<char>
    decreases s.len(),
{
    if s.len() > 0 && class.has(s[0]) {
        drop_leading(s.drop_first(), class)
    } else {
        s
    }
}

/// `s` without its trailing characters of `class`.
pub open spec fn drop_trailing(s: Seq<char>, class: CharClass) -> Seq<char>
    decreases s.len(),
{
    if s.len() > 0 && class.has(s.last()) {
        drop_trailing(s.drop_last(), class)
    } else {
        s
    }
}

/// `s` without leading and trailing characters of `class`.
pub open spec fn drop_around(s: Seq<char>, class: CharClass) -> Seq<char> {
    drop_trailing(drop_leading(s, class), class)
}

/// `s` without leading and trailing white space.
pub open spec fn trimmed(s: Seq<char>) -> Seq<char> {
    drop_around(s, CharClass::Whitespace)
}

/// Where the text that `drop_leading` keeps begins.
proof fn lemma_drop_leading_at(s: Seq<char>, class: CharClass, n: int)
    requires
        0 <= n <= s.len(),
        forall|i: int| 0 <= i < n ==> class.has(#[trigger] s[i]),
        n < s.len() ==> !class.has(s[n]),
    ensures
        drop_leading(s, class) == s.skip(n),
    decreases n,
{
    if n == 0 {
        assert(s.skip(0) =~= s);
    } else {
        assert(class.has(s[0]));
        let t = s.drop_first();
        assert forall|i: int| 0 <= i < n - 1 implies class.has(#[trigger] t[i]) by {
            assert(t[i] == s[i + 1]);
        }
        lemma_drop_leading_at(t, class, n - 1);
        assert(t.skip(n - 1) =~= s.skip(n));
    }
}

/// Where the text that `drop_trailing` keeps ends.
proof fn lemma_drop_trailing_at(s: Seq<char>, class: CharClass, n: int)
    requires
        0 <= n <= s.len(),
        forall|i: int| n <= i < s.len() ==> class.has(#[trigger] s[i]),
        n > 0 ==> !class.has(s[n - 1]),
    ensures
        drop_trailing(s, class) == s.take(n),
    decreases s.len() - n,
{
    if n == s.len() {
        assert(s.take(n) =~= s);
    } else {
        assert(class.has(s[s.len() - 1]));
        let t = s.drop_last();
        assert forall|i: int| n <= i < t.len() implies class.has(#[trigger] t[i]) by {
            assert(t[i] == s[i]);
        }
        lemma_drop_trailing_at(t, class, n);
        assert(t.take(n) =~= s.take(n));
    }
}

/// What `drop_leading` keeps begins with a character outside `class`, and is a
/// tail of `s`.
proof fn lemma_drop_leading(s: Seq<char>, class: CharClass)
    ensures
        drop_leading(s, class).len() > 0 ==> !class.has(drop_leading(s, class)[0]),
        drop_leading(s, class).len() <= s.len(),
        drop_leading(s, class).len() > 0 ==> drop_leading(s, class).last() == s.last(),
    decreases s.len(),
{
    if s.len() > 0 && class.has(s[0]) {
        lemma_drop_leading(s.drop_first(), class);
    }
}

/// What `drop_trailing` keeps ends with a character outside `class`, and is a
/// head of `s`.
pub proof fn lemma_drop_trailing(s: Seq<char>, class: CharClass)
    ensures
        drop_trailing(s, class).len() > 0 ==> !class.has(drop_trailing(s, class).last()),
        drop_trailing(s, class).len() <= s.len(),
        drop_trailing(s, class).len() > 0 ==> drop_trailing(s, class)[0] == s[0],
    decreases s.len(),
{
    if s.len() > 0 && class.has(s.last()) {
        lemma_drop_trailing(s.drop_last(), class);
    }
}

/// A text that does not begin with a character of `class` keeps its start.
pub proof fn lemma_drop_leading_none(s: Seq<char>, class: CharClass)
    requires
        s.len() > 0 ==> !class.has(s[0]),
    ensures
        drop_leading(s, class) == s,
{
}

/// A text that does not end with a character of `class` keeps its end.
pub proof fn lemma_drop_trailing_none(s: Seq<char>, class: CharClass)
    requires
        s.len() > 0 ==> !class.has(s.last()),
    ensures
        drop_trailing(s, class) == s,
{
}

/// Trimmed text neither begins nor ends with white space.
pub proof fn lemma_trimmed_edges(s: Seq<char>)
    ensures
        trimmed(s).len() > 0 ==> !is_ws(trimmed(s)[0]) && !is_ws(trimmed(s).last()),
        trimmed(s).len() <= s.len(),
{
    lemma_drop_leading(s, CharClass::Whitespace);
    lemma_drop_trailing(drop_leading(s, CharClass::Whitespace), CharClass::Whitespace);
}

/// Trimming twice is trimming once.
pub proof fn law_trim_idempotent(s: Seq<char>)
    ensures
        trimmed(trimmed(s)) == trimmed(s),
{
    lemma_trimmed_edges(s);
}

/// `s` without its leading characters of `class`.
pub fn trim_leading<'a>(s: &'a str, class: CharClass) -> (r: &'a str)
    ensures
        r@ == drop_leading(s@, class),
{
    let cs = chars_of(s);
    let mut n: usize = 0;
    while n < cs.len() && class.holds(cs[n])
        invariant
            n <= cs@.len(),
            forall|i: int| 0 <= i < n ==> class.has(#[trigger] cs@[i]),
        decreases cs.len() - n,
    {
        n += 1;
    }
    proof {
        lemma_drop_leading_at(s@, class, n as int);
        assert(s@.skip(n as int) =~= s@.subrange(n as int, s@.len() as int));
    }
    s.substring_char(n, cs.len())
}

/// `s` without its trailing characters of `class`.
pub fn trim_trailing<'a>(s: &'a str, class: CharClass) -> (r: &'a str)
    ensures
        r@ == drop_trailing(s@, class),
{
    let cs = chars_of(s);
    let mut n: usize = cs.len();
    while n > 0 && class.holds(cs[n - 1])
        invariant
            n <= cs@.len(),
            forall|i: int| n <= i < cs@.len() ==> class.has(#[trigger] cs@[i]),
        decreases n,
    {
        n -= 1;
    }
    proof {
        lemma_drop_trailing_at(s@, class, n as int);
        assert(s@.take(n as int) =~= s@.subrange(0, n as int));
    }
    s.substring_char(0, n)
}

/// `s` without leading and trailing characters of `class`.
pub fn trim_around<'a>(s: &'a str, class: CharClass) -> (r: &'a str)
    ensures
        r@ == drop_around(s@, class),
{
    trim_trailing(trim_leading(s, class), class)
}

/// `s` without leading and trailing white space.
pub fn trim<'a>(s: &'a str) -> (r: &'a str)
    ensures
        r@ == trimmed(s@),
{
    trim_around(s, CharClass::Whitespace)
}


/// Does `needle` stand in `s` at position `i`?
pub open spec fn occurs_at(s: Seq<char>, needle: Seq<char>, i: int) -> bool {
    &&& 0 <= i
    &&& i + needle.len() <= s.len()
    &&& s.subrange(i, i + needle.len()) == needle
}

/// Does `needle` stand anywhere in `s`?
pub open spec fn occurs(s: Seq<char>, needle: Seq<char>) -> bool {
    exists|i: int| occurs_at(s, needle, i)
}

/// The first position at which `needle` stands in `s`, at or after `from`.
pub open spec fn first_at(s: Seq<char>, needle: Seq<char>, from: int) -> Option<int>
    decreases s.len() + 1 - from,
{
    if from < 0 || from + needle.len() > s.len() {
        None
    } else if occurs_at(s, needle, from) {
        Some(from)
    } else {
        first_at(s, needle, from + 1)
    }
}

/// `first_at` finds a position exactly when there is one, and none comes before it.
pub proof fn lemma_first_at(s: Seq<char>, needle: Seq<char>, from: int)
    requires
        0 <= from,
    ensures
        match first_at(s, needle, from) {
            Some(k) => from <= k && occurs_at(s, needle, k) && (forall|i: int|
                from <= i < k ==> !occurs_at(s, needle, i)),
            None => forall|i: int| from <= i ==> !occurs_at(s, needle, i),
        },
    decreases s.len() + 1 - from,
{
    if from + needle.len() > s.len() {
    } else if occurs_at(s, needle, from) {
    } else {
        lemma_first_at(s, needle, from + 1);
    }
}

/// Do the characters of `needle` stand in `cs` at position `i`?
pub fn stands_at(cs: &Vec<char>, needle: &Vec<char>, i: usize) -> (r: bool)
    ensures
        r == occurs_at(cs@, needle@, i as int),
{
    if i > cs.len() || needle.len() > cs.len() - i {
        return false;
    }
    let mut j: usize = 0;
    while j < needle.len()
        invariant
            i + needle.len() <= cs.len(),
            j <= needle@.len(),
            forall|k: int| 0 <= k < j ==> cs@[i + k] == needle@[k],
        decreases needle.len() - j,
    {
        if cs[i + j] != needle[j] {
            assert(cs@.subrange(i as int, i + needle@.len())[j as int] != needle@[j as int]);
            return false;
        }
        j += 1;
    }
    assert(cs@.subrange(i as int, i + needle@.len()) =~= needle@);
    true
}

/// The first position at or after `from` at which `needle` stands in `cs`.
pub fn find_from(cs: &Vec<char>, needle: &Vec<char>, from: usize) -> (r: Option<usize>)
    ensures
        match r {
            Some(k) => first_at(cs@, needle@, from as int) == Some(k as int),
            None => first_at(cs@, needle@, from as int) is None,
        },
{
    let mut i: usize = from;
    while i <= cs.len() && needle.len() <= cs.len() - i
        invariant
            from <= i <= usize::MAX,
            first_at(cs@, needle@, from as int) == first_at(cs@, needle@, i as int),
        decreases cs.len() + 1 - i,
    {
        if stands_at(cs, needle, i) {
            return Some(i);
        }
        if i == cs.len() {
            assert(cs@.subrange(i as int, i + needle@.len()) =~= needle@);
            return None;
        }
        i += 1;
    }
    None
}

/// Does `s` hold `needle`?
pub fn contains(s: &str, needle: &str) -> (r: bool)
    ensures
        r == occurs(s@, needle@),
{
    let cs = chars_of(s);
    let ns = chars_of(needle);
    proof {
        lemma_first_at(s@, needle@, 0);
    }
    match find_from(&cs, &ns, 0) {
        Some(_) => true,
        None => {
            assert forall|i: int| !occurs_at(s@, needle@, i) by {}
            false
        },
    }
}

/// Does `s` begin with `p`?
pub open spec fn begins(s: Seq<char>, p: Seq<char>) -> bool {
    s.len() >= p.len() && s.take(p.len() as int) == p
}

/// Does `s` end with `p`?
pub open spec fn ends(s: Seq<char>, p: Seq<char>) -> bool {
    s.len() >= p.len() && s.skip(s.len() - p.len()) == p
}

/// Does `s` begin with `p`?
pub fn starts_with(s: &str, p: &str) -> (r: bool)
    ensures
        r == begins(s@, p@),
{
    let cs = chars_of(s);
    let ps = chars_of(p);
    proof {
        if s@.len() >= p@.len() {
            assert(s@.take(p@.len() as int) =~= s@.subrange(0, p@.len() as int));
        }
    }
    stands_at(&cs, &ps, 0)
}

/// Does `s` end with `p`?
pub fn ends_with(s: &str, p: &str) -> (r: bool)
    ensures
        r == ends(s@, p@),
{
    let cs = chars_of(s);
    let ps = chars_of(p);
    if ps.len() > cs.len() {
        return false;
    }
    proof {
        assert(s@.skip(s@.len() - p@.len()) =~= s@.subrange(
            s@.len() - p@.len(),
            s@.len() as int,
        ));
    }
    stands_at(&cs, &ps, cs.len() - ps.len())
}

/// What follows `p` where `s` begins with it.
pub open spec fn after_prefix(s: Seq<char>, p: Seq<char>) -> Option<Seq<char>> {
    if begins(s, p) {
        Some(s.skip(p.len() as int))
    } else {
        None
    }
}

/// What comes before `p` where `s` ends with it.
pub open spec fn before_suffix(s: Seq<char>, p: Seq<char>) -> Option<Seq<char>> {
    if ends(s, p) {
        Some(s.take(s.len() - p.len()))
    } else {
        None
    }
}

/// An optional string, by its characters.
pub open spec fn opt_view(o: Option<&str>) -> Option<Seq<char>> {
    match o {
        Some(s) => Some(s@),
        None => None,
    }
}

/// An optional owned string, by its characters.
pub open spec fn opt_text(o: Option<String>) -> Option<Seq<char>> {
    match o {
        Some(s) => Some(s@),
        None => None,
    }
}

/// A copy of an optional string.
pub fn copy_opt(o: &Option<String>) -> (r: Option<String>)
    ensures
        opt_text(r) == opt_text(*o),
{
    match o {
        Some(s) => Some(s.clone()),
        None => None,
    }
}

/// An owned copy of an optional string.
pub fn own_opt(o: Option<&str>) -> (r: Option<String>)
    ensures
        opt_text(r) == opt_view(o),
{
    match o {
        Some(s) => Some(s.to_owned()),
        None => None,
    }
}

/// A text without the white space around it, where anything is left.
pub open spec fn nonblank(o: Option<Seq<char>>) -> Option<Seq<char>> {
    match o {
        Some(s) => if trimmed(s).len() > 0 {
            Some(trimmed(s))
        } else {
            None
        },
        None => None,
    }
}

/// A text without the white space around it, where anything is left.
pub fn trim_opt(o: Option<&str>) -> (r: Option<String>)
    ensures
        opt_text(r) == nonblank(opt_view(o)),
{
    match o {
        Some(s) => {
            let t = trim(s);
            if t.unicode_len() > 0 {
                Some(t.to_owned())
            } else {
                None
            }
        },
        None => None,
    }
}

/// The first of two optional values that is there.
pub open spec fn or_else<A>(a: Option<A>, b: Option<A>) -> Option<A> {
    match a {
        Some(_) => a,
        None => b,
    }
}

/// `b` after `a`.
pub fn concat(a: &str, b: &str) -> (r: String)
    ensures
        r@ == a@ + b@,
{
    let mut out = a.to_owned();
    out.append(b);
    out
}

/// The parts one after the other.
pub fn concat3(a: &str, b: &str, c: &str) -> (r: String)
    ensures
        r@ == a@ + b@ + c@,
{
    let mut out = a.to_owned();
    out.append(b);
    out.append(c);
    out
}

/// What follows `p` where `s` begins with it.
pub fn strip_prefix<'a>(s: &'a str, p: &str) -> (r: Option<&'a str>)
    ensures
        opt_view(r) == after_prefix(s@, p@),
{
    if starts_with(s, p) {
        let n = s.unicode_len();
        let k = p.unicode_len();
        assert(s@.skip(k as int) =~= s@.subrange(k as int, n as int));
        Some(s.substring_char(k, n))
    } else {
        None
    }
}

/// What comes before `p` where `s` ends with it.
pub fn strip_suffix<'a>(s: &'a str, p: &str) -> (r: Option<&'a str>)
    ensures
        opt_view(r) == before_suffix(s@, p@),
{
    if ends_with(s, p) {
        let n = s.unicode_len();
        let k = p.unicode_len();
        assert(s@.take(n - k) =~= s@.subrange(0, n - k));
        Some(s.substring_char(0, n - k))
    } else {
        None
    }
}

/// `s` without as many copies of `p` as stand at its end.
pub open spec fn drop_suffixes(s: Seq<char>, p: Seq<char>) -> Seq<char>
    decreases s.len(),
{
    if p.len() > 0 && ends(s, p) {
        drop_suffixes(s.take(s.len() - p.len()), p)
    } else {
        s
    }
}

/// `s` without as many copies of `p` as stand at its start.
pub open spec fn drop_prefixes(s: Seq<char>, p: Seq<char>) -> Seq<char>
    decreases s.len(),
{
    if p.len() > 0 && begins(s, p) {
        drop_prefixes(s.skip(p.len() as int), p)
    } else {
        s
    }
}

/// `s` without as many copies of `p` as stand at its end.
pub fn trim_suffixes<'a>(s: &'a str, p: &str) -> (r: &'a str)
    requires
        p@.len() > 0,
    ensures
        r@ == drop_suffixes(s@, p@),
    decreases s@.len(),
{
    match strip_suffix(s, p) {
        Some(t) => trim_suffixes(t, p),
        None => s,
    }
}

/// `s` without as many copies of `p` as stand at its start.
pub fn trim_prefixes<'a>(s: &'a str, p: &str) -> (r: &'a str)
    requires
        p@.len() > 0,
    ensures
        r@ == drop_prefixes(s@, p@),
    decreases s@.len(),
{
    match strip_prefix(s, p) {
        Some(t) => trim_prefixes(t, p),
        None => s,
    }
}

/// `s` with each occurrence of `from` replaced by `to`, left to right.
pub open spec fn replaced(s: Seq<char>, from: Seq<char>, to: Seq<char>) -> Seq<char>
    decreases s.len(),
{
    match first_at(s, from, 0) {
        Some(k) => if 0 < from.len() && 0 <= k && k + from.len() <= s.len() {
            s.take(k) + to + replaced(s.skip(k + from.len()), from, to)
        } else {
            s
        },
        None => s,
    }
}

/// `s` with the first occurrence of `from` replaced by `to`.
pub open spec fn replaced_once(s: Seq<char>, from: Seq<char>, to: Seq<char>) -> Seq<char> {
    match first_at(s, from, 0) {
        Some(k) => s.take(k) + to + s.skip(k + from.len()),
        None => s,
    }
}

/// `s` with each occurrence of `from` replaced by `to`, left to right.
pub fn replace(s: &str, from: &str, to: &str) -> (r: String)
    requires
        from@.len() > 0,
    ensures
        r@ == replaced(s@, from@, to@),
{
    let ns = chars_of(from);
    let mut rest = chars_of(s);
    let mut out = String::new();
    proof {
        assert(out@ + replaced(rest@, from@, to@) =~= replaced(s@, from@, to@));
    }
    loop
        invariant
            ns@ == from@,
            from@.len() > 0,
            out@ + replaced(rest@, from@, to@) == replaced(s@, from@, to@),
        decreases rest.len(),
    {
        let ghost whole = rest@;
        proof {
            lemma_first_at(rest@, from@, 0);
        }
        match find_from(&rest, &ns, 0) {
            Some(k) => {
                let before = string_of(&rest, 0, k);
                let ghost kept = out@;
                out.append(before.as_str());
                out.append(to);
                let tail = string_of(&rest, k + ns.len(), rest.len());
                rest = chars_of(tail.as_str());
                proof {
                    assert(whole.take(k as int) =~= before@);
                    assert(whole.skip(k + from@.len()) =~= rest@);
                    assert(out@ + replaced(rest@, from@, to@) =~= kept + (before@ + to@ + replaced(
                        rest@,
                        from@,
                        to@,
                    )));
                }
            },
            None => {
                let tail = string_of(&rest, 0, rest.len());
                assert(tail@ =~= rest@);
                out.append(tail.as_str());
                return out;
            },
        }
    }
}

/// `s` with the first occurrence of `from` replaced by `to`.
pub fn replace_once(s: &str, from: &str, to: &str) -> (r: String)
    ensures
        r@ == replaced_once(s@, from@, to@),
{
    let ns = chars_of(from);
    let cs = chars_of(s);
    proof {
        lemma_first_at(s@, from@, 0);
    }
    match find_from(&cs, &ns, 0) {
        Some(k) => {
            assert(k + ns.len() <= cs.len());
            let mut out = string_of(&cs, 0, k);
            out.append(to);
            let tail = string_of(&cs, k + ns.len(), cs.len());
            out.append(tail.as_str());
            assert(out@ =~= s@.take(k as int) + to@ + s@.skip(k + from@.len()));
            out
        },
        None => s.to_owned(),
    }
}

/// Trimmed text is a part of the text, and all that is cut off is white space.
pub proof fn law_trim_cuts_only_white_space(s: Seq<char>)
    ensures
        exists|a: int, b: int|
            0 <= a <= b <= s.len() && trimmed(s) == #[trigger] s.subrange(a, b) && (forall|i: int|
                0 <= i < a || b <= i < s.len() ==> is_ws(#[trigger] s[i])),
        forall|i: int|
            0 <= i < trimmed(s).len() ==> s.contains(#[trigger] trimmed(s)[i]),
{
    let t = drop_leading(s, CharClass::Whitespace);
    lemma_leading_within(s, CharClass::Whitespace);
    let a = choose|a: int|
        0 <= a <= s.len() && t == #[trigger] s.skip(a) && (forall|i: int|
            0 <= i < a ==> CharClass::Whitespace.has(#[trigger] s[i]));
    lemma_trailing_within(t, CharClass::Whitespace);
    let n = choose|n: int|
        0 <= n <= t.len() && drop_trailing(t, CharClass::Whitespace) == #[trigger] t.take(n) && (
        forall|i: int| n <= i < t.len() ==> CharClass::Whitespace.has(#[trigger] t[i]));
    assert(trimmed(s) =~= s.subrange(a, a + n));
    assert forall|i: int| 0 <= i < a || a + n <= i < s.len() implies is_ws(#[trigger] s[i]) by {
        if i >= a + n {
            assert(t[i - a] == s[i]);
        }
    }
    assert forall|i: int| 0 <= i < trimmed(s).len() implies s.contains(#[trigger] trimmed(s)[i]) by {
        assert(trimmed(s)[i] == s[a + i]);
    }
}

/// What `drop_leading` cuts off.
proof fn lemma_leading_within(s: Seq<char>, class: CharClass)
    ensures
        exists|a: int|
            0 <= a <= s.len() && drop_leading(s, class) == #[trigger] s.skip(a) && (forall|i: int|
                0 <= i < a ==> class.has(#[trigger] s[i])),
    decreases s.len(),
{
    if s.len() > 0 && class.has(s[0]) {
        let t = s.drop_first();
        lemma_leading_within(t, class);
        let a = choose|a: int|
            0 <= a <= t.len() && drop_leading(t, class) == #[trigger] t.skip(a) && (forall|i: int|
                0 <= i < a ==> class.has(#[trigger] t[i]));
        assert(t.skip(a) =~= s.skip(a + 1));
        assert forall|i: int| 0 <= i < a + 1 implies class.has(#[trigger] s[i]) by {
            if i > 0 {
                assert(t[i - 1] == s[i]);
            }
        }
    } else {
        assert(s.skip(0) =~= s);
    }
}

/// What `drop_trailing` cuts off.
pub proof fn lemma_trailing_within(s: Seq<char>, class: CharClass)
    ensures
        exists|n: int|
            0 <= n <= s.len() && drop_trailing(s, class) == #[trigger] s.take(n) && (forall|i: int|
                n <= i < s.len() ==> class.has(#[trigger] s[i])),
    decreases s.len(),
{
    if s.len() > 0 && class.has(s.last()) {
        let t = s.drop_last();
        lemma_trailing_within(t, class);
        let n = choose|n: int|
            0 <= n <= t.len() && drop_trailing(t, class) == #[trigger] t.take(n) && (forall|i: int|
                n <= i < t.len() ==> class.has(#[trigger] t[i]));
        assert(t.take(n) =~= s.take(n));
        assert forall|i: int| n <= i < s.len() implies class.has(#[trigger] s[i]) by {
            if i < t.len() {
                assert(t[i] == s[i]);
            }
        }
    } else {
        assert(s.take(s.len() as int) =~= s);
    }
}

/// A text stands in another exactly where that is made of something before it, the text
/// and something behind it.
pub proof fn law_occurring_text_is_a_part(a: Seq<char>, needle: Seq<char>, b: Seq<char>, s: Seq<char>)
    ensures
        occurs(a + needle + b, needle),
        occurs(s, needle) ==> exists|i: int|
            0 <= i && i + needle.len() <= s.len() && #[trigger] s.take(i) + needle + s.skip(
                i + needle.len(),
            ) == s,
        needle.len() > s.len() ==> !occurs(s, needle),
{
    let t = a + needle + b;
    let n = a.len() as int;
    assert(t.subrange(n, n + needle.len()) =~= needle);
    assert(occurs_at(t, needle, n));
    if occurs(s, needle) {
        let i = choose|i: int| occurs_at(s, needle, i);
        assert(s.take(i) + needle + s.skip(i + needle.len()) =~= s);
    }
}

/// What a text begins or ends with, and what is left without it.
pub proof fn law_beginnings_and_ends(p: Seq<char>, rest: Seq<char>)
    ensures
        begins(p + rest, p),
        ends(rest + p, p),
        after_prefix(p + rest, p) == Some(rest),
        before_suffix(rest + p, p) == Some(rest),
        rest.len() < p.len() ==> !begins(rest, p) && !ends(rest, p),
{
    assert((p + rest).take(p.len() as int) =~= p);
    assert((p + rest).skip(p.len() as int) =~= rest);
    let t = rest + p;
    assert(t.skip(t.len() - p.len()) =~= p);
    assert(t.take(t.len() - p.len()) =~= rest);
}

/// Trimmed text has no white space at its edges; a blank text has nothing left, and a text
/// with something else in it has.
pub proof fn law_trim_leaves_ink(s: Seq<char>, i: int)
    ensures
        trimmed(s).len() > 0 ==> !is_ws(trimmed(s)[0]) && !is_ws(trimmed(s).last()),
        0 <= i < s.len() && !is_ws(s[i]) ==> trimmed(s).len() > 0,
        (forall|j: int| 0 <= j < s.len() ==> is_ws(#[trigger] s[j])) ==> trimmed(s).len() == 0,
        s.len() > 0 && !is_ws(s[0]) && !is_ws(s.last()) ==> trimmed(s) == s,
        nonblank(Some(s)) == if trimmed(s).len() > 0 {
            Some(trimmed(s))
        } else {
            None
        },
        nonblank(None) is None,
{
    lemma_trimmed_edges(s);
    law_trim_cuts_only_white_space(s);
    let (a, b) = choose|a: int, b: int|
        0 <= a <= b <= s.len() && trimmed(s) == #[trigger] s.subrange(a, b) && (forall|i: int|
            0 <= i < a || b <= i < s.len() ==> is_ws(#[trigger] s[i]));
    if forall|j: int| 0 <= j < s.len() ==> is_ws(#[trigger] s[j]) {
        if trimmed(s).len() > 0 {
            assert(trimmed(s)[0] == s[a]);
        }
    }
}

/// The white space of ordinary text: spaces, tabs and the ends of lines are, letters, digits
/// and punctuation are not.
pub proof fn law_white_space(c: char)
    ensures
        is_ws(' ') && is_ws('\t') && is_ws('\n') && is_ws('\r') && is_ws('\u{a0}'),
        '!' <= c <= '~' ==> !is_ws(c),
{
}

/// Replacing takes what is found first out of the text, and goes on behind it; where nothing
/// is found the text stays.
pub proof fn law_replacing_goes_from_left(s: Seq<char>, from: Seq<char>, to: Seq<char>, k: int)
    requires
        from.len() > 0,
    ensures
        occurs_at(s, from, k) && (forall|i: int| 0 <= i < k ==> !occurs_at(s, from, i))
            ==> replaced(s, from, to) == s.take(k) + to + replaced(
            s.skip(k + from.len()),
            from,
            to,
        ) && replaced_once(s, from, to) == s.take(k) + to + s.skip(k + from.len()),
        !occurs(s, from) ==> replaced(s, from, to) == s && replaced_once(s, from, to) == s,
{
    lemma_first_at(s, from, 0);
}

} // verus!
