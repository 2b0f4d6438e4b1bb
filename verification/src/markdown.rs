//! Light markdown as a sequence of styled spans.
//!
//! Headings (`#` to `###`), bullet and numbered lists and paragraphs, and within
//! them `**bold**`, `*italic*`, `_italic_` and `` `code` ``.
use crate::digits::{is_dec, is_digit};
use crate::split::{lines, lines_of, texts};
use crate::text::{
    after_prefix, begins, chars_of, concat3, drop_leading, drop_trailing, find_from, first_at,
    is_empty, lemma_drop_leading_none, lemma_drop_trailing_none, lemma_first_at, occurs_at, string_of, strip_prefix, trim, trim_leading, trim_trailing,
    trimmed, CharClass,
};
use vstd::prelude::*;
use vstd::string::*;

verus! {

/// How a span looks.
#[derive(Debug, Clone, Copy, PartialEq, Eq, Structural)]
pub struct Style {
    /// The level of a heading; 0 in running text.
    pub level: u8,
    /// How many times over the span is bold.
    pub bold: usize,
    pub italic: bool,
    pub code: bool,
}

/// A text with its look.
#[derive(Debug, Clone, PartialEq, Eq)]
pub struct Span {
    pub text: String,
    pub style: Style,
}

/// What a span holds.
pub struct SpanView {
    pub text: Seq<char>,
    pub style: Style,
}

impl View for Span {
    type V = SpanView;

    open spec fn view(&self) -> SpanView {
        SpanView { text: self.text@, style: self.style }
    }
}

/// What the spans of a list hold.
pub open spec fn spans_view(v: Seq<Span>) -> Seq<SpanView> {
    v.map_values(|s: Span| s@)
}

/// Running text.
pub open spec fn body_style(italic: bool) -> Style {
    Style { level: 0, bold: 0, italic, code: false }
}

/// A bold version of a look.
pub open spec fn bolder(s: Style) -> Style {
    Style {
        bold: if s.bold < usize::MAX {
            (s.bold + 1) as usize
        } else {
            s.bold
        },
        ..s
    }
}

/// An italic version of a look.
pub open spec fn slanted(s: Style) -> Style {
    Style { italic: true, ..s }
}

/// The look of code.
pub open spec fn code_style(s: Style) -> Style {
    Style { italic: false, code: true, ..s }
}

/// What begins at a position of a text.
pub enum Mark {
    /// Code, up to the backquote at this position.
    Code(int),
    /// Bold text, up to the two stars at this position.
    Bold(int),
    /// Italic text, up to the mark at this position.
    Italic(int),
    /// Nothing but the character itself.
    Plain,
}

/// Does `s` hold no line feed?
pub open spec fn one_line(s: Seq<char>) -> bool {
    forall|i: int| 0 <= i < s.len() ==> #[trigger] s[i] != '\n'
}

/// Does a mark for bold text begin here?
pub open spec fn two_stars(cs: Seq<char>, i: int) -> bool {
    cs[i] == '*' && i + 1 < cs.len() && cs[i + 1] == '*'
}

/// What begins at position `i`.
pub open spec fn mark_at(cs: Seq<char>, i: int) -> Mark {
    let c = cs[i];
    if c == '`' && first_at(cs, seq!['`'], i + 1) is Some {
        Mark::Code(first_at(cs, seq!['`'], i + 1)->0)
    } else if two_stars(cs, i) && first_at(cs, seq!['*', '*'], i + 2) is Some {
        Mark::Bold(first_at(cs, seq!['*', '*'], i + 2)->0)
    } else if (c == '_' || (c == '*' && !two_stars(cs, i))) {
        match first_at(cs, seq![c], i + 1) {
            Some(end) => if end > i + 1 && one_line(cs.subrange(i + 1, end)) {
                Mark::Italic(end)
            } else {
                Mark::Plain
            },
            None => Mark::Plain,
        }
    } else {
        Mark::Plain
    }
}

/// What was gathered so far as a span, if it is anything.
pub open spec fn gathered(buf: Seq<char>, st: Style) -> Seq<SpanView> {
    if buf.len() > 0 {
        seq![SpanView { text: buf, style: st }]
    } else {
        Seq::empty()
    }
}

/// A piece of code as a span: with a space that does not break on both sides.
pub open spec fn code_span(code: Seq<char>, st: Style) -> SpanView {
    SpanView { text: "\u{a0}"@ + code + "\u{a0}"@, style: code_style(st) }
}

/// The spans of a text from position `i` on, where `buf` was gathered before it.
pub open spec fn spans_from(cs: Seq<char>, i: int, buf: Seq<char>, st: Style) -> Seq<SpanView>
    decreases cs.len(), cs.len() - i,
{
    if i < 0 || i >= cs.len() {
        gathered(buf, st)
    } else {
        match mark_at(cs, i) {
            Mark::Code(end) => if i < end < cs.len() {
                gathered(buf, st) + seq![code_span(cs.subrange(i + 1, end), st)] + spans_from(
                    cs,
                    end + 1,
                    Seq::empty(),
                    st,
                )
            } else {
                Seq::empty()
            },
            Mark::Bold(end) => if i + 2 <= end && end + 2 <= cs.len() {
                gathered(buf, st) + spans_from(
                    cs.subrange(i + 2, end),
                    0,
                    Seq::empty(),
                    bolder(st),
                ) + spans_from(cs, end + 2, Seq::empty(), st)
            } else {
                Seq::empty()
            },
            Mark::Italic(end) => if i + 1 < end < cs.len() {
                gathered(buf, st) + spans_from(
                    cs.subrange(i + 1, end),
                    0,
                    Seq::empty(),
                    slanted(st),
                ) + spans_from(cs, end + 1, Seq::empty(), st)
            } else {
                Seq::empty()
            },
            Mark::Plain => spans_from(cs, i + 1, buf.push(cs[i]), st),
        }
    }
}

/// The spans of a text.
#[verifier::opaque]
pub open spec fn inline_spans(text: Seq<char>, st: Style) -> Seq<SpanView> {
    spans_from(text, 0, Seq::empty(), st)
}

/// A position in a text at which something stands lies inside it.
proof fn lemma_found_inside(cs: Seq<char>, needle: Seq<char>, from: int)
    requires
        0 <= from,
        first_at(cs, needle, from) is Some,
    ensures
        from <= first_at(cs, needle, from)->0,
        first_at(cs, needle, from)->0 + needle.len() <= cs.len(),
{
    lemma_first_at(cs, needle, from);
}

/// What begins at a position of a text.
enum Found {
    Code(usize),
    Bold(usize),
    Italic(usize),
    Plain,
}

/// What was found, as a mark.
spec fn found_mark(f: Found) -> Mark {
    match f {
        Found::Code(e) => Mark::Code(e as int),
        Found::Bold(e) => Mark::Bold(e as int),
        Found::Italic(e) => Mark::Italic(e as int),
        Found::Plain => Mark::Plain,
    }
}

/// Is there no line feed in `cs[from..to]`?
fn is_one_line(cs: &Vec<char>, from: usize, to: usize) -> (r: bool)
    requires
        from <= to <= cs@.len(),
    ensures
        r == one_line(cs@.subrange(from as int, to as int)),
{
    let mut i: usize = from;
    let ghost part = cs@.subrange(from as int, to as int);
    while i < to
        invariant
            from <= i <= to <= cs@.len(),
            part == cs@.subrange(from as int, to as int),
            forall|j: int| 0 <= j < i - from ==> #[trigger] part[j] != '\n',
        decreases to - i,
    {
        assert(part[i - from] == cs@[i as int]);
        if cs[i] == '\n' {
            return false;
        }
        i += 1;
    }
    true
}

/// What begins at position `i`.
fn find_mark(cs: &Vec<char>, i: usize) -> (r: Found)
    requires
        i < cs@.len(),
    ensures
        found_mark(r) == mark_at(cs@, i as int),
        match r {
            Found::Code(e) => i < e < cs@.len(),
            Found::Bold(e) => i + 2 <= e && e + 2 <= cs@.len(),
            Found::Italic(e) => i + 1 < e < cs@.len(),
            Found::Plain => true,
        },
{
    let n: usize = cs.len();
    let c = cs[i];
    let mut one: Vec<char> = Vec::new();
    one.push(c);
    assert(one@ =~= seq![c]);
    if c == '`' {
        if let Some(e) = find_from(cs, &one, i + 1) {
            proof {
                lemma_found_inside(cs@, one@, i + 1);
            }
            return Found::Code(e);
        }
    }
    let double = c == '*' && i + 1 < n && cs[i + 1] == '*';
    if double {
        let mut two: Vec<char> = Vec::new();
        two.push('*');
        two.push('*');
        assert(two@ =~= seq!['*', '*']);
        if let Some(e) = find_from(cs, &two, i + 2) {
            proof {
                lemma_found_inside(cs@, two@, i + 2);
            }
            return Found::Bold(e);
        }
    }
    if c == '_' || (c == '*' && !double) {
        if let Some(e) = find_from(cs, &one, i + 1) {
            proof {
                lemma_found_inside(cs@, one@, i + 1);
            }
            if e > i + 1 && is_one_line(cs, i + 1, e) {
                return Found::Italic(e);
            }
        }
    }
    Found::Plain
}

/// Adds a span to a list.
fn add_span(out: &mut Vec<Span>, text: String, style: Style)
    ensures
        spans_view(final(out)@) == spans_view(old(out)@).push(SpanView { text: text@, style }),
{
    let s = Span { text, style };
    out.push(s);
    assert(spans_view(out@) =~= spans_view(old(out)@).push(s@));
}

/// Adds what was gathered so far to a list, if it is anything.
fn add_gathered(out: &mut Vec<Span>, buf: &str, style: Style)
    ensures
        spans_view(final(out)@) == spans_view(old(out)@) + gathered(buf@, style),
{
    if !is_empty(buf) {
        add_span(out, buf.to_owned(), style);
    }
    assert(spans_view(out@) =~= spans_view(old(out)@) + gathered(buf@, style));
}

/// The characters `cs[from..to]`.
fn slice(cs: &Vec<char>, from: usize, to: usize) -> (r: Vec<char>)
    requires
        from <= to <= cs@.len(),
    ensures
        r@ == cs@.subrange(from as int, to as int),
{
    let mut out: Vec<char> = Vec::new();
    let mut i: usize = from;
    while i < to
        invariant
            from <= i <= to <= cs@.len(),
            out@ == cs@.subrange(from as int, i as int),
        decreases to - i,
    {
        out.push(cs[i]);
        assert(out@ =~= cs@.subrange(from as int, i + 1));
        i += 1;
    }
    out
}

/// Adds the spans of a text to a list.
fn add_inline(out: &mut Vec<Span>, cs: &Vec<char>, st: Style)
    ensures
        spans_view(final(out)@) == spans_view(old(out)@) + inline_spans(cs@, st),
    decreases cs@.len(),
{
    reveal(inline_spans);
    let ghost want = spans_view(out@) + inline_spans(cs@, st);
    let mut buf = String::new();
    let mut i: usize = 0;
    assert(buf@ =~= Seq::<char>::empty());
    while i < cs.len()
        invariant
            i <= cs@.len(),
            spans_view(out@) + spans_from(cs@, i as int, buf@, st) == want,
        decreases cs.len() - i,
    {
        reveal(inline_spans);
        let ghost before = spans_view(out@);
        let ghost kept = gathered(buf@, st);
        match find_mark(cs, i) {
            Found::Code(e) => {
                add_gathered(out, buf.as_str(), st);
                let code = string_of(cs, i + 1, e);
                let shown = concat3("\u{a0}", code.as_str(), "\u{a0}");
                add_span(
                    out,
                    shown,
                    Style { level: st.level, bold: st.bold, italic: false, code: true },
                );
                buf = String::new();
                proof {
                    let span = code_span(cs@.subrange(i + 1, e as int), st);
                    let rest = spans_from(cs@, e + 1, Seq::empty(), st);
                    assert(buf@ =~= Seq::<char>::empty());
                    assert(spans_view(out@) == (before + kept).push(span));
                    assert((before + kept).push(span) + rest =~= before + (kept + seq![span]
                        + rest));
                }
                i = e + 1;
            },
            Found::Bold(e) => {
                add_gathered(out, buf.as_str(), st);
                let inner = slice(cs, i + 2, e);
                let style = Style {
                    level: st.level,
                    bold: if st.bold < usize::MAX {
                        st.bold + 1
                    } else {
                        st.bold
                    },
                    italic: st.italic,
                    code: st.code,
                };
                add_inline(out, &inner, style);
                buf = String::new();
                proof {
                    let mid = inline_spans(inner@, bolder(st));
                    let rest = spans_from(cs@, e + 2, Seq::empty(), st);
                    assert(buf@ =~= Seq::<char>::empty());
                    assert((before + kept + mid) + rest =~= before + (kept + mid + rest));
                }
                i = e + 2;
            },
            Found::Italic(e) => {
                add_gathered(out, buf.as_str(), st);
                let inner = slice(cs, i + 1, e);
                add_inline(
                    out,
                    &inner,
                    Style { level: st.level, bold: st.bold, italic: true, code: st.code },
                );
                buf = String::new();
                proof {
                    let mid = inline_spans(inner@, slanted(st));
                    let rest = spans_from(cs@, e + 1, Seq::empty(), st);
                    assert(buf@ =~= Seq::<char>::empty());
                    assert((before + kept + mid) + rest =~= before + (kept + mid + rest));
                }
                i = e + 1;
            },
            Found::Plain => {
                buf.push(cs[i]);
                i += 1;
            },
        }
    }
    add_gathered(out, buf.as_str(), st);
}

/// The level of a heading's line, and its title.
pub open spec fn heading_of(line: Seq<char>) -> Option<(u8, Seq<char>)> {
    let t = drop_leading(line, CharClass::Whitespace);
    let level = hashes(t);
    let rest = t.skip(level);
    if level == 0 || (rest.len() > 0 && rest[0] != ' ') {
        None
    } else {
        Some((level as u8, trimmed(rest)))
    }
}

/// How many of the first three characters of `s` are hashes, up to the first
/// that is none.
pub open spec fn hashes(s: Seq<char>) -> int {
    if s.len() == 0 || s[0] != '#' {
        0
    } else if s.len() == 1 || s[1] != '#' {
        1
    } else if s.len() == 2 || s[2] != '#' {
        2
    } else {
        3
    }
}

/// The level and the title of a heading's line.
pub fn parse_atx_heading(line: &str) -> (r: Option<(u8, String)>)
    ensures
        match r {
            Some((level, title)) => heading_of(line@) == Some((level, title@)),
            None => heading_of(line@) is None,
        },
{
    let t = trim_leading(line, CharClass::Whitespace);
    let cs = chars_of(t);
    let mut level: usize = 0;
    while level < cs.len() && level < 3 && cs[level] == '#'
        invariant
            cs@ == t@,
            level <= 3,
            level <= cs@.len(),
            forall|j: int| 0 <= j < level ==> cs@[j] == '#',
        decreases 3 - level,
    {
        level += 1;
    }
    assert(level == hashes(t@));
    if level == 0 {
        return None;
    }
    let n: usize = cs.len();
    if level < n && cs[level] != ' ' {
        return None;
    }
    let rest = t.substring_char(level, n);
    assert(rest@ =~= t@.skip(level as int));
    Some((level as u8, trim(rest).to_owned()))
}

/// How many digits `s` begins with.
pub open spec fn leading_digits(s: Seq<char>) -> int
    decreases s.len(),
{
    if s.len() > 0 && is_dec(s[0]) {
        1 + leading_digits(s.drop_first())
    } else {
        0
    }
}

/// What an item of a list says: what follows a dash, a star, or a number and a dot.
pub open spec fn item_of(line: Seq<char>) -> Option<Seq<char>> {
    let t = drop_leading(line, CharClass::Whitespace);
    let n = leading_digits(t);
    if begins(t, "- "@) {
        Some(t.skip("- "@.len() as int))
    } else if begins(t, "* "@) {
        Some(t.skip("* "@.len() as int))
    } else if n > 0 {
        after_prefix(t.skip(n), ". "@)
    } else {
        None
    }
}

/// Where the digits end with which a text begins.
proof fn lemma_leading_digits(s: Seq<char>, n: int)
    requires
        0 <= n <= s.len(),
        forall|i: int| 0 <= i < n ==> is_dec(#[trigger] s[i]),
        n < s.len() ==> !is_dec(s[n]),
    ensures
        leading_digits(s) == n,
    decreases n,
{
    if n > 0 {
        let t = s.drop_first();
        assert(is_dec(s[0]));
        assert forall|i: int| 0 <= i < n - 1 implies is_dec(#[trigger] t[i]) by {
            assert(is_dec(s[i + 1]));
        }
        lemma_leading_digits(t, n - 1);
    }
}

/// What an item of a list says.
pub fn parse_list_item(line: &str) -> (r: Option<String>)
    ensures
        crate::text::opt_text(r) == item_of(line@),
{
    let t = trim_leading(line, CharClass::Whitespace);
    if let Some(rest) = strip_prefix(t, "- ") {
        return Some(rest.to_owned());
    }
    if let Some(rest) = strip_prefix(t, "* ") {
        return Some(rest.to_owned());
    }
    let cs = chars_of(t);
    let mut n: usize = 0;
    while n < cs.len() && is_digit(cs[n])
        invariant
            cs@ == t@,
            n <= cs@.len(),
            forall|j: int| 0 <= j < n ==> is_dec(#[trigger] cs@[j]),
        decreases cs.len() - n,
    {
        n += 1;
    }
    proof {
        lemma_leading_digits(t@, n as int);
    }
    if n == 0 {
        return None;
    }
    let after = t.substring_char(n, cs.len());
    assert(after@ =~= t@.skip(n as int));
    match strip_prefix(after, ". ") {
        Some(rest) => Some(rest.to_owned()),
        None => None,
    }
}

/// A line without the white space behind it.
pub open spec fn tidy(line: Seq<char>) -> Seq<char> {
    drop_trailing(line, CharClass::Whitespace)
}

/// Is a line blank?
pub open spec fn blank(line: Seq<char>) -> bool {
    trimmed(tidy(line)).len() == 0
}

/// Does a line end a paragraph before it?
pub open spec fn ends_paragraph(line: Seq<char>) -> bool {
    blank(line) || heading_of(tidy(line)) is Some || item_of(tidy(line)) is Some
}

/// The spans of an item of a list.
pub open spec fn item_spans(item: Seq<char>, italic: bool) -> Seq<SpanView> {
    seq![SpanView { text: "•  "@, style: body_style(italic) }] + inline_spans(
        item,
        body_style(italic),
    )
}

/// The items of a list from line `i` on, each on a line of its own.
pub open spec fn items_from(ls: Seq<Seq<char>>, i: int, italic: bool) -> Seq<SpanView>
    decreases ls.len() - i,
{
    if i < 0 || i >= ls.len() || blank(ls[i]) {
        Seq::empty()
    } else {
        match item_of(tidy(ls[i])) {
            Some(item) => seq![SpanView { text: "\n"@, style: body_style(italic) }] + item_spans(
                item,
                italic,
            ) + items_from(ls, i + 1, italic),
            None => Seq::empty(),
        }
    }
}

/// The line at which a list ends that goes on at line `i`.
pub open spec fn list_end(ls: Seq<Seq<char>>, i: int) -> int
    decreases ls.len() - i,
{
    if i < 0 || i >= ls.len() || blank(ls[i]) || item_of(tidy(ls[i])) is None {
        i
    } else {
        list_end(ls, i + 1)
    }
}

/// The line at which a paragraph ends that goes on at line `i`.
pub open spec fn paragraph_end(ls: Seq<Seq<char>>, i: int) -> int
    decreases ls.len() - i,
{
    if i < 0 || i >= ls.len() || ends_paragraph(ls[i]) {
        i
    } else {
        paragraph_end(ls, i + 1)
    }
}

/// The text of a paragraph that goes on at line `i` after `text`: its lines
/// are joined by spaces.
pub open spec fn paragraph_from(text: Seq<char>, ls: Seq<Seq<char>>, i: int) -> Seq<char>
    decreases ls.len() - i,
{
    if i < 0 || i >= ls.len() || ends_paragraph(ls[i]) {
        text
    } else {
        paragraph_from(text.push(' ') + trimmed(tidy(ls[i])), ls, i + 1)
    }
}

/// A list ends at or after the line at which it goes on.
pub proof fn lemma_list_end(ls: Seq<Seq<char>>, i: int)
    ensures
        i <= list_end(ls, i),
        i <= ls.len() ==> list_end(ls, i) <= ls.len(),
    decreases ls.len() - i,
{
    if i < 0 || i >= ls.len() || blank(ls[i]) || item_of(tidy(ls[i])) is None {
    } else {
        lemma_list_end(ls, i + 1);
    }
}

/// A paragraph ends at or after the line at which it goes on.
pub proof fn lemma_paragraph_end(ls: Seq<Seq<char>>, i: int)
    ensures
        i <= paragraph_end(ls, i),
        i <= ls.len() ==> paragraph_end(ls, i) <= ls.len(),
    decreases ls.len() - i,
{
    if i < 0 || i >= ls.len() || ends_paragraph(ls[i]) {
    } else {
        lemma_paragraph_end(ls, i + 1);
    }
}

/// What stands before a block that is not the first.
pub open spec fn gap(first: bool, italic: bool) -> Seq<SpanView> {
    if first {
        Seq::empty()
    } else {
        seq![SpanView { text: "\n\n"@, style: body_style(italic) }]
    }
}

/// The spans of the blocks from line `i` on.
pub open spec fn blocks_from(ls: Seq<Seq<char>>, i: int, first: bool, italic: bool) -> Seq<SpanView>
    decreases ls.len() - i,
{
    if i < 0 || i >= ls.len() {
        Seq::empty()
    } else if blank(ls[i]) {
        blocks_from(ls, i + 1, first, italic)
    } else {
        match heading_of(tidy(ls[i])) {
            Some((level, title)) => gap(first, italic) + inline_spans(
                title,
                Style { level, bold: 0, italic, code: false },
            ) + blocks_from(ls, i + 1, false, italic),
            None => match item_of(tidy(ls[i])) {
                Some(item) => {
                    let end = list_end(ls, i + 1);
                    proof {
                        lemma_list_end(ls, i + 1);
                    }
                    gap(first, italic) + item_spans(item, italic) + items_from(ls, i + 1, italic)
                        + blocks_from(ls, end, false, italic)
                },
                None => {
                    let end = paragraph_end(ls, i + 1);
                    let text = paragraph_from(
                        drop_leading(tidy(ls[i]), CharClass::Whitespace),
                        ls,
                        i + 1,
                    );
                    proof {
                        lemma_paragraph_end(ls, i + 1);
                    }
                    gap(first, italic) + inline_spans(text, body_style(italic)) + blocks_from(
                        ls,
                        end,
                        false,
                        italic,
                    )
                },
            },
        }
    }
}

/// The spans of a markdown text; a text without any is shown as it is.
pub open spec fn markdown_spans(md: Seq<char>, italic: bool) -> Seq<SpanView> {
    let spans = blocks_from(lines_of(md), 0, true, italic);
    if spans.len() == 0 {
        seq![SpanView { text: md, style: body_style(italic) }]
    } else {
        spans
    }
}

/// Adds the spans of a text to a list.
fn add_text(out: &mut Vec<Span>, text: &str, st: Style)
    ensures
        spans_view(final(out)@) == spans_view(old(out)@) + inline_spans(text@, st),
{
    let cs = chars_of(text);
    add_inline(out, &cs, st);
}

/// Adds an item of a list.
fn add_item(out: &mut Vec<Span>, item: &str, italic: bool)
    ensures
        spans_view(final(out)@) == spans_view(old(out)@) + item_spans(item@, italic),
{
    let ghost before = spans_view(out@);
    let st = Style { level: 0, bold: 0, italic, code: false };
    add_span(out, "•  ".to_owned(), st);
    add_text(out, item, st);
    proof {
        let mark = SpanView { text: "•  "@, style: st };
        assert(before.push(mark) + inline_spans(item@, st) =~= before + item_spans(item@, italic));
    }
}

/// Is a line blank?
fn is_blank_line(line: &str) -> (r: bool)
    ensures
        r == blank(line@),
{
    is_empty(trim(trim_trailing(line, CharClass::Whitespace)))
}

/// Adds the items of a list from line `i` on, and says where the list ends.
fn add_items(out: &mut Vec<Span>, ls: &Vec<String>, from: usize, italic: bool) -> (end: usize)
    requires
        from <= ls@.len(),
    ensures
        spans_view(final(out)@) == spans_view(old(out)@) + items_from(
            texts(ls@),
            from as int,
            italic,
        ),
        end == list_end(texts(ls@), from as int),
        from <= end <= ls@.len(),
{
    let ghost all = texts(ls@);
    let ghost want = spans_view(out@) + items_from(all, from as int, italic);
    let st = Style { level: 0, bold: 0, italic, code: false };
    let mut i: usize = from;
    while i < ls.len() && !is_blank_line(ls[i].as_str())
        invariant
            from <= i <= ls@.len(),
            all == texts(ls@),
            st == body_style(italic),
            want == spans_view(old(out)@) + items_from(all, from as int, italic),
            spans_view(out@) + items_from(all, i as int, italic) == want,
            list_end(all, i as int) == list_end(all, from as int),
        decreases ls.len() - i,
    {
        let ghost before = spans_view(out@);
        let line = trim_trailing(ls[i].as_str(), CharClass::Whitespace);
        assert(all[i as int] == ls@[i as int]@);
        match parse_list_item(line) {
            Some(item) => {
                add_span(out, "\n".to_owned(), st);
                add_item(out, item.as_str(), italic);
                proof {
                    let nl = SpanView { text: "\n"@, style: st };
                    let mid = item_spans(item@, italic);
                    let rest = items_from(all, i + 1, italic);
                    assert((before.push(nl) + mid) + rest =~= before + (seq![nl] + mid + rest));
                }
                i += 1;
            },
            None => {
                assert(spans_view(out@) + Seq::<SpanView>::empty() =~= spans_view(out@));
                return i;
            },
        }
    }
    proof {
        if i < ls@.len() {
            assert(all[i as int] == ls@[i as int]@);
        }
        assert(spans_view(out@) + Seq::<SpanView>::empty() =~= spans_view(out@));
    }
    i
}

/// The text of a paragraph that goes on at line `from`, and where it ends.
fn read_paragraph(first: &str, ls: &Vec<String>, from: usize) -> (r: (String, usize))
    requires
        from <= ls@.len(),
    ensures
        r.0@ == paragraph_from(first@, texts(ls@), from as int),
        r.1 == paragraph_end(texts(ls@), from as int),
        from <= r.1 <= ls@.len(),
{
    let ghost all = texts(ls@);
    let mut text = first.to_owned();
    let mut i: usize = from;
    while i < ls.len()
        invariant
            from <= i <= ls@.len(),
            all == texts(ls@),
            paragraph_from(text@, all, i as int) == paragraph_from(first@, all, from as int),
            paragraph_end(all, i as int) == paragraph_end(all, from as int),
        decreases ls.len() - i,
    {
        assert(all[i as int] == ls@[i as int]@);
        let line = trim_trailing(ls[i].as_str(), CharClass::Whitespace);
        if is_blank_line(ls[i].as_str()) || parse_atx_heading(line).is_some() || parse_list_item(
            line,
        ).is_some() {
            return (text, i);
        }
        text.push(' ');
        text.append(trim(line));
        i += 1;
    }
    (text, i)
}

/// Adds the block that begins at line `i`, which is not blank, and says where
/// the next one may begin.
fn add_block(out: &mut Vec<Span>, ls: &Vec<String>, i: usize, first: bool, italic: bool) -> (end:
    usize)
    requires
        i < ls@.len(),
        !blank(ls@[i as int]@),
    ensures
        i < end <= ls@.len(),
        spans_view(final(out)@) + blocks_from(texts(ls@), end as int, false, italic) == spans_view(
            old(out)@,
        ) + blocks_from(texts(ls@), i as int, first, italic),
{
    let ghost all = texts(ls@);
    let ghost before = spans_view(out@);
    let ghost sep = gap(first, italic);
    let st = Style { level: 0, bold: 0, italic, code: false };
    let n: usize = ls.len();
    assert(i < n);
    let next: usize = i + 1;
    assert(all[i as int] == ls@[i as int]@);
    if !first {
        add_span(out, "\n\n".to_owned(), st);
    }
    assert(spans_view(out@) =~= before + sep);
    let line = trim_trailing(ls[i].as_str(), CharClass::Whitespace);
    if let Some((level, title)) = parse_atx_heading(line) {
        let style = Style { level, bold: 0, italic, code: false };
        add_text(out, title.as_str(), style);
        proof {
            let mid = inline_spans(title@, style);
            let rest = blocks_from(all, i + 1, false, italic);
            assert((before + sep + mid) + rest =~= before + (sep + mid + rest));
        }
        next
    } else if let Some(item) = parse_list_item(line) {
        add_item(out, item.as_str(), italic);
        let end = add_items(out, ls, next, italic);
        proof {
            let mid = item_spans(item@, italic);
            let more = items_from(all, i + 1, italic);
            let rest = blocks_from(all, end as int, false, italic);
            assert((before + sep + mid + more) + rest =~= before + (sep + mid + more + rest));
        }
        end
    } else {
        let start = trim_leading(line, CharClass::Whitespace);
        let (text, end) = read_paragraph(start, ls, next);
        add_text(out, text.as_str(), st);
        proof {
            let mid = inline_spans(text@, st);
            let rest = blocks_from(all, end as int, false, italic);
            assert((before + sep + mid) + rest =~= before + (sep + mid + rest));
        }
        end
    }
}

/// The spans of a markdown text; `force_italic` makes all of it italic.
pub fn summary_markdown(md: &str, force_italic: bool) -> (r: Vec<Span>)
    ensures
        spans_view(r@) == markdown_spans(md@, force_italic),
{
    let ls = lines(md);
    let ghost all = texts(ls@);
    let mut out: Vec<Span> = Vec::new();
    let mut first = true;
    let mut i: usize = 0;
    let ghost want = blocks_from(all, 0, true, force_italic);
    assert(spans_view(out@) + want =~= want);
    while i < ls.len()
        invariant
            i <= ls@.len(),
            all == texts(ls@),
            spans_view(out@) + blocks_from(all, i as int, first, force_italic) == want,
        decreases ls.len() - i,
    {
        assert(all[i as int] == ls@[i as int]@);
        if is_blank_line(ls[i].as_str()) {
            i += 1;
        } else {
            i = add_block(&mut out, &ls, i, first, force_italic);
            first = false;
        }
    }
    assert(spans_view(out@) =~= want);
    if out.len() == 0 {
        let st = Style { level: 0, bold: 0, italic: force_italic, code: false };
        add_span(&mut out, md.to_owned(), st);
        assert(spans_view(out@) =~= seq![SpanView { text: md@, style: st }]);
    }
    out
}

/// Does `s` hold none of the characters that mark code, bold or italic text?
pub open spec fn unmarked(s: Seq<char>) -> bool {
    forall|i: int|
        0 <= i < s.len() ==> {
            let c = #[trigger] s[i];
            c != '`' && c != '*' && c != '_'
        }
}

/// What was gathered, and the rest of an unmarked text, make one span.
proof fn lemma_unmarked_from(cs: Seq<char>, i: int, st: Style)
    requires
        0 <= i <= cs.len(),
        unmarked(cs),
    ensures
        spans_from(cs, i, cs.take(i), st) == gathered(cs, st),
    decreases cs.len() - i,
{
    if i < cs.len() {
        assert(cs.take(i).push(cs[i]) =~= cs.take(i + 1));
        lemma_unmarked_from(cs, i + 1, st);
    } else {
        assert(cs.take(i) =~= cs);
    }
}

/// A text without marks is one span, as it is.
pub proof fn law_unmarked_text_is_one_span(text: Seq<char>, st: Style)
    requires
        unmarked(text),
        text.len() > 0,
    ensures
        inline_spans(text, st) == seq![SpanView { text, style: st }],
{
    reveal(inline_spans);
    assert(text.take(0) =~= Seq::<char>::empty());
    lemma_unmarked_from(text, 0, st);
}

/// A text between two backquotes is shown as code.
pub proof fn law_backquotes_mark_code(code: Seq<char>, st: Style)
    requires
        forall|i: int| 0 <= i < code.len() ==> #[trigger] code[i] != '`',
    ensures
        inline_spans(seq!['`'] + code + seq!['`'], st) == seq![code_span(code, st)],
{
    reveal(inline_spans);
    let cs = seq!['`'] + code + seq!['`'];
    let end = code.len() as int + 1;
    let tick = seq!['`'];
    assert(first_at(cs, tick, 1) == Some(end)) by {
        lemma_first_at(cs, tick, 1);
        assert(cs.subrange(end, end + 1) =~= tick);
        assert(occurs_at(cs, tick, end));
        let k = first_at(cs, tick, 1)->0;
        if k < end {
            assert(cs.subrange(k, k + 1)[0] == code[k - 1]);
        }
    }
    assert(mark_at(cs, 0) == Mark::Code(end));
    assert(cs.subrange(1, end) =~= code);
    let none = Seq::<char>::empty();
    let rest = spans_from(cs, end + 1, none, st);
    assert(rest =~= Seq::<SpanView>::empty());
    assert(spans_from(cs, 0, none, st) == gathered(none, st) + seq![code_span(code, st)] + rest);
    assert(gathered(none, st) + seq![code_span(code, st)] + rest =~= seq![code_span(code, st)]);
}

/// A text without marks, put between two marks.
proof fn lemma_marked_end(cs: Seq<char>, mark: Seq<char>, text: Seq<char>)
    requires
        mark.len() > 0,
        cs == mark + text + mark,
        forall|i: int| 0 <= i < text.len() ==> #[trigger] text[i] != mark[0],
        forall|i: int| 0 <= i < mark.len() ==> #[trigger] mark[i] == mark[0],
    ensures
        first_at(cs, mark, mark.len() as int) == Some((mark.len() + text.len()) as int),
{
    let n = mark.len() as int;
    let end = n + text.len();
    lemma_first_at(cs, mark, n);
    assert(cs.subrange(end, end + n) =~= mark);
    assert(occurs_at(cs, mark, end));
    let k = first_at(cs, mark, n)->0;
    if k < end {
        assert(cs.subrange(k, k + n)[0] == cs[k]);
        assert(cs[k] == text[k - n]);
    }
}

/// A text between two pairs of stars is bold, and otherwise looks as before.
pub proof fn law_two_stars_mark_bold(text: Seq<char>, st: Style)
    requires
        unmarked(text),
        text.len() > 0,
        st.bold < usize::MAX,
    ensures
        inline_spans(seq!['*', '*'] + text + seq!['*', '*'], st) == seq![
            SpanView { text, style: Style { bold: (st.bold + 1) as usize, ..st } },
        ],
{
    let mark = seq!['*', '*'];
    let cs = mark + text + mark;
    let end = 2 + text.len() as int;
    lemma_marked_end(cs, mark, text);
    assert(two_stars(cs, 0));
    assert(mark_at(cs, 0) == Mark::Bold(end));
    assert(cs.subrange(2, end) =~= text);
    let none = Seq::<char>::empty();
    law_unmarked_text_is_one_span(text, bolder(st));
    reveal(inline_spans);
    let rest = spans_from(cs, end + 2, none, st);
    assert(rest =~= Seq::<SpanView>::empty());
    assert(spans_from(cs, 0, none, st) =~= gathered(none, st) + spans_from(
        text,
        0,
        none,
        bolder(st),
    ) + rest);
}

/// A line between two stars, or between two underscores, is italic, and otherwise looks
/// as before.
pub proof fn law_single_marks_mark_italic(text: Seq<char>, st: Style)
    requires
        unmarked(text),
        one_line(text),
        text.len() > 0,
    ensures
        inline_spans(seq!['*'] + text + seq!['*'], st) == seq![
            SpanView { text, style: Style { italic: true, ..st } },
        ],
        inline_spans(seq!['_'] + text + seq!['_'], st) == seq![
            SpanView { text, style: Style { italic: true, ..st } },
        ],
{
    lemma_italic('*', text, st);
    lemma_italic('_', text, st);
}

/// A line between two marks for italic text.
proof fn lemma_italic(c: char, text: Seq<char>, st: Style)
    requires
        c == '*' || c == '_',
        unmarked(text),
        one_line(text),
        text.len() > 0,
    ensures
        inline_spans(seq![c] + text + seq![c], st) == seq![
            SpanView { text, style: Style { italic: true, ..st } },
        ],
{
    let mark = seq![c];
    let cs = mark + text + mark;
    let end = 1 + text.len() as int;
    lemma_marked_end(cs, mark, text);
    assert(cs[1] == text[0]);
    assert(!two_stars(cs, 0));
    assert(cs.subrange(1, end) =~= text);
    assert(mark_at(cs, 0) == Mark::Italic(end));
    let none = Seq::<char>::empty();
    law_unmarked_text_is_one_span(text, slanted(st));
    reveal(inline_spans);
    let rest = spans_from(cs, end + 1, none, st);
    assert(rest =~= Seq::<SpanView>::empty());
    assert(spans_from(cs, 0, none, st) =~= gathered(none, st) + spans_from(
        text,
        0,
        none,
        slanted(st),
    ) + rest);
}

/// Code is shown upright, as code, with a space that does not break on both sides.
pub proof fn law_code_is_upright(code: Seq<char>, st: Style)
    ensures
        code_span(code, st).text == seq!['\u{a0}'] + code + seq!['\u{a0}'],
        code_span(code, st).style.code,
        !code_span(code, st).style.italic,
        code_span(code, st).style.bold == st.bold,
        code_span(code, st).style.level == st.level,
{
    reveal_strlit("\u{a0}");
    assert("\u{a0}"@ =~= seq!['\u{a0}']);
}

/// Up to three hashes and a space make a heading of that level; a hash without a space
/// behind it makes none.
pub proof fn law_hashes_make_headings(title: Seq<char>, c: char)
    ensures
        heading_of(seq!['#', ' '] + title) == Some((1u8, trimmed(seq![' '] + title))),
        heading_of(seq!['#', '#', ' '] + title) == Some((2u8, trimmed(seq![' '] + title))),
        heading_of(seq!['#', '#', '#', ' '] + title) == Some((3u8, trimmed(seq![' '] + title))),
        c != '#' && c != ' ' ==> heading_of(seq!['#', c] + title) is None,
        c != '#' && !crate::text::is_ws(c) ==> heading_of(seq![c] + title) is None,
        trimmed(title) == title ==> trimmed(seq![' '] + title) == title,
{
    let ws = CharClass::Whitespace;
    let a = seq!['#', ' '] + title;
    let b = seq!['#', '#', ' '] + title;
    let d = seq!['#', '#', '#', ' '] + title;
    assert(a.skip(1) =~= seq![' '] + title);
    assert(b.skip(2) =~= seq![' '] + title);
    assert(d.skip(3) =~= seq![' '] + title);
    let e = seq!['#', c] + title;
    assert(e.skip(1)[0] == c);
    assert((seq![' '] + title).drop_first() =~= title);
    assert(drop_leading(seq![' '] + title, ws) == drop_leading(title, ws));
}

/// A dash, a star, or a number and a dot, each with a space behind it, make an item of
/// what follows.
pub proof fn law_marks_make_items(item: Seq<char>, n: Seq<char>)
    requires
        n.len() > 0,
        forall|i: int| 0 <= i < n.len() ==> is_dec(#[trigger] n[i]),
    ensures
        item_of(seq!['-', ' '] + item) == Some(item),
        item_of(seq!['*', ' '] + item) == Some(item),
        item_of(n + seq!['.', ' '] + item) == Some(item),
{
    reveal_strlit("- ");
    reveal_strlit("* ");
    reveal_strlit(". ");
    let ws = CharClass::Whitespace;
    let a = seq!['-', ' '] + item;
    let b = seq!['*', ' '] + item;
    let c = n + seq!['.', ' '] + item;
    assert("- "@ =~= seq!['-', ' '] && "* "@ =~= seq!['*', ' '] && ". "@ =~= seq!['.', ' ']);
    assert(a.take(2) =~= "- "@ && a.skip(2) =~= item);
    assert(b.take(2) =~= "* "@ && b.skip(2) =~= item);
    if begins(b, "- "@) {
        assert(b.take(2)[0] == '*');
    }
    assert(c[0] == n[0]);
    assert(is_dec(n[0]));
    lemma_drop_leading_none(c, ws);
    assert(drop_leading(c, ws) == c);
    if begins(c, "- "@) {
        assert(c.take(2)[0] == n[0]);
    }
    if begins(c, "* "@) {
        assert(c.take(2)[0] == n[0]);
    }
    assert forall|i: int| 0 <= i < n.len() implies is_dec(#[trigger] c[i]) by {
        assert(c[i] == n[i]);
    }
    assert(c[n.len() as int] == '.');
    lemma_leading_digits(c, n.len() as int);
    let rest = c.skip(n.len() as int);
    assert(rest =~= seq!['.', ' '] + item);
    assert(rest.take(2) =~= ". "@ && rest.skip(2) =~= item);
}

/// Is the line running text, without white space around it?
pub open spec fn runs_on(line: Seq<char>) -> bool {
    &&& line.len() > 0 && trimmed(line) == line
    &&& one_line(line)
    &&& heading_of(line) is None
    &&& item_of(line) is None
}

/// A line without white space around it stays as it is.
proof fn lemma_tidy(line: Seq<char>)
    requires
        line.len() > 0,
        trimmed(line) == line,
    ensures
        tidy(line) == line,
        !blank(line),
        drop_leading(line, CharClass::Whitespace) == line,
{
    crate::text::lemma_trimmed_edges(line);
    lemma_drop_leading_none(line, CharClass::Whitespace);
    lemma_drop_trailing_none(line, CharClass::Whitespace);
}

/// A text of one line.
proof fn lemma_one_line_text(line: Seq<char>)
    requires
        line.len() > 0,
        one_line(line),
    ensures
        lines_of(line) == seq![line],
{
    let feed = CharClass::Only('\n');
    assert forall|i: int| 0 <= i < line.len() implies !feed.has(#[trigger] line[i]) by {}
    crate::split::lemma_first_of_is(line, feed, line.len() as int);
}

/// A line and a line feed before a text.
proof fn lemma_line_before(line: Seq<char>, rest: Seq<char>)
    requires
        one_line(line),
        line.len() > 0 ==> line.last() != '\r',
    ensures
        lines_of(line + seq!['\n'] + rest) == seq![line] + lines_of(rest),
{
    let feed = CharClass::Only('\n');
    let s = line + seq!['\n'] + rest;
    assert forall|i: int| 0 <= i < line.len() implies !feed.has(#[trigger] s[i]) by {
        assert(s[i] == line[i]);
    }
    crate::split::lemma_first_of_is(s, feed, line.len() as int);
    assert(s.take(line.len() as int) =~= line);
    assert(s.skip(line.len() as int + 1) =~= rest);
}

/// A line of running text is shown as such.
pub proof fn law_running_line_is_shown(line: Seq<char>, italic: bool)
    requires
        runs_on(line),
        unmarked(line),
    ensures
        markdown_spans(line, italic) == seq![
            SpanView { text: line, style: Style { level: 0, bold: 0, italic, code: false } },
        ],
{
    lemma_one_line_text(line);
    lemma_tidy(line);
    let ls = seq![line];
    law_unmarked_text_is_one_span(line, body_style(italic));
    assert(paragraph_end(ls, 1) == 1);
    assert(paragraph_from(line, ls, 1) == line);
    assert(blocks_from(ls, 1, false, italic) =~= Seq::<SpanView>::empty());
    assert(blocks_from(ls, 0, true, italic) =~= inline_spans(line, body_style(italic)));
}

/// A heading is shown at its level, without its hashes.
pub proof fn law_heading_is_shown_at_its_level(line: Seq<char>, italic: bool)
    requires
        line.len() > 0,
        trimmed(line) == line,
        one_line(line),
        heading_of(line) is Some,
        unmarked((heading_of(line)->0).1),
        (heading_of(line)->0).1.len() > 0,
    ensures
        markdown_spans(line, italic) == seq![
            SpanView {
                text: (heading_of(line)->0).1,
                style: Style { level: (heading_of(line)->0).0, bold: 0, italic, code: false },
            },
        ],
{
    lemma_one_line_text(line);
    lemma_tidy(line);
    let ls = seq![line];
    let (level, title) = heading_of(line)->0;
    let st = Style { level, bold: 0, italic, code: false };
    law_unmarked_text_is_one_span(title, st);
    assert(blocks_from(ls, 1, false, italic) =~= Seq::<SpanView>::empty());
    assert(blocks_from(ls, 0, true, italic) =~= inline_spans(title, st));
}

/// An item is shown behind a bullet, without its own mark.
pub proof fn law_item_is_shown_with_bullet(line: Seq<char>, italic: bool)
    requires
        line.len() > 0,
        trimmed(line) == line,
        one_line(line),
        heading_of(line) is None,
        item_of(line) is Some,
        unmarked(item_of(line)->0),
        item_of(line)->0.len() > 0,
    ensures
        markdown_spans(line, italic) == seq![
            SpanView { text: "•  "@, style: Style { level: 0, bold: 0, italic, code: false } },
            SpanView {
                text: item_of(line)->0,
                style: Style { level: 0, bold: 0, italic, code: false },
            },
        ],
{
    lemma_one_line_text(line);
    lemma_tidy(line);
    let ls = seq![line];
    let item = item_of(line)->0;
    law_unmarked_text_is_one_span(item, body_style(italic));
    assert(list_end(ls, 1) == 1);
    assert(items_from(ls, 1, italic) =~= Seq::<SpanView>::empty());
    assert(blocks_from(ls, 1, false, italic) =~= Seq::<SpanView>::empty());
    assert(blocks_from(ls, 0, true, italic) =~= item_spans(item, italic));
    assert(item_spans(item, italic) =~= seq![
        SpanView { text: "•  "@, style: body_style(italic) },
        SpanView { text: item, style: body_style(italic) },
    ]);
}

/// Lines of running text that follow one another make one paragraph, with a space between
/// them; an empty line between them makes two paragraphs, with an empty line between.
pub proof fn law_empty_line_parts_paragraphs(a: Seq<char>, b: Seq<char>, italic: bool)
    requires
        runs_on(a),
        runs_on(b),
        unmarked(a),
        unmarked(b),
    ensures
        markdown_spans(a + seq!['\n'] + b, italic) == seq![
            SpanView {
                text: a + seq![' '] + b,
                style: Style { level: 0, bold: 0, italic, code: false },
            },
        ],
        markdown_spans(a + seq!['\n'] + (seq!['\n'] + b), italic) == seq![
            SpanView { text: a, style: Style { level: 0, bold: 0, italic, code: false } },
            SpanView { text: "\n\n"@, style: Style { level: 0, bold: 0, italic, code: false } },
            SpanView { text: b, style: Style { level: 0, bold: 0, italic, code: false } },
        ],
{
    lemma_tidy(a);
    lemma_tidy(b);
    crate::text::lemma_trimmed_edges(a);
    assert(a.last() != '\r');
    lemma_one_line_text(b);
    lemma_line_before(a, b);
    let two = seq![a, b];
    assert(seq![a] + lines_of(b) =~= two);
    assert(paragraph_end(two, 2) == 2);
    assert(paragraph_end(two, 1) == 2);
    let text = a + seq![' '] + b;
    assert(a.push(' ') + b =~= text);
    assert(paragraph_from(text, two, 2) == text);
    assert(paragraph_from(a, two, 1) == text);
    assert(unmarked(text)) by {
        assert forall|i: int| 0 <= i < text.len() implies {
            let c = #[trigger] text[i];
            c != '`' && c != '*' && c != '_'
        } by {
            if i < a.len() {
                assert(text[i] == a[i]);
            } else if i > a.len() {
                assert(text[i] == b[i - a.len() - 1]);
            }
        }
    }
    law_unmarked_text_is_one_span(text, body_style(italic));
    assert(blocks_from(two, 2, false, italic) =~= Seq::<SpanView>::empty());
    assert(blocks_from(two, 0, true, italic) =~= inline_spans(text, body_style(italic)));

    let none = Seq::<char>::empty();
    lemma_line_before(none, b);
    assert(none + seq!['\n'] + b =~= seq!['\n'] + b);
    lemma_line_before(a, seq!['\n'] + b);
    let three = seq![a, none, b];
    assert(seq![a] + (seq![none] + seq![b]) =~= three);
    assert(blank(none));
    assert(paragraph_end(three, 1) == 1);
    assert(paragraph_from(a, three, 1) == a);
    assert(paragraph_end(three, 3) == 3);
    assert(paragraph_from(b, three, 3) == b);
    law_unmarked_text_is_one_span(a, body_style(italic));
    law_unmarked_text_is_one_span(b, body_style(italic));
    assert(blocks_from(three, 3, false, italic) =~= Seq::<SpanView>::empty());
    assert(blocks_from(three, 2, false, italic) =~= gap(false, italic) + inline_spans(
        b,
        body_style(italic),
    ));
    assert(blocks_from(three, 1, false, italic) == blocks_from(three, 2, false, italic));
    assert(blocks_from(three, 0, true, italic) =~= seq![
        SpanView { text: a, style: body_style(italic) },
        SpanView { text: "\n\n"@, style: body_style(italic) },
        SpanView { text: b, style: body_style(italic) },
    ]);
}

} // verus!
