//! The text on a terminal's screen: rows of cells, and what is selected of them.
use crate::letters::{alphanumeric, is_alphanumeric};
use crate::split::{join, joined, lemma_texts_push, shorten, shortened, texts};
use crate::text::{
    after_prefix, chars_of, drop_trailing, is_whitespace, is_ws, opt_text, opt_view, or_else,
    strip_prefix, trim, trim_trailing, trimmed, CharClass,
};
use vstd::prelude::*;
use vstd::string::*;

verus! {

/// A cell of a terminal: the number of its line and its character.
#[derive(Debug, Clone, Copy, PartialEq, Eq, Structural)]
pub struct ScreenCell {
    pub line: i32,
    pub c: char,
}

/// The rows of a screen, top to bottom: each is a run of cells of one line.
pub open spec fn rows_of(cells: Seq<ScreenCell>) -> Seq<(i32, Seq<char>)>
    decreases cells.len(),
{
    if cells.len() == 0 {
        Seq::empty()
    } else {
        let before = rows_of(cells.drop_last());
        let cell = cells.last();
        if before.len() > 0 && before.last().0 == cell.line {
            before.drop_last().push((cell.line, before.last().1.push(cell.c)))
        } else {
            before.push((cell.line, seq![cell.c]))
        }
    }
}

/// The text of each row.
pub open spec fn row_texts(rows: Seq<(i32, Seq<char>)>) -> Seq<Seq<char>> {
    rows.map_values(|r: (i32, Seq<char>)| r.1)
}

/// The text of each row of a screen.
pub fn screen_rows(cells: &Vec<ScreenCell>) -> (r: Vec<String>)
    ensures
        texts(r@) == row_texts(rows_of(cells@)),
{
    broadcast use lemma_texts_push;

    let mut done: Vec<String> = Vec::new();
    let mut buf = String::new();
    let mut line: Option<i32> = None;
    let mut i: usize = 0;
    assert(texts(done@) =~= row_texts(rows_of(cells@.take(0))));
    while i < cells.len()
        invariant
            i <= cells@.len(),
            match line {
                None => rows_of(cells@.take(i as int)).len() == 0 && texts(done@).len() == 0,
                Some(l) => rows_of(cells@.take(i as int)).len() > 0 && rows_of(
                    cells@.take(i as int),
                ).last() == (l, buf@) && texts(done@) == row_texts(
                    rows_of(cells@.take(i as int)).drop_last(),
                ),
            },
        decreases cells.len() - i,
    {
        let cell = cells[i];
        let ghost before = rows_of(cells@.take(i as int));
        let ghost kept = texts(done@);
        let ghost old_buf = buf@;
        proof {
            assert(cells@.take(i + 1).drop_last() =~= cells@.take(i as int));
            assert(cells@.take(i + 1).last() == cell);
        }
        let same = match line {
            Some(l) => l == cell.line,
            None => false,
        };
        if same {
            buf.push(cell.c);
            proof {
                let now = rows_of(cells@.take(i + 1));
                assert(now.drop_last() =~= before.drop_last());
            }
        } else {
            if line.is_some() {
                done.push(buf);
            }
            buf = String::new();
            buf.push(cell.c);
            line = Some(cell.line);
            proof {
                let now = rows_of(cells@.take(i + 1));
                assert(now.drop_last() =~= before);
                assert(buf@ =~= seq![cell.c]);
                if before.len() > 0 {
                    assert(row_texts(before) =~= row_texts(before.drop_last()).push(old_buf));
                } else {
                    assert(texts(done@) =~= row_texts(before));
                }
            }
        }
        i += 1;
    }
    assert(cells@.take(i as int) =~= cells@);
    let ghost rows = rows_of(cells@);
    if line.is_some() {
        done.push(buf);
        assert(row_texts(rows) =~= row_texts(rows.drop_last()).push(buf@));
    } else {
        assert(texts(done@) =~= row_texts(rows));
    }
    done
}

/// Is everything in `s` white space?
pub open spec fn all_ws(s: Seq<char>) -> bool {
    forall|i: int| 0 <= i < s.len() ==> is_ws(#[trigger] s[i])
}

/// Is everything in `s` white space?
fn is_blank(s: &str) -> (r: bool)
    ensures
        r == all_ws(s@),
{
    let cs = chars_of(s);
    let mut i: usize = 0;
    while i < cs.len()
        invariant
            cs@ == s@,
            i <= cs@.len(),
            forall|j: int| 0 <= j < i ==> is_ws(#[trigger] cs@[j]),
        decreases cs.len() - i,
    {
        if !is_whitespace(cs[i]) {
            assert(!is_ws(s@[i as int]));
            return false;
        }
        i += 1;
    }
    true
}

/// Each text without the spaces and tabs behind it.
pub open spec fn without_tails(rows: Seq<Seq<char>>) -> Seq<Seq<char>> {
    rows.map_values(|s: Seq<char>| drop_trailing(s, CharClass::Blank))
}

/// The text of selected cells: their rows, without the spaces and tabs behind
/// them, on lines of their own; nothing where all of it is white space.
pub open spec fn selection_of(cells: Seq<ScreenCell>) -> Seq<char> {
    let t = joined(without_tails(row_texts(rows_of(cells))), "\n"@);
    if all_ws(t) {
        Seq::empty()
    } else {
        t
    }
}

/// `s` without the spaces and tabs behind it.
pub fn trim_trailing_ws(s: &str) -> (r: String)
    ensures
        r@ == drop_trailing(s@, CharClass::Blank),
{
    trim_trailing(s, CharClass::Blank).to_owned()
}

/// The text of the selected cells of a terminal, in the order of the screen.
pub fn term_selection_text(cells: &Vec<ScreenCell>) -> (r: String)
    ensures
        r@ == selection_of(cells@),
{
    broadcast use lemma_texts_push;

    let rows = screen_rows(cells);
    let ghost want = without_tails(texts(rows@));
    let mut lines: Vec<String> = Vec::new();
    let mut i: usize = 0;
    assert(texts(lines@) =~= want.take(0));
    while i < rows.len()
        invariant
            i <= rows@.len(),
            want == without_tails(texts(rows@)),
            texts(lines@) == want.take(i as int),
        decreases rows.len() - i,
    {
        let line = trim_trailing_ws(rows[i].as_str());
        assert(want[i as int] == line@);
        lines.push(line);
        assert(want.take(i + 1) =~= want.take(i as int).push(line@));
        i += 1;
    }
    assert(want.take(i as int) =~= want);
    let text = join(&lines, "\n");
    if is_blank(text.as_str()) {
        let r = "".to_owned();
        proof {
            reveal_strlit("");
            assert(r@ =~= Seq::<char>::empty());
        }
        r
    } else {
        text
    }
}

/// What is copied is never blank.
pub proof fn law_selection_is_not_blank(cells: Seq<ScreenCell>)
    ensures
        selection_of(cells).len() > 0 ==> !all_ws(selection_of(cells)),
{
}

/// `s` without the characters of empty cells.
pub open spec fn without_nul(s: Seq<char>) -> Seq<char>
    decreases s.len(),
{
    if s.len() == 0 {
        s
    } else if s.last() == '\0' {
        without_nul(s.drop_last())
    } else {
        without_nul(s.drop_last()).push(s.last())
    }
}

/// `s` without the characters of empty cells.
fn drop_nul(s: &str) -> (r: String)
    ensures
        r@ == without_nul(s@),
{
    let cs = chars_of(s);
    let mut out = String::new();
    let mut i: usize = 0;
    assert(s@.take(0) =~= Seq::<char>::empty());
    while i < cs.len()
        invariant
            cs@ == s@,
            i <= cs@.len(),
            out@ == without_nul(s@.take(i as int)),
        decreases cs.len() - i,
    {
        assert(s@.take(i + 1).drop_last() =~= s@.take(i as int));
        assert(s@.take(i + 1).last() == cs@[i as int]);
        if cs[i] != '\0' {
            out.push(cs[i]);
        }
        i += 1;
    }
    assert(s@.take(i as int) =~= s@);
    out
}

/// What follows the bullet or the prompt with which a line begins.
pub open spec fn after_bullet(s: Seq<char>) -> Option<Seq<char>> {
    or_else(
        after_prefix(s, "› "@),
        or_else(
            after_prefix(s, "> "@),
            or_else(
                after_prefix(s, "❯ "@),
                or_else(
                    after_prefix(s, "• "@),
                    or_else(
                        after_prefix(s, "- "@),
                        or_else(after_prefix(s, "* "@), after_prefix(s, "$ "@)),
                    ),
                ),
            ),
        ),
    )
}

/// A line without the bullet or the prompt before it.
pub open spec fn plain_line(line: Seq<char>) -> Seq<char> {
    match after_bullet(trimmed(line)) {
        Some(rest) => trimmed(rest),
        None => trimmed(line),
    }
}

/// How many letters and numbers `s` holds.
pub open spec fn alnum_count(s: Seq<char>) -> nat
    decreases s.len(),
{
    if s.len() == 0 {
        0
    } else {
        alnum_count(s.drop_last()) + if alphanumeric(s.last()) {
            1nat
        } else {
            0nat
        }
    }
}

/// The title that a line makes, given how many letters and numbers it holds:
/// none where there are fewer than four; else the line, in at most 48 characters.
pub open spec fn title_given(s: Seq<char>, alnum: nat) -> Option<Seq<char>> {
    if alnum < 4 {
        None
    } else {
        Some(shortened(s, 48))
    }
}

/// The title that a line of a screen makes.
pub open spec fn title_of_line(line: Seq<char>) -> Option<Seq<char>> {
    title_given(plain_line(line), alnum_count(plain_line(line)))
}

/// What follows the bullet or the prompt with which a line begins.
fn skip_bullet<'a>(s: &'a str) -> (r: Option<&'a str>)
    ensures
        opt_view(r) == after_bullet(s@),
{
    if let Some(t) = strip_prefix(s, "› ") {
        return Some(t);
    }
    if let Some(t) = strip_prefix(s, "> ") {
        return Some(t);
    }
    if let Some(t) = strip_prefix(s, "❯ ") {
        return Some(t);
    }
    if let Some(t) = strip_prefix(s, "• ") {
        return Some(t);
    }
    if let Some(t) = strip_prefix(s, "- ") {
        return Some(t);
    }
    if let Some(t) = strip_prefix(s, "* ") {
        return Some(t);
    }
    strip_prefix(s, "$ ")
}

/// How many letters and numbers `s` holds.
fn count_alnum(s: &str) -> (r: usize)
    ensures
        r == alnum_count(s@),
{
    let cs = chars_of(s);
    let mut n: usize = 0;
    let mut i: usize = 0;
    while i < cs.len()
        invariant
            cs@ == s@,
            i <= cs@.len(),
            n <= i,
            n == alnum_count(s@.take(i as int)),
        decreases cs.len() - i,
    {
        assert(s@.take(i + 1).drop_last() =~= s@.take(i as int));
        assert(s@.take(i + 1).last() == cs@[i as int]);
        if is_alphanumeric(cs[i]) {
            n += 1;
        }
        i += 1;
    }
    assert(s@.take(i as int) =~= s@);
    n
}

/// The title that a line makes, given how many letters and numbers it holds.
pub fn title_from_line(s: &str, alnum: usize) -> (r: Option<String>)
    ensures
        opt_text(r) == title_given(s@, alnum as nat),
{
    if alnum < 4 {
        None
    } else {
        Some(shorten(s, 48))
    }
}

/// The title that a line of a screen makes: without bullet or prompt, and none
/// where it is little more than decoration.
pub fn sanitize_auto_title(line: &str) -> (r: Option<String>)
    ensures
        opt_text(r) == title_of_line(line@),
{
    let t = trim(line);
    let s = match skip_bullet(t) {
        Some(rest) => trim(rest),
        None => t,
    };
    let n = count_alnum(s);
    title_from_line(s, n)
}

/// The title that the first line of a screen makes that makes one.
pub open spec fn title_of_rows(rows: Seq<Seq<char>>) -> Option<Seq<char>>
    decreases rows.len(),
{
    if rows.len() == 0 {
        None
    } else {
        or_else(title_of_line(without_nul(rows[0])), title_of_rows(rows.drop_first()))
    }
}

/// The title that a screen makes.
pub fn title_from_terminal(cells: &Vec<ScreenCell>) -> (r: Option<String>)
    ensures
        opt_text(r) == title_of_rows(row_texts(rows_of(cells@))),
{
    let rows = screen_rows(cells);
    let ghost all = texts(rows@);
    let mut i: usize = 0;
    assert(all.skip(0) =~= all);
    while i < rows.len()
        invariant
            i <= rows@.len(),
            all == texts(rows@),
            all == row_texts(rows_of(cells@)),
            title_of_rows(all.skip(i as int)) == title_of_rows(all),
        decreases rows.len() - i,
    {
        proof {
            assert(all.skip(i as int)[0] == rows@[i as int]@);
            assert(all.skip(i as int).drop_first() =~= all.skip(i + 1));
        }
        let line = drop_nul(rows[i].as_str());
        if let Some(title) = sanitize_auto_title(line.as_str()) {
            return Some(title);
        }
        i += 1;
    }
    None
}

/// A title from a screen has at most 48 characters.
pub proof fn law_screen_title_is_short(line: Seq<char>)
    ensures
        title_of_line(line) matches Some(t) ==> t.len() <= 48,
{
    crate::split::law_shortened_fits(plain_line(line), 48);
}

/// A cell of the line that was read last goes on with its row, and a cell of another line
/// begins a new one; the rows before stay as they are.
pub proof fn law_cells_make_rows(cells: Seq<ScreenCell>, cell: ScreenCell)
    ensures
        ({
            let before = row_texts(rows_of(cells));
            let now = row_texts(rows_of(cells.push(cell)));
            if cells.len() > 0 && cells.last().line == cell.line {
                before.len() > 0 && now == before.drop_last().push(before.last().push(cell.c))
            } else {
                now == before.push(seq![cell.c])
            }
        }),
{
    assert(cells.push(cell).drop_last() =~= cells);
    let rows = rows_of(cells);
    lemma_last_row(cells);
    let now = row_texts(rows_of(cells.push(cell)));
    let before = row_texts(rows);
    if cells.len() > 0 && cells.last().line == cell.line {
        assert(now =~= before.drop_last().push(before.last().push(cell.c)));
    } else {
        assert(now =~= before.push(seq![cell.c]));
    }
}

/// The last row is of the line of the last cell.
proof fn lemma_last_row(cells: Seq<ScreenCell>)
    ensures
        cells.len() > 0 ==> rows_of(cells).len() > 0 && rows_of(cells).last().0
            == cells.last().line,
        cells.len() == 0 ==> rows_of(cells).len() == 0,
{
}

/// What is copied of a row is its text without the spaces and tabs behind it; rows stand on
/// lines of their own.
pub proof fn law_selection_is_rows_on_lines(cells: Seq<ScreenCell>)
    ensures
        ({
            let rows = row_texts(rows_of(cells));
            let t = selection_of(cells);
            &&& rows.len() == 1 && !all_ws(rows[0]) ==> t == drop_trailing(
                rows[0],
                CharClass::Blank,
            )
            &&& rows.len() == 2 && !all_ws(rows[0]) ==> t == drop_trailing(
                rows[0],
                CharClass::Blank,
            ) + seq!['\n'] + drop_trailing(rows[1], CharClass::Blank)
            &&& rows.len() == 0 ==> t.len() == 0
        }),
{
    reveal_strlit("\n");
    assert("\n"@ =~= seq!['\n']);
    let rows = row_texts(rows_of(cells));
    let w = without_tails(rows);
    if rows.len() > 0 && !all_ws(rows[0]) {
        let a = drop_trailing(rows[0], CharClass::Blank);
        lemma_tail_keeps_ink(rows[0]);
        assert(w[0] == a);
        let k = choose|k: int| 0 <= k < a.len() && !is_ws(#[trigger] a[k]);
        if rows.len() == 1 {
            assert(joined(w, "\n"@) == a);
        } else if rows.len() == 2 {
            assert(w.drop_last() =~= seq![a]);
            assert(joined(seq![a], "\n"@) == a);
            let all = joined(w, "\n"@);
            assert(all =~= a + seq!['\n'] + w[1]);
            assert(all[k] == a[k]);
            assert(!is_ws(all[k]));
        }
    }
    if rows.len() == 0 {
        assert(joined(w, "\n"@).len() == 0);
    }
}

/// What is not white space is not cut off.
proof fn lemma_tail_keeps_ink(s: Seq<char>)
    requires
        !all_ws(s),
    ensures
        exists|k: int|
            0 <= k < drop_trailing(s, CharClass::Blank).len() && !is_ws(
                #[trigger] drop_trailing(s, CharClass::Blank)[k],
            ),
    decreases s.len(),
{
    let i = choose|i: int| 0 <= i < s.len() && !is_ws(#[trigger] s[i]);
    if s.len() > 0 && CharClass::Blank.has(s.last()) {
        assert(is_ws(s.last()));
        assert(s.drop_last()[i] == s[i]);
        lemma_tail_keeps_ink(s.drop_last());
        let t = drop_trailing(s.drop_last(), CharClass::Blank);
        let k = choose|k: int| 0 <= k < t.len() && !is_ws(#[trigger] t[k]);
        assert(drop_trailing(s, CharClass::Blank)[k] == t[k]);
    } else {
        assert(!is_ws(drop_trailing(s, CharClass::Blank)[i]));
    }
}

/// A line makes a title where it has at least four letters and numbers behind its bullet or
/// prompt: itself, without them, cut down to 48 characters.
pub proof fn law_line_makes_title(line: Seq<char>, rest: Seq<char>)
    requires
        trimmed(rest) == rest,
        rest.len() > 0,
    ensures
        title_of_line(seq!['›', ' '] + rest) == title_given(rest, alnum_count(rest)),
        title_of_line(seq!['>', ' '] + rest) == title_given(rest, alnum_count(rest)),
        title_of_line(seq!['❯', ' '] + rest) == title_given(rest, alnum_count(rest)),
        title_of_line(seq!['•', ' '] + rest) == title_given(rest, alnum_count(rest)),
        title_of_line(seq!['-', ' '] + rest) == title_given(rest, alnum_count(rest)),
        title_of_line(seq!['*', ' '] + rest) == title_given(rest, alnum_count(rest)),
        title_of_line(seq!['$', ' '] + rest) == title_given(rest, alnum_count(rest)),
        after_bullet(rest) is None ==> title_of_line(rest) == title_given(rest, alnum_count(rest)),
        alnum_count(rest) >= 4 ==> title_given(rest, alnum_count(rest)) == Some(
            shortened(rest, 48),
        ),
        alnum_count(rest) < 4 ==> title_given(rest, alnum_count(rest)) is None,
{
    lemma_bullet('›', rest);
    lemma_bullet('>', rest);
    lemma_bullet('❯', rest);
    lemma_bullet('•', rest);
    lemma_bullet('-', rest);
    lemma_bullet('*', rest);
    lemma_bullet('$', rest);
}

/// What follows one of the bullets.
proof fn lemma_bullet(c: char, rest: Seq<char>)
    requires
        c == '›' || c == '>' || c == '❯' || c == '•' || c == '-' || c == '*' || c == '$',
        trimmed(rest) == rest,
        rest.len() > 0,
    ensures
        plain_line(seq![c, ' '] + rest) == rest,
{
    reveal_strlit("› ");
    reveal_strlit("> ");
    reveal_strlit("❯ ");
    reveal_strlit("• ");
    reveal_strlit("- ");
    reveal_strlit("* ");
    reveal_strlit("$ ");
    let s = seq![c, ' '] + rest;
    crate::text::lemma_trimmed_edges(rest);
    crate::text::lemma_drop_leading_none(s, CharClass::Whitespace);
    crate::text::lemma_drop_trailing_none(s, CharClass::Whitespace);
    assert(trimmed(s) == s);
    assert(s.skip(2) =~= rest);
    lemma_bullet_prefix(s, c, "› "@, '›');
    lemma_bullet_prefix(s, c, "> "@, '>');
    lemma_bullet_prefix(s, c, "❯ "@, '❯');
    lemma_bullet_prefix(s, c, "• "@, '•');
    lemma_bullet_prefix(s, c, "- "@, '-');
    lemma_bullet_prefix(s, c, "* "@, '*');
    lemma_bullet_prefix(s, c, "$ "@, '$');
}

/// A text begins with a bullet exactly where its first character is the bullet.
proof fn lemma_bullet_prefix(s: Seq<char>, c: char, p: Seq<char>, d: char)
    requires
        s.len() >= 2,
        s[0] == c,
        s[1] == ' ',
        p.len() == 2,
        p[0] == d,
        p[1] == ' ',
    ensures
        c == d ==> after_prefix(s, p) == Some(s.skip(2)),
        c != d ==> after_prefix(s, p) is None,
{
    if c == d {
        assert(s.take(2) =~= p);
    } else {
        assert(s.take(2)[0] == c);
    }
}

/// Letters and numbers are counted one by one.
pub proof fn law_letters_are_counted(s: Seq<char>)
    ensures
        alnum_count(s) == s.filter(|c: char| alphanumeric(c)).len(),
        without_nul(s) == s.filter(|c: char| c != '\0'),
    decreases s.len(),
{
    reveal(Seq::filter);
    if s.len() > 0 {
        law_letters_are_counted(s.drop_last());
    }
}

/// The title of a screen is that of the first row that makes one.
pub proof fn law_first_row_with_title_names_screen(rows: Seq<Seq<char>>, k: int)
    requires
        0 <= k < rows.len(),
        forall|i: int|
            0 <= i < k ==> title_of_line(
                (#[trigger] rows[i]).filter(|c: char| c != '\0'),
            ) is None,
        title_of_line(rows[k].filter(|c: char| c != '\0')) is Some,
    ensures
        title_of_rows(rows) == title_of_line(rows[k].filter(|c: char| c != '\0')),
    decreases rows.len(),
{
    law_letters_are_counted(rows[0]);
    if k > 0 {
        let t = rows.drop_first();
        assert(title_of_line(rows[0].filter(|c: char| c != '\0')) is None);
        assert forall|i: int| 0 <= i < k - 1 implies title_of_line(
            (#[trigger] t[i]).filter(|c: char| c != '\0'),
        ) is None by {
            assert(t[i] == rows[i + 1]);
        }
        assert(t[k - 1] == rows[k]);
        law_first_row_with_title_names_screen(t, k - 1);
    }
}

} // verus!
