//! The pages that a browser is shown after a sign-in.
use crate::text::chars_of;
use vstd::prelude::*;
use vstd::string::*;

verus! {

/// A character as it stands in the text of a page.
pub open spec fn escaped_char(c: char) -> Seq<char> {
    if c == '&' {
        "&amp;"@
    } else if c == '<' {
        "&lt;"@
    } else if c == '>' {
        "&gt;"@
    } else if c == '"' {
        "&quot;"@
    } else {
        seq![c]
    }
}

/// `s` as it stands in the text of a page.
pub open spec fn html_escaped(s: Seq<char>) -> Seq<char>
    decreases s.len(),
{
    if s.len() == 0 {
        Seq::empty()
    } else {
        html_escaped(s.drop_last()) + escaped_char(s.last())
    }
}

/// `s` as it stands in the text of a page: ampersands, angle brackets and
/// quotes are written as entities.
pub fn html_escape(s: &str) -> (r: String)
    ensures
        r@ == html_escaped(s@),
{
    let cs = chars_of(s);
    let mut out = String::new();
    let mut i: usize = 0;
    while i < cs.len()
        invariant
            cs@ == s@,
            i <= cs@.len(),
            out@ == html_escaped(s@.take(i as int)),
        decreases cs.len() - i,
    {
        let c = cs[i];
        let ghost before = out@;
        proof {
            assert(s@.take(i + 1).drop_last() =~= s@.take(i as int));
            assert(s@.take(i + 1).last() == c);
        }
        if c == '&' {
            out.append("&amp;");
        } else if c == '<' {
            out.append("&lt;");
        } else if c == '>' {
            out.append("&gt;");
        } else if c == '"' {
            out.append("&quot;");
        } else {
            out.push(c);
            assert(out@ =~= before + seq![c]);
        }
        i += 1;
    }
    assert(s@.take(i as int) =~= s@);
    out
}

/// Escaped text holds no angle bracket and no quote: it cannot open or close a
/// tag or an attribute.
pub proof fn law_escaped_text_is_inert(s: Seq<char>)
    ensures
        forall|i: int|
            0 <= i < html_escaped(s).len() ==> {
                let c = #[trigger] html_escaped(s)[i];
                c != '<' && c != '>' && c != '"'
            },
    decreases s.len(),
{
    reveal_strlit("&amp;");
    reveal_strlit("&lt;");
    reveal_strlit("&gt;");
    reveal_strlit("&quot;");
    if s.len() > 0 {
        law_escaped_text_is_inert(s.drop_last());
        let before = html_escaped(s.drop_last());
        let all = html_escaped(s);
        assert forall|i: int| 0 <= i < all.len() implies {
            let c = #[trigger] all[i];
            c != '<' && c != '>' && c != '"'
        } by {
            if i < before.len() {
                assert(all[i] == before[i]);
            } else {
                assert(all[i] == escaped_char(s.last())[i - before.len()]);
            }
        }
    }
}

/// A character that is not special in HTML stands for itself.
pub proof fn law_plain_text_passes(s: Seq<char>)
    requires
        forall|i: int|
            0 <= i < s.len() ==> {
                let c = #[trigger] s[i];
                c != '&' && c != '<' && c != '>' && c != '"'
            },
    ensures
        html_escaped(s) == s,
    decreases s.len(),
{
    if s.len() > 0 {
        let t = s.drop_last();
        assert forall|i: int| 0 <= i < t.len() implies {
            let c = #[trigger] t[i];
            c != '&' && c != '<' && c != '>' && c != '"'
        } by {
            assert(t[i] == s[i]);
        }
        law_plain_text_passes(t);
        assert(s[s.len() - 1] == s.last());
        assert(t + seq![s.last()] =~= s);
    }
}

/// What a page begins with, up to its heading.
pub open spec fn page_start() -> Seq<char> {
    "<!DOCTYPE html>\n<html><head><meta charset=\"utf-8\"><title>Agent Manager</title></head>\n<body style=\"font-family: system-ui, sans-serif; margin: 2rem;\">\n<h1>"@
}

/// A page with a heading and a paragraph.
pub open spec fn page(heading: Seq<char>, paragraph: Seq<char>) -> Seq<char> {
    page_start() + heading + "</h1>\n<p>"@ + paragraph + "</p>\n</body></html>"@
}

/// A page with a heading and a paragraph.
fn make_page(heading: &str, paragraph: &str) -> (r: String)
    ensures
        r@ == page(heading@, paragraph@),
{
    let mut out =
        "<!DOCTYPE html>\n<html><head><meta charset=\"utf-8\"><title>Agent Manager</title></head>\n<body style=\"font-family: system-ui, sans-serif; margin: 2rem;\">\n<h1>".to_owned();
    out.append(heading);
    out.append("</h1>\n<p>");
    out.append(paragraph);
    out.append("</p>\n</body></html>");
    out
}

/// The page after a sign-in that succeeded.
pub open spec fn success_page() -> Seq<char> {
    page(
        "Authentication successful"@,
        "You may close this window and return to Agent Manager."@,
    )
}

/// The page after a sign-in that failed.
pub open spec fn error_page(summary: Seq<char>, detail: Seq<char>) -> Seq<char> {
    page(html_escaped(summary), html_escaped(detail))
}

/// The page after a sign-in that succeeded.
pub fn success_html() -> (r: String)
    ensures
        r@ == success_page(),
{
    make_page(
        "Authentication successful",
        "You may close this window and return to Agent Manager.",
    )
}

/// The page after a sign-in that failed.
pub fn error_html(summary: &str, detail: &str) -> (r: String)
    ensures
        r@ == error_page(summary@, detail@),
{
    make_page(html_escape(summary).as_str(), html_escape(detail).as_str())
}

/// Each character is escaped by itself: the marks of a page as their entities, and all
/// others as they are.
pub proof fn law_marks_are_escaped(s: Seq<char>, c: char)
    ensures
        html_escaped(s.push('&')) == html_escaped(s) + "&amp;"@,
        html_escaped(s.push('<')) == html_escaped(s) + "&lt;"@,
        html_escaped(s.push('>')) == html_escaped(s) + "&gt;"@,
        html_escaped(s.push('"')) == html_escaped(s) + "&quot;"@,
        c != '&' && c != '<' && c != '>' && c != '"' ==> html_escaped(s.push(c)) == html_escaped(
            s,
        ) + seq![c],
{
    assert(s.push('&').drop_last() =~= s);
    assert(s.push('<').drop_last() =~= s);
    assert(s.push('>').drop_last() =~= s);
    assert(s.push('"').drop_last() =~= s);
    assert(s.push(c).drop_last() =~= s);
}

/// The page of a failure shows the summary as its heading and the detail below it, both
/// escaped; that of a success says so.
pub proof fn law_pages_show_what_happened(summary: Seq<char>, detail: Seq<char>)
    ensures
        error_page(summary, detail) == page_start() + html_escaped(summary) + "</h1>\n<p>"@
            + html_escaped(detail) + "</p>\n</body></html>"@,
        success_page() == page_start() + "Authentication successful"@ + "</h1>\n<p>"@
            + "You may close this window and return to Agent Manager."@ + "</p>\n</body></html>"@,
{
}

} // verus!
