//! Repositories: their addresses, their short names and where they lie locally.
use crate::bytes::{lossy_text, to_lossy};
use crate::path::{below, join_path};
use crate::split::{pieces, split, texts};
use crate::text::{
    after_prefix, begins, concat, contains, drop_prefixes, drop_suffixes, drop_trailing, ends,
    is_empty, law_trim_idempotent, lemma_drop_leading_none, lemma_drop_trailing_none,
    lemma_trimmed_edges, nonblank, occurs, opt_text, opt_view, or_else, replace_once, replaced_once,
    starts_with, str_eq, strip_prefix, trim, trim_opt, trim_prefixes, trim_suffixes, trim_trailing,
    trimmed, CharClass,
};
use vstd::prelude::*;
use vstd::string::*;

verus! {

/// Does an address say how to reach its repository?
pub open spec fn has_scheme(s: Seq<char>) -> bool {
    begins(s, "http://"@) || begins(s, "https://"@) || begins(s, "git@"@)
}

/// The full address of a repository.
pub open spec fn repo_address(raw: Seq<char>) -> Result<Seq<char>, Seq<char>> {
    let s = trimmed(raw);
    if s.len() == 0 {
        Err("repository URL is required"@)
    } else if has_scheme(s) {
        Ok(s)
    } else if occurs(s, "/"@) {
        Ok("https://"@ + s)
    } else {
        Err("not a repository URL: "@ + s)
    }
}

/// The full address of a repository.
pub fn normalize_repo_url(raw: &str) -> (r: Result<String, String>)
    ensures
        crate::bao::result_text(r) == repo_address(raw@),
{
    let s = trim(raw);
    if is_empty(s) {
        return Err("repository URL is required".to_owned());
    }
    if starts_with(s, "http://") || starts_with(s, "https://") || starts_with(s, "git@") {
        return Ok(s.to_owned());
    }
    if contains(s, "/") {
        return Ok(concat("https://", s));
    }
    Err(concat("not a repository URL: ", s))
}

/// An address without what may stand behind a repository's name.
pub open spec fn without_tail(url: Seq<char>) -> Seq<char> {
    drop_suffixes(drop_trailing(trimmed(url), CharClass::Only('/')), ".git"@)
}

/// The short name of a repository: host, owner and name.
pub open spec fn slug_of(url: Seq<char>) -> Seq<char> {
    let s = without_tail(url);
    match after_prefix(s, "git@"@) {
        Some(rest) => replaced_once(rest, ":"@, "/"@),
        None => drop_prefixes(
            match or_else(after_prefix(s, "https://"@), after_prefix(s, "http://"@)) {
                Some(rest) => rest,
                None => s,
            },
            "www."@,
        ),
    }
}

/// The short name of a repository: host, owner and name.
pub fn repo_slug(url: &str) -> (r: String)
    ensures
        r@ == slug_of(url@),
{
    proof {
        reveal_strlit(".git");
        reveal_strlit("www.");
    }
    let s = trim_suffixes(trim_trailing(trim(url), CharClass::Only('/')), ".git");
    if let Some(rest) = strip_prefix(s, "git@") {
        return replace_once(rest, ":", "/");
    }
    let bare = match strip_prefix(s, "https://") {
        Some(rest) => rest,
        None => match strip_prefix(s, "http://") {
            Some(rest) => rest,
            None => s,
        },
    };
    trim_prefixes(bare, "www.").to_owned()
}

/// The directory in which a repository may lie: below `code` in the home
/// directory, under the last part of its short name, where that has several.
pub open spec fn guess_of(repo_url: Seq<char>, home: Option<Seq<char>>) -> Option<Seq<char>> {
    let parts = pieces(slug_of(repo_url), CharClass::Only('/'));
    match home {
        Some(h) => if parts.len() >= 2 {
            Some(below(below(h, "code"@), parts.last()))
        } else {
            None
        },
        None => None,
    }
}

/// The directory in which a repository may lie.
pub fn workspace_guess(repo_url: &str, home: Option<&str>) -> (r: Option<String>)
    ensures
        opt_text(r) == guess_of(repo_url@, opt_view(home)),
{
    let slug = repo_slug(repo_url);
    let parts = split(slug.as_str(), CharClass::Only('/'));
    assert(texts(parts@).len() == parts@.len());
    match home {
        Some(h) => if parts.len() >= 2 {
            assert(texts(parts@).last() == parts@.last()@);
            let code = join_path(h, "code");
            Some(join_path(code.as_str(), parts[parts.len() - 1].as_str()))
        } else {
            None
        },
        None => None,
    }
}

/// The local directory of a repository: the current one where it has the same
/// short name; the guessed one where it is there; else the short name itself.
pub open spec fn workspace_of(
    repo_url: Seq<char>,
    cwd: Option<Seq<char>>,
    home: Option<Seq<char>>,
    guess_is_dir: bool,
) -> Seq<char> {
    if cwd matches Some(c) && slug_of(c) == slug_of(repo_url) {
        cwd->0
    } else {
        match guess_of(repo_url, home) {
            Some(g) => if guess_is_dir {
                g
            } else {
                slug_of(repo_url)
            },
            None => slug_of(repo_url),
        }
    }
}

/// The local directory of a repository. `guess_is_dir` says whether
/// `workspace_guess` is a directory.
pub fn workspace_for_repo(
    repo_url: &str,
    cwd: Option<&str>,
    home: Option<&str>,
    guess_is_dir: bool,
) -> (r: String)
    ensures
        r@ == workspace_of(repo_url@, opt_view(cwd), opt_view(home), guess_is_dir),
{
    let slug = repo_slug(repo_url);
    if let Some(c) = cwd {
        if str_eq(repo_slug(c).as_str(), slug.as_str()) {
            return c.to_owned();
        }
    }
    if guess_is_dir {
        if let Some(g) = workspace_guess(repo_url, home) {
            return g;
        }
    }
    slug
}

/// The arguments with which `git` names the remote of a directory.
pub fn git_remote_args(workspace: &str) -> (r: Vec<String>)
    ensures
        texts(r@) == seq!["-C"@, workspace@, "remote"@, "get-url"@, "origin"@],
{
    let mut out: Vec<String> = Vec::new();
    out.push("-C".to_owned());
    out.push(workspace.to_owned());
    out.push("remote".to_owned());
    out.push("get-url".to_owned());
    out.push("origin".to_owned());
    assert(texts(out@) =~= seq!["-C"@, workspace@, "remote"@, "get-url"@, "origin"@]);
    out
}

/// The remote that `git` named, given whether it succeeded and what it printed.
pub fn git_remote_url(succeeded: bool, stdout: &Vec<u8>) -> (r: Option<String>)
    ensures
        opt_text(r) == if succeeded {
            nonblank(Some(lossy_text(stdout@)))
        } else {
            None
        },
        succeeded && vstd::utf8::valid_utf8(stdout@) ==> opt_text(r) == nonblank(
            Some(vstd::utf8::decode_utf8(stdout@)),
        ),
{
    if !succeeded {
        return None;
    }
    let text = to_lossy(stdout);
    trim_opt(Some(text.as_str()))
}

/// What is left of a longer text without slashes behind it.
proof fn lemma_drop_slashes_after(a: Seq<char>, b: Seq<char>)
    requires
        drop_trailing(b, CharClass::Only('/')).len() > 0,
    ensures
        drop_trailing(a + b, CharClass::Only('/')) == a + drop_trailing(b, CharClass::Only('/')),
    decreases b.len(),
{
    let class = CharClass::Only('/');
    assert((a + b).last() == b.last());
    if class.has(b.last()) {
        assert((a + b).drop_last() =~= a + b.drop_last());
        lemma_drop_slashes_after(a, b.drop_last());
    }
}

/// What is left of a longer text without `.git` behind it.
proof fn lemma_drop_git_after(b: Seq<char>)
    ensures
        drop_suffixes("https://"@ + b, ".git"@) == "https://"@ + drop_suffixes(b, ".git"@),
    decreases b.len(),
{
    reveal_strlit("https://");
    reveal_strlit(".git");
    let a = "https://"@;
    let p = ".git"@;
    let s = a + b;
    if ends(b, p) {
        assert(s.skip(s.len() - p.len()) =~= b.skip(b.len() - p.len()));
        assert(s.take(s.len() - p.len()) =~= a + b.take(b.len() - p.len()));
        lemma_drop_git_after(b.take(b.len() - p.len()));
    } else if ends(s, p) {
        let t = s.skip(s.len() - p.len());
        if b.len() >= 4 {
            assert(t =~= b.skip(b.len() - p.len()));
        } else {
            assert(t[3 - b.len()] == a[7]);
            assert(a[7] == '/');
        }
        assert(false);
    }
}

/// What is left after dropping is a head of the text.
proof fn lemma_without_tail_is_head(s: Seq<char>)
    ensures
        ({
            let r = drop_suffixes(drop_trailing(s, CharClass::Only('/')), ".git"@);
            r.len() <= s.len() && r == s.take(r.len() as int)
        }),
{
    let u = drop_trailing(s, CharClass::Only('/'));
    lemma_trailing_is_head(s);
    lemma_suffixes_is_head(u);
    let r = drop_suffixes(u, ".git"@);
    assert(r =~= s.take(r.len() as int));
}

/// What is left without slashes behind it is a head of the text.
proof fn lemma_trailing_is_head(s: Seq<char>)
    ensures
        drop_trailing(s, CharClass::Only('/')).len() <= s.len(),
        drop_trailing(s, CharClass::Only('/')) == s.take(
            drop_trailing(s, CharClass::Only('/')).len() as int,
        ),
    decreases s.len(),
{
    let u = drop_trailing(s, CharClass::Only('/'));
    if s.len() > 0 && CharClass::Only('/').has(s.last()) {
        lemma_trailing_is_head(s.drop_last());
        assert(s.drop_last().take(u.len() as int) =~= s.take(u.len() as int));
    } else {
        assert(s.take(s.len() as int) =~= s);
    }
}

/// What is left without `.git` behind it is a head of the text.
proof fn lemma_suffixes_is_head(s: Seq<char>)
    ensures
        drop_suffixes(s, ".git"@).len() <= s.len(),
        drop_suffixes(s, ".git"@) == s.take(drop_suffixes(s, ".git"@).len() as int),
    decreases s.len(),
{
    reveal_strlit(".git");
    let p = ".git"@;
    let r = drop_suffixes(s, p);
    if ends(s, p) {
        let t = s.take(s.len() - p.len());
        lemma_suffixes_is_head(t);
        assert(t.take(r.len() as int) =~= s.take(r.len() as int));
    } else {
        assert(s.take(s.len() as int) =~= s);
    }
}

/// A head of a text begins as the text does.
proof fn lemma_head_begins(s: Seq<char>, n: int, p: Seq<char>)
    requires
        0 <= n <= s.len(),
        begins(s.take(n), p),
    ensures
        begins(s, p),
{
    assert(s.take(p.len() as int) =~= s.take(n).take(p.len() as int));
}

/// An address and its full form have the same short name. (An address of
/// slashes alone has none.)
pub proof fn law_full_address_has_same_slug(raw: Seq<char>)
    requires
        repo_address(raw) is Ok,
        drop_trailing(trimmed(raw), CharClass::Only('/')).len() > 0,
    ensures
        slug_of(repo_address(raw)->Ok_0) == slug_of(raw),
{
    let s = trimmed(raw);
    let class = CharClass::Only('/');
    law_trim_idempotent(raw);
    lemma_trimmed_edges(raw);
    if !has_scheme(s) {
        let a = "https://"@;
        let full = a + s;
        reveal_strlit("https://");
        reveal_strlit("http://");
        reveal_strlit("git@");
        assert(full[0] == 'h' && full.last() == s.last());
        lemma_drop_leading_none(full, CharClass::Whitespace);
        lemma_drop_trailing_none(full, CharClass::Whitespace);
        assert(trimmed(full) == full);
        let u = drop_trailing(s, class);
        lemma_drop_slashes_after(a, s);
        lemma_drop_git_after(u);
        let w = drop_suffixes(u, ".git"@);
        assert(without_tail(full) == a + w);
        assert(without_tail(raw) == w);
        lemma_without_tail_is_head(s);
        if begins(w, "git@"@) {
            lemma_head_begins(s, w.len() as int, "git@"@);
        }
        if begins(w, "https://"@) {
            lemma_head_begins(s, w.len() as int, "https://"@);
        }
        if begins(w, "http://"@) {
            lemma_head_begins(s, w.len() as int, "http://"@);
        }
        assert((a + w).take(8) =~= a);
        assert((a + w).skip(8) =~= w);
        assert(!begins(a + w, "git@"@)) by {
            if begins(a + w, "git@"@) {
                assert((a + w).take(4)[0] == 'h');
            }
        }
    }
}

/// Is the text the plain short name of a repository?
pub open spec fn is_plain_slug(w: Seq<char>) -> bool {
    &&& w.len() > 0 && trimmed(w) == w
    &&& w.last() != '/'
    &&& !ends(w, ".git"@)
    &&& !begins(w, "www."@)
    &&& !begins(w, "git@"@)
    &&& !begins(w, "http://"@)
    &&& !begins(w, "https://"@)
}

/// The address of a repository, with or without a scheme, has the same short name.
pub proof fn law_address_has_its_slug(w: Seq<char>)
    requires
        is_plain_slug(w),
    ensures
        slug_of(w) == w,
        slug_of("https://"@ + w) == w,
        slug_of("http://"@ + w) == w,
{
    reveal_strlit("https://");
    reveal_strlit("http://");
    reveal_strlit("git@");
    reveal_strlit("www.");
    reveal_strlit(".git");
    lemma_plain_tail(w);
    lemma_no_www(w);
    lemma_scheme_tail("https://"@, w);
    lemma_scheme_tail("http://"@, w);
    let a = "https://"@ + w;
    let b = "http://"@ + w;
    assert(a.take(8) =~= "https://"@ && a.skip(8) =~= w);
    assert(b.take(7) =~= "http://"@ && b.skip(7) =~= w);
    assert(!begins(a, "git@"@)) by {
        if begins(a, "git@"@) {
            assert(a.take(4)[0] == a[0]);
        }
    }
    assert(!begins(b, "git@"@)) by {
        if begins(b, "git@"@) {
            assert(b.take(4)[0] == b[0]);
        }
    }
    assert(!begins(b, "https://"@)) by {
        if begins(b, "https://"@) {
            assert(b.take(8)[4] == b[4]);
        }
    }
}

/// A text that does not begin with `www.` stays.
proof fn lemma_no_www(w: Seq<char>)
    requires
        !begins(w, "www."@),
    ensures
        drop_prefixes(w, "www."@) == w,
{
}

/// A plain name has no tail to lose.
proof fn lemma_plain_tail(w: Seq<char>)
    requires
        is_plain_slug(w),
    ensures
        without_tail(w) == w,
{
    lemma_drop_trailing_none(w, CharClass::Only('/'));
}

/// A plain name behind a scheme has no tail to lose.
proof fn lemma_scheme_tail(scheme: Seq<char>, w: Seq<char>)
    requires
        is_plain_slug(w),
        scheme.len() > 0,
        scheme[0] == 'h',
        scheme.last() == '/',
    ensures
        without_tail(scheme + w) == scheme + w,
{
    let s = scheme + w;
    reveal_strlit(".git");
    assert(s[0] == 'h' && s.last() == w.last());
    lemma_trimmed_edges(w);
    lemma_drop_leading_none(s, CharClass::Whitespace);
    lemma_drop_trailing_none(s, CharClass::Whitespace);
    lemma_drop_trailing_none(s, CharClass::Only('/'));
    let g = ".git"@;
    if ends(s, g) {
        assert(s.skip(s.len() - 4) == g);
        if w.len() >= 4 {
            assert(w.skip(w.len() - 4) =~= s.skip(s.len() - 4));
        } else {
            let k = 3 - w.len();
            assert(s.skip(s.len() - 4)[k] == scheme.last());
            assert(g[k] != '/');
        }
    }
}

/// An address is full where it has a scheme; one with a slash gets `https`; a bare word is
/// no address, and a blank one is none either.
pub proof fn law_addresses_are_made_full(raw: Seq<char>)
    ensures
        ({
            let s = trimmed(raw);
            &&& s.len() == 0 ==> repo_address(raw) == Err::<Seq<char>, Seq<char>>(
                "repository URL is required"@,
            )
            &&& begins(s, "http://"@) || begins(s, "https://"@) || begins(s, "git@"@)
                ==> s.len() > 0 && repo_address(raw) == Ok::<Seq<char>, Seq<char>>(s)
            &&& s.len() > 0 && !begins(s, "http://"@) && !begins(s, "https://"@) && !begins(
                s,
                "git@"@,
            ) && occurs(s, "/"@) ==> repo_address(raw) == Ok::<Seq<char>, Seq<char>>(
                "https://"@ + s,
            )
            &&& s.len() > 0 && !begins(s, "http://"@) && !begins(s, "https://"@) && !begins(
                s,
                "git@"@,
            ) && !occurs(s, "/"@) ==> repo_address(raw) is Err
        }),
{
    reveal_strlit("http://");
    reveal_strlit("https://");
    reveal_strlit("git@");
}

/// The workspace of a repository is the current directory where that is the repository's
/// own; else the guess below the home directory where that is a directory; else its name.
pub proof fn law_workspace_of_repository(
    repo_url: Seq<char>,
    cwd: Seq<char>,
    home: Seq<char>,
    guess: Seq<char>,
)
    requires
        guess_of(repo_url, Some(home)) == Some(guess),
    ensures
        slug_of(cwd) == slug_of(repo_url) ==> workspace_of(repo_url, Some(cwd), Some(home), true)
            == cwd,
        slug_of(cwd) != slug_of(repo_url) ==> workspace_of(repo_url, Some(cwd), Some(home), true)
            == guess && workspace_of(repo_url, Some(cwd), Some(home), false) == slug_of(repo_url),
        workspace_of(repo_url, None, Some(home), true) == guess,
        workspace_of(repo_url, None, None, true) == slug_of(repo_url),
        pieces(slug_of(repo_url), CharClass::Only('/')).len() >= 2,
        guess == below(
            below(home, "code"@),
            pieces(slug_of(repo_url), CharClass::Only('/')).last(),
        ),
{
}

/// A repository's address for secure shell has the same short name: its host, and its path
/// behind a slash in place of the colon.
pub proof fn law_shell_address_has_its_slug(host: Seq<char>, path: Seq<char>)
    requires
        host.len() > 0,
        forall|i: int| 0 <= i < host.len() ==> #[trigger] host[i] != ':',
        path.len() > 0,
        path.last() != '/' && !crate::text::is_ws(path.last()),
        !ends(path, ".git"@),
        path.len() >= 4,
    ensures
        slug_of("git@"@ + host + seq![':'] + path) == host + seq!['/'] + path,
{
    reveal_strlit("git@");
    reveal_strlit(":");
    reveal_strlit("/");
    reveal_strlit(".git");
    let s = "git@"@ + host + seq![':'] + path;
    let rest = host + seq![':'] + path;
    assert(s[0] == 'g' && s.last() == path.last());
    lemma_drop_leading_none(s, CharClass::Whitespace);
    lemma_drop_trailing_none(s, CharClass::Whitespace);
    lemma_drop_trailing_none(s, CharClass::Only('/'));
    if ends(s, ".git"@) {
        assert(path.skip(path.len() - 4) =~= s.skip(s.len() - 4));
    }
    assert(without_tail(s) == s);
    assert(s.take(4) =~= "git@"@);
    assert(s.skip(4) =~= rest);
    let n = host.len() as int;
    crate::text::lemma_first_at(rest, ":"@, 0);
    assert(rest.subrange(n, n + 1) =~= ":"@);
    assert(crate::text::occurs_at(rest, ":"@, n));
    let k = crate::text::first_at(rest, ":"@, 0)->0;
    if k < n {
        assert(rest.subrange(k, k + 1)[0] == host[k]);
    }
    assert(rest.take(n) + "/"@ + rest.skip(n + 1) =~= host + seq!['/'] + path);
}

/// The remote is asked of `git` in the workspace, and is what `git` prints where it
/// succeeds, without the white space around it.
pub proof fn law_remote_is_asked_of_git(
    workspace: &str,
    args: Vec<String>,
    succeeded: bool,
    stdout: Vec<u8>,
    r: Option<String>,
)
    requires
        call_ensures(git_remote_args, (workspace,), args),
        call_ensures(git_remote_url, (succeeded, &stdout), r),
    ensures
        texts(args@) == seq!["-C"@, workspace@, "remote"@, "get-url"@, "origin"@],
        !succeeded ==> r is None,
        succeeded ==> opt_text(r) == nonblank(Some(lossy_text(stdout@))),
{
}

} // verus!
