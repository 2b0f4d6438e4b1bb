//! Unix paths as text: their components, names, stems and extensions.
use crate::split::{pieces, split, texts, lemma_texts_push};
use crate::text::{chars_of, opt_text, str_eq, string_of, CharClass};
use vstd::prelude::*;
use vstd::string::*;

verus! {

/// The components among the pieces of a path between slashes: empty pieces do
/// not count, nor does a `.`, unless the path begins with it.
pub open spec fn kept(ps: Seq<Seq<char>>) -> Seq<Seq<char>>
    decreases ps.len(),
{
    if ps.len() == 0 {
        Seq::empty()
    } else if ps.last().len() == 0 || (ps.last() == "."@ && ps.len() > 1) {
        kept(ps.drop_last())
    } else {
        kept(ps.drop_last()).push(ps.last())
    }
}

/// The components of a path.
pub open spec fn components_of(path: Seq<char>) -> Seq<Seq<char>> {
    kept(pieces(path, CharClass::Only('/')))
}

/// Does the path begin at the root?
pub open spec fn rooted(path: Seq<char>) -> bool {
    path.len() > 0 && path[0] == '/'
}

/// Do two texts write the same path, component by component?
pub open spec fn same(a: Seq<char>, b: Seq<char>) -> bool {
    rooted(a) == rooted(b) && components_of(a) == components_of(b)
}

/// The last component of a path, unless it is `.` or `..`.
pub open spec fn name_of(path: Seq<char>) -> Option<Seq<char>> {
    let cs = components_of(path);
    if cs.len() == 0 || cs.last() == "."@ || cs.last() == ".."@ {
        None
    } else {
        Some(cs.last())
    }
}

/// The position of the last dot in `s`; -1 if there is none.
pub open spec fn last_dot(s: Seq<char>) -> int
    decreases s.len(),
{
    if s.len() == 0 {
        -1
    } else if s.last() == '.' {
        s.len() - 1
    } else {
        last_dot(s.drop_last())
    }
}

/// What stands before the last dot of the path's name; the whole name where it
/// has no dot after its first character.
pub open spec fn stem_of(path: Seq<char>) -> Option<Seq<char>> {
    match name_of(path) {
        Some(n) => if last_dot(n) > 0 {
            Some(n.take(last_dot(n)))
        } else {
            Some(n)
        },
        None => None,
    }
}

/// What follows the last dot of the path's name, where that is not its first character.
pub open spec fn extension_of(path: Seq<char>) -> Option<Seq<char>> {
    match name_of(path) {
        Some(n) => if last_dot(n) > 0 {
            Some(n.skip(last_dot(n) + 1))
        } else {
            None
        },
        None => None,
    }
}

/// The components of a path.
pub fn components(path: &str) -> (r: Vec<String>)
    ensures
        texts(r@) == components_of(path@),
{
    broadcast use lemma_texts_push;

    let all = split(path, CharClass::Only('/'));
    let mut out: Vec<String> = Vec::new();
    let mut i: usize = 0;
    let ghost ps = texts(all@);
    while i < all.len()
        invariant
            i <= all@.len(),
            ps == texts(all@),
            texts(out@) == kept(ps.take(i as int)),
        decreases all.len() - i,
    {
        let p = all[i].as_str();
        proof {
            assert(ps.take(i + 1).drop_last() =~= ps.take(i as int));
            assert(ps.take(i + 1).last() == p@);
            reveal_strlit(".");
        }
        if p.unicode_len() == 0 || (i > 0 && str_eq(p, ".")) {
        } else {
            out.push(p.to_owned());
        }
        i += 1;
    }
    assert(ps.take(i as int) =~= ps);
    out
}

/// Are the two lists of texts the same?
fn same_texts(a: &Vec<String>, b: &Vec<String>) -> (r: bool)
    ensures
        r == (texts(a@) == texts(b@)),
{
    if a.len() != b.len() {
        assert(texts(a@).len() != texts(b@).len());
        return false;
    }
    let mut i: usize = 0;
    while i < a.len()
        invariant
            i <= a@.len(),
            a@.len() == b@.len(),
            forall|j: int| 0 <= j < i ==> a@[j]@ == b@[j]@,
        decreases a.len() - i,
    {
        if !str_eq(a[i].as_str(), b[i].as_str()) {
            assert(texts(a@)[i as int] != texts(b@)[i as int]);
            return false;
        }
        i += 1;
    }
    assert(texts(a@) =~= texts(b@));
    true
}

/// Does the path begin at the root?
fn is_rooted(path: &str) -> (r: bool)
    ensures
        r == rooted(path@),
{
    path.unicode_len() > 0 && path.get_char(0) == '/'
}

/// Do two texts write the same path?
pub fn same_path(a: &str, b: &str) -> (r: bool)
    ensures
        r == same(a@, b@),
{
    let x = components(a);
    let y = components(b);
    is_rooted(a) == is_rooted(b) && same_texts(&x, &y)
}

/// The last component of a path, unless it is `.` or `..`.
pub fn file_name(path: &str) -> (r: Option<String>)
    ensures
        opt_text(r) == name_of(path@),
{
    let cs = components(path);
    if cs.len() == 0 {
        assert(texts(cs@).len() == 0);
        return None;
    }
    let last = cs[cs.len() - 1].as_str();
    assert(texts(cs@).last() == last@);
    if str_eq(last, ".") || str_eq(last, "..") {
        None
    } else {
        Some(last.to_owned())
    }
}

/// Where the last dot of `cs` stands.
fn find_last_dot(cs: &Vec<char>) -> (r: Option<usize>)
    ensures
        match r {
            Some(k) => last_dot(cs@) == k && k < cs@.len(),
            None => last_dot(cs@) == -1,
        },
{
    let mut n: usize = cs.len();
    assert(cs@.take(n as int) =~= cs@);
    while n > 0
        invariant
            n <= cs@.len(),
            last_dot(cs@) == last_dot(cs@.take(n as int)),
        decreases n,
    {
        assert(cs@.take(n as int).last() == cs@[n - 1]);
        if cs[n - 1] == '.' {
            return Some(n - 1);
        }
        assert(cs@.take(n as int).drop_last() =~= cs@.take(n - 1));
        n -= 1;
    }
    None
}

/// What stands before the last dot of the path's name.
pub fn file_stem(path: &str) -> (r: Option<String>)
    ensures
        opt_text(r) == stem_of(path@),
{
    match file_name(path) {
        Some(name) => {
            let cs = chars_of(name.as_str());
            match find_last_dot(&cs) {
                Some(k) => if k > 0 {
                    let stem = string_of(&cs, 0, k);
                    assert(stem@ =~= name@.take(k as int));
                    Some(stem)
                } else {
                    Some(name)
                },
                None => Some(name),
            }
        },
        None => None,
    }
}

/// What follows the last dot of the path's name.
pub fn extension(path: &str) -> (r: Option<String>)
    ensures
        opt_text(r) == extension_of(path@),
{
    match file_name(path) {
        Some(name) => {
            let cs = chars_of(name.as_str());
            let n: usize = cs.len();
            match find_last_dot(&cs) {
                Some(k) => if k > 0 {
                    let ext = string_of(&cs, k + 1, n);
                    assert(ext@ =~= name@.skip(k + 1));
                    Some(ext)
                } else {
                    None
                },
                None => None,
            }
        },
        None => None,
    }
}

/// `name` as a path below `root`; a `name` that begins at the root stands for itself.
pub open spec fn below(root: Seq<char>, name: Seq<char>) -> Seq<char> {
    if rooted(name) {
        name
    } else if root.len() == 0 || root.last() == '/' {
        root + name
    } else {
        root + "/"@ + name
    }
}

/// `name` as a path below `root`.
pub fn join_path(root: &str, name: &str) -> (r: String)
    ensures
        r@ == below(root@, name@),
{
    if is_rooted(name) {
        return name.to_owned();
    }
    let n = root.unicode_len();
    let mut out = root.to_owned();
    if n > 0 && root.get_char(n - 1) != '/' {
        out.append("/");
    }
    out.append(name);
    out
}

/// A path's name, stem and extension are those of its last component, whatever directories
/// come before it.
pub proof fn law_name_is_last_component(dir: Seq<char>, stem: Seq<char>, ext: Seq<char>)
    requires
        stem.len() > 0,
        forall|i: int| 0 <= i < stem.len() ==> #[trigger] stem[i] != '/',
        forall|i: int| 0 <= i < ext.len() ==> #[trigger] ext[i] != '/' && ext[i] != '.',
        ext.len() > 0,
    ensures
        ({
            let path = dir + seq!['/'] + (stem + seq!['.'] + ext);
            &&& name_of(path) == Some(stem + seq!['.'] + ext)
            &&& stem_of(path) == Some(stem)
            &&& extension_of(path) == Some(ext)
        }),
{
    let name = stem + seq!['.'] + ext;
    let path = dir + seq!['/'] + name;
    let slash = CharClass::Only('/');
    reveal_strlit(".");
    reveal_strlit("..");
    assert forall|i: int| 0 <= i < name.len() implies !slash.has(#[trigger] name[i]) by {
        if i < stem.len() {
            assert(name[i] == stem[i]);
        } else if i > stem.len() {
            assert(name[i] == ext[i - stem.len() - 1]);
        }
    }
    crate::split::lemma_first_of_is(name, slash, name.len() as int);
    assert(pieces(name, slash) =~= seq![name]);
    crate::split::lemma_pieces_around(dir, '/', name, slash);
    assert(dir.push('/') + name =~= path);
    let ps = pieces(path, slash);
    assert(ps == pieces(dir, slash) + seq![name]);
    assert(ps.last() == name);
    assert(name.last() == ext.last());
    assert(ext[ext.len() - 1] != '.');
    assert(name != "."@ && name != ".."@) by {
        assert("."@.last() == '.' && ".."@.last() == '.');
    }
    assert(components_of(path) == kept(ps.drop_last()).push(name));
    assert(components_of(path).last() == name);
    lemma_last_dot(name, stem.len() as int);
    assert(name.take(stem.len() as int) =~= stem);
    assert(name.skip(stem.len() as int + 1) =~= ext);
}

/// Where the last dot is.
proof fn lemma_last_dot(s: Seq<char>, k: int)
    requires
        0 <= k < s.len(),
        s[k] == '.',
        forall|i: int| k < i < s.len() ==> #[trigger] s[i] != '.',
    ensures
        last_dot(s) == k,
    decreases s.len(),
{
    if k < s.len() - 1 {
        assert(s[s.len() - 1] != '.');
        let t = s.drop_last();
        assert forall|i: int| k < i < t.len() implies #[trigger] t[i] != '.' by {
            assert(s[i] != '.');
        }
        lemma_last_dot(t, k);
    }
}

/// Two texts write the same path where they begin alike at the root and have the same
/// components; every path is the same as itself, and sameness goes both ways.
pub proof fn law_same_path_is_an_equality(a: Seq<char>, b: Seq<char>, c: Seq<char>)
    ensures
        same(a, a),
        same(a, b) ==> same(b, a),
        same(a, b) && same(b, c) ==> same(a, c),
        same(a, b) ==> name_of(a) == name_of(b) && stem_of(a) == stem_of(b) && extension_of(a)
            == extension_of(b),
{
}

/// A name below a directory stands behind a slash, which is not written twice; one that
/// begins at the root stands for itself.
pub proof fn law_names_are_put_below(root: Seq<char>, name: Seq<char>)
    ensures
        name.len() > 0 && name[0] == '/' ==> below(root, name) == name,
        !(name.len() > 0 && name[0] == '/') && root.len() > 0 && root.last() != '/' ==> below(
            root,
            name,
        ) == root + seq!['/'] + name,
        !(name.len() > 0 && name[0] == '/') && root.len() > 0 && root.last() == '/' ==> below(
            root,
            name,
        ) == root + name,
{
    reveal_strlit("/");
    assert("/"@ =~= seq!['/']);
}

} // verus!
