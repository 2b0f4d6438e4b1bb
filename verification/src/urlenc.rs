//! URL encoding of text, and the form data and query strings made with it.
use crate::bytes::{from_utf8, text_of_bytes};
use crate::digits::{hex_digit, hex_upper, hex_upper_digit, hex_value};
use crate::params::{map_of, pairs_view, Params};
use crate::split::{
    around_first, join, joined, lemma_pieces_of_joined, lemma_texts_push, pieces, split, split_once, texts,
};
use crate::text::{first_at, lemma_first_at, occurs_at, CharClass};
use vstd::prelude::*;
use vstd::string::*;
use vstd::utf8::*;

verus! {

/// The byte that the two bytes after a percent sign write. A plus sign may
/// stand in the place of the first digit.
pub open spec fn escape_value(a: u8, b: u8) -> Option<u8> {
    match (hex_value(a), hex_value(b)) {
        (Some(x), Some(y)) => Some((16 * x + y) as u8),
        (None, Some(y)) => if a == 43 {
            Some(y as u8)
        } else {
            None
        },
        _ => None,
    }
}

/// The bytes that URL encoded bytes stand for: a plus sign for a space, a
/// percent sign and two digits for the byte that they write, where two bytes
/// follow it, and every other byte for itself.
pub open spec fn decoded(b: Seq<u8>) -> Option<Seq<u8>>
    decreases b.len(),
{
    if b.len() == 0 {
        Some(Seq::empty())
    } else if b[0] == 43 {
        after_byte(32, decoded(b.skip(1)))
    } else if b[0] == 37 && b.len() > 2 {
        match escape_value(b[1], b[2]) {
            Some(v) => after_byte(v, decoded(b.skip(3))),
            None => None,
        }
    } else {
        after_byte(b[0], decoded(b.skip(1)))
    }
}

/// A byte before others, where there are others.
pub open spec fn after_byte(v: u8, rest: Option<Seq<u8>>) -> Option<Seq<u8>> {
    match rest {
        Some(r) => Some(seq![v] + r),
        None => None,
    }
}

/// The text that a URL encoded text stands for.
pub open spec fn url_decoded(s: Seq<char>) -> Option<Seq<char>> {
    match decoded(encode_utf8(s)) {
        Some(b) => text_of_bytes(b),
        None => None,
    }
}

/// The byte that the two bytes after a percent sign write.
fn read_escape(a: u8, b: u8) -> (r: Option<u8>)
    ensures
        r == escape_value(a, b),
{
    match (hex_digit(a), hex_digit(b)) {
        (Some(x), Some(y)) => Some(16 * x + y),
        (None, Some(y)) => if a == 43 {
            Some(y)
        } else {
            None
        },
        _ => None,
    }
}

/// Bytes before others, where there are others.
spec fn before_rest(done: Seq<u8>, rest: Option<Seq<u8>>) -> Option<Seq<u8>> {
    match rest {
        Some(r) => Some(done + r),
        None => None,
    }
}

/// Moving the first byte of what follows to the end of what comes before.
proof fn lemma_before_rest(done: Seq<u8>, v: u8, rest: Option<Seq<u8>>)
    ensures
        before_rest(done, after_byte(v, rest)) == before_rest(done.push(v), rest),
{
    if let Some(r) = rest {
        assert(done + (seq![v] + r) =~= done.push(v) + r);
    }
}

/// The text that a URL encoded text stands for; an error where an escape is
/// malformed or the bytes are no UTF-8.
pub fn urlencoding_decode(s: &str) -> (r: Result<String, ()>)
    ensures
        match r {
            Ok(t) => url_decoded(s@) == Some(t@),
            Err(_) => url_decoded(s@) is None,
        },
{
    let bytes = s.as_bytes();
    let mut out: Vec<u8> = Vec::new();
    let mut i: usize = 0;
    proof {
        assert(bytes@.skip(0) =~= bytes@);
        if let Some(d) = decoded(bytes@) {
            assert(out@ + d =~= d);
        }
    }
    while i < bytes.len()
        invariant
            bytes@ == encode_utf8(s@),
            i <= bytes@.len(),
            before_rest(out@, decoded(bytes@.skip(i as int))) == decoded(bytes@),
        decreases bytes.len() - i,
    {
        let ghost rest = bytes@.skip(i as int);
        let ghost done = out@;
        let b = bytes[i];
        assert(b == rest[0]);
        if b == 43 {
            out.push(32);
            proof {
                assert(rest.skip(1) =~= bytes@.skip(i + 1));
                lemma_before_rest(done, 32, decoded(rest.skip(1)));
            }
            i += 1;
        } else if b == 37 && bytes.len() - i > 2 {
            assert(bytes@[i + 1] == rest[1] && bytes@[i + 2] == rest[2]);
            match read_escape(bytes[i + 1], bytes[i + 2]) {
                Some(v) => {
                    out.push(v);
                    proof {
                        assert(rest.skip(3) =~= bytes@.skip(i + 3));
                        lemma_before_rest(done, v, decoded(rest.skip(3)));
                    }
                    i += 3;
                },
                None => return Err(()),
            }
        } else {
            out.push(b);
            proof {
                assert(rest.skip(1) =~= bytes@.skip(i + 1));
                lemma_before_rest(done, b, decoded(rest.skip(1)));
            }
            i += 1;
        }
    }
    assert(out@ + Seq::<u8>::empty() =~= out@);
    match from_utf8(out) {
        Some(t) => Ok(t),
        None => Err(()),
    }
}

/// Does a byte stand for itself in URL encoded text?
pub open spec fn is_plain(b: u8) -> bool {
    ||| 65 <= b <= 90
    ||| 97 <= b <= 122
    ||| 48 <= b <= 57
    ||| b == 45
    ||| b == 95
    ||| b == 46
    ||| b == 126
}

/// A byte in URL encoded text.
pub open spec fn encoded_byte(b: u8) -> Seq<char> {
    if is_plain(b) {
        seq![b as char]
    } else if b == 32 {
        seq!['+']
    } else {
        seq!['%', hex_upper(b as int / 16), hex_upper(b as int % 16)]
    }
}

/// Bytes in URL encoded text.
pub open spec fn encoded_bytes(b: Seq<u8>) -> Seq<char>
    decreases b.len(),
{
    if b.len() == 0 {
        Seq::empty()
    } else {
        encoded_bytes(b.drop_last()) + encoded_byte(b.last())
    }
}

/// A text in URL encoding.
pub open spec fn url_encoded(s: Seq<char>) -> Seq<char> {
    encoded_bytes(encode_utf8(s))
}

/// A text in URL encoding: letters, digits, `-`, `_`, `.` and `~` stand for
/// themselves, a space is written as a plus sign, and every other byte as a
/// percent sign and two digits.
pub fn urlencoding_encode(s: &str) -> (r: String)
    ensures
        r@ == url_encoded(s@),
{
    let bytes = s.as_bytes();
    let mut out = String::new();
    let mut i: usize = 0;
    while i < bytes.len()
        invariant
            bytes@ == encode_utf8(s@),
            i <= bytes@.len(),
            out@ == encoded_bytes(bytes@.take(i as int)),
        decreases bytes.len() - i,
    {
        let b = bytes[i];
        proof {
            assert(bytes@.take(i + 1).drop_last() =~= bytes@.take(i as int));
            assert(bytes@.take(i + 1).last() == b);
        }
        let ghost before = out@;
        if (65 <= b && b <= 90) || (97 <= b && b <= 122) || (48 <= b && b <= 57) || b == 45 || b
            == 95 || b == 46 || b == 126 {
            out.push(b as char);
            assert(out@ =~= before + encoded_byte(b));
        } else if b == 32 {
            out.push('+');
            assert(out@ =~= before + encoded_byte(b));
        } else {
            out.push('%');
            out.push(hex_upper_digit(b / 16));
            out.push(hex_upper_digit(b % 16));
            assert(out@ =~= before + encoded_byte(b));
        }
        i += 1;
    }
    assert(bytes@.take(i as int) =~= bytes@);
    out
}

/// The key and the value that one part of a query string writes. A part
/// without an equals sign is a key with an empty value; a part with an empty
/// key, or that cannot be decoded, writes nothing.
pub open spec fn pair_of(part: Seq<char>) -> Option<(Seq<char>, Seq<char>)> {
    let (k, v) = match around_first(part, "="@) {
        Some(kv) => kv,
        None => (part, ""@),
    };
    match (url_decoded(k), url_decoded(v)) {
        (Some(key), Some(value)) => if part.len() > 0 && key.len() > 0 {
            Some((key, value))
        } else {
            None
        },
        _ => None,
    }
}

/// The pairs that the parts of a query string write.
pub open spec fn pairs_of(parts: Seq<Seq<char>>) -> Seq<(Seq<char>, Seq<char>)>
    decreases parts.len(),
{
    if parts.len() == 0 {
        Seq::empty()
    } else {
        let before = pairs_of(parts.drop_last());
        match pair_of(parts.last()) {
            Some(p) => before.push(p),
            None => before,
        }
    }
}

/// The parameters that a query string writes.
pub open spec fn params_of(query: Seq<char>) -> Map<Seq<char>, Seq<char>> {
    map_of(pairs_of(pieces(query, CharClass::Only('&'))))
}

/// The key and the value that one part of a query string writes.
fn read_pair(part: &str) -> (r: Option<(String, String)>)
    ensures
        match r {
            Some((k, v)) => pair_of(part@) == Some((k@, v@)),
            None => pair_of(part@) is None,
        },
{
    if crate::text::is_empty(part) {
        return None;
    }
    let (k, v) = match split_once(part, "=") {
        Some(kv) => kv,
        None => (part.to_owned(), "".to_owned()),
    };
    match (urlencoding_decode(k.as_str()), urlencoding_decode(v.as_str())) {
        (Ok(key), Ok(value)) => if crate::text::is_empty(key.as_str()) {
            None
        } else {
            Some((key, value))
        },
        _ => None,
    }
}

/// The parameters that a query string writes.
pub fn query_params(query: &str) -> (r: Params)
    ensures
        r@ == params_of(query@),
{
    let parts = split(query, CharClass::Only('&'));
    let mut out = Params::new();
    let mut i: usize = 0;
    let ghost all = texts(parts@);
    while i < parts.len()
        invariant
            i <= parts@.len(),
            all == texts(parts@),
            out@ == map_of(pairs_of(all.take(i as int))),
        decreases parts.len() - i,
    {
        let ghost before = pairs_of(all.take(i as int));
        proof {
            assert(all.take(i + 1).drop_last() =~= all.take(i as int));
            assert(all.take(i + 1).last() == parts@[i as int]@);
        }
        match read_pair(parts[i].as_str()) {
            Some((k, v)) => {
                assert(before.push((k@, v@)).drop_last() =~= before);
                out.insert(k, v);
            },
            None => {},
        }
        i += 1;
    }
    assert(all.take(i as int) =~= all);
    out
}

/// The parameters that form data writes.
pub fn form_params(body: &str) -> (r: Params)
    ensures
        r@ == params_of(body@),
{
    query_params(body)
}

/// A key and a value as one part of form data.
pub open spec fn encoded_pair(p: (Seq<char>, Seq<char>)) -> Seq<char> {
    url_encoded(p.0) + "="@ + url_encoded(p.1)
}

/// Each pair of a list as one part of form data.
pub open spec fn encoded_pairs(pairs: Seq<(Seq<char>, Seq<char>)>) -> Seq<Seq<char>> {
    pairs.map_values(|p: (Seq<char>, Seq<char>)| encoded_pair(p))
}

/// Pairs as form data.
pub open spec fn form_encoded(pairs: Seq<(Seq<char>, Seq<char>)>) -> Seq<char> {
    joined(encoded_pairs(pairs), "&"@)
}

/// Pairs as form data.
pub fn encode_form(pairs: &Vec<(String, String)>) -> (r: String)
    ensures
        r@ == form_encoded(pairs_view(pairs@)),
{
    broadcast use lemma_texts_push;

    let mut parts: Vec<String> = Vec::new();
    let mut i: usize = 0;
    let ghost all = encoded_pairs(pairs_view(pairs@));
    assert(texts(parts@) =~= all.take(0));
    while i < pairs.len()
        invariant
            i <= pairs@.len(),
            all == encoded_pairs(pairs_view(pairs@)),
            texts(parts@) == all.take(i as int),
        decreases pairs.len() - i,
    {
        let k = urlencoding_encode(pairs[i].0.as_str());
        let v = urlencoding_encode(pairs[i].1.as_str());
        let part = crate::text::concat3(k.as_str(), "=", v.as_str());
        assert(part@ == all[i as int]);
        parts.push(part);
        assert(all.take(i + 1) =~= all.take(i as int).push(part@));
        i += 1;
    }
    assert(all.take(i as int) =~= all);
    join(&parts, "&")
}

/// May `c` stand in URL encoded text?
pub open spec fn is_encoded_char(c: char) -> bool {
    ||| 'A' <= c <= 'Z'
    ||| 'a' <= c <= 'z'
    ||| '0' <= c <= '9'
    ||| c == '-'
    ||| c == '_'
    ||| c == '.'
    ||| c == '~'
    ||| c == '+'
    ||| c == '%'
}

/// URL encoded text holds only letters, digits and `-_.~+%`.
pub proof fn law_encoded_chars(b: Seq<u8>)
    ensures
        forall|i: int|
            0 <= i < encoded_bytes(b).len() ==> is_encoded_char(#[trigger] encoded_bytes(b)[i]),
    decreases b.len(),
{
    if b.len() > 0 {
        let before = encoded_bytes(b.drop_last());
        law_encoded_chars(b.drop_last());
        let all = encoded_bytes(b);
        assert forall|i: int| 0 <= i < all.len() implies is_encoded_char(#[trigger] all[i]) by {
            if i < before.len() {
                assert(all[i] == before[i]);
            } else {
                assert(all[i] == encoded_byte(b.last())[i - before.len()]);
            }
        }
    }
}

/// The characters of `s` as bytes.
spec fn ascii_bytes(s: Seq<char>) -> Seq<u8> {
    Seq::new(s.len(), |i: int| s[i] as u8)
}

/// What one encoded byte stands for.
proof fn lemma_decode_byte(b: u8, rest: Seq<u8>)
    ensures
        decoded(ascii_bytes(encoded_byte(b)) + rest) == after_byte(b, decoded(rest)),
{
    let e = ascii_bytes(encoded_byte(b));
    let all = e + rest;
    if is_plain(b) || b == 32 {
        assert(all.skip(1) =~= rest);
        assert(all[0] == e[0]);
    } else {
        assert(all.skip(3) =~= rest);
        assert(all[0] == 37 && all[1] == e[1] && all[2] == e[2]);
        let x = b as int / 16;
        let y = b as int % 16;
        assert(hex_value(hex_upper(x) as u8) == Some(x));
        assert(hex_value(hex_upper(y) as u8) == Some(y));
        assert(16 * x + y == b);
    }
}

/// What encoded bytes stand for, whatever follows them.
proof fn lemma_decode_bytes(b: Seq<u8>, rest: Seq<u8>)
    ensures
        decoded(ascii_bytes(encoded_bytes(b)) + rest) == before_rest(b, decoded(rest)),
    decreases b.len(),
{
    if b.len() == 0 {
        assert(ascii_bytes(encoded_bytes(b)) + rest =~= rest);
        if let Some(r) = decoded(rest) {
            assert(b + r =~= r);
        }
    } else {
        let tail = ascii_bytes(encoded_byte(b.last())) + rest;
        assert(ascii_bytes(encoded_bytes(b)) + rest =~= ascii_bytes(encoded_bytes(b.drop_last()))
            + tail);
        lemma_decode_bytes(b.drop_last(), tail);
        lemma_decode_byte(b.last(), rest);
        lemma_before_rest(b.drop_last(), b.last(), decoded(rest));
        assert(b.drop_last().push(b.last()) =~= b);
    }
}

/// Decoding an encoded text gives the text back.
pub proof fn law_decode_undoes_encode(s: Seq<char>)
    ensures
        url_decoded(url_encoded(s)) == Some(s),
{
    let b = encode_utf8(s);
    let e = encoded_bytes(b);
    law_encoded_chars(b);
    assert(is_ascii_chars(e)) by {
        assert forall|i: int| 0 <= i < e.len() implies '\0' <= #[trigger] e[i] <= '\u{7f}' by {
            assert(is_encoded_char(e[i]));
        }
    }
    is_ascii_chars_encode_utf8(e);
    assert(encode_utf8(e) =~= ascii_bytes(e));
    lemma_decode_bytes(b, Seq::empty());
    assert(ascii_bytes(e) + Seq::<u8>::empty() =~= ascii_bytes(e));
    assert(b + Seq::<u8>::empty() =~= b);
    encode_utf8_valid_utf8(s);
    encode_utf8_decode_utf8(s);
}

/// An encoded pair writes the pair.
proof fn lemma_pair_reads_back(p: (Seq<char>, Seq<char>))
    requires
        p.0.len() > 0,
    ensures
        pair_of(encoded_pair(p)) == Some(p),
{
    let k = url_encoded(p.0);
    let v = url_encoded(p.1);
    let part = encoded_pair(p);
    reveal_strlit("=");
    law_encoded_chars(encode_utf8(p.0));
    lemma_first_at(part, "="@, 0);
    assert(part.subrange(k.len() as int, k.len() as int + 1) =~= "="@);
    assert(occurs_at(part, "="@, k.len() as int));
    let n = first_at(part, "="@, 0)->0;
    if n < k.len() {
        assert(part.subrange(n, n + 1)[0] == k[n]);
        assert(is_encoded_char(k[n]));
    }
    assert(part.take(n) =~= k);
    assert(part.skip(n + 1) =~= v);
    law_decode_undoes_encode(p.0);
    law_decode_undoes_encode(p.1);
}

/// Encoded pairs write the pairs.
proof fn lemma_pairs_read_back(pairs: Seq<(Seq<char>, Seq<char>)>)
    requires
        forall|i: int| 0 <= i < pairs.len() ==> (#[trigger] pairs[i]).0.len() > 0,
    ensures
        pairs_of(encoded_pairs(pairs)) == pairs,
    decreases pairs.len(),
{
    if pairs.len() > 0 {
        assert(encoded_pairs(pairs).drop_last() =~= encoded_pairs(pairs.drop_last()));
        lemma_pairs_read_back(pairs.drop_last());
        assert(pairs[pairs.len() - 1].0.len() > 0);
        lemma_pair_reads_back(pairs.last());
        assert(pairs.drop_last().push(pairs.last()) =~= pairs);
    } else {
        assert(pairs_of(encoded_pairs(pairs)) =~= pairs);
    }
}

/// An encoded pair holds no ampersand.
proof fn lemma_pair_is_one_piece(p: (Seq<char>, Seq<char>))
    ensures
        forall|i: int| 0 <= i < encoded_pair(p).len() ==> #[trigger] encoded_pair(p)[i] != '&',
{
    let k = url_encoded(p.0);
    let part = encoded_pair(p);
    reveal_strlit("=");
    law_encoded_chars(encode_utf8(p.0));
    law_encoded_chars(encode_utf8(p.1));
    assert forall|i: int| 0 <= i < part.len() implies #[trigger] part[i] != '&' by {
        if i < k.len() {
            assert(is_encoded_char(k[i]));
        } else if i > k.len() {
            assert(is_encoded_char(url_encoded(p.1)[i - k.len() - 1]));
        }
    }
}

/// Form data gives back the pairs that it was made from; of two pairs with one
/// key the later counts.
pub proof fn law_form_reads_back(pairs: Seq<(Seq<char>, Seq<char>)>)
    requires
        forall|i: int| 0 <= i < pairs.len() ==> (#[trigger] pairs[i]).0.len() > 0,
    ensures
        params_of(form_encoded(pairs)) == map_of(pairs),
{
    let parts = encoded_pairs(pairs);
    reveal_strlit("&");
    lemma_pairs_read_back(pairs);
    if pairs.len() == 0 {
        let q = form_encoded(pairs);
        assert(q =~= Seq::<char>::empty());
        assert(pieces(q, CharClass::Only('&')) =~= seq![q]);
        assert(seq![q].drop_last() =~= Seq::<Seq<char>>::empty());
        assert(pair_of(q) is None);
        assert(pairs_of(seq![q].drop_last()) =~= pairs);
    } else {
        assert forall|i: int, j: int|
            0 <= i < parts.len() && 0 <= j < parts[i].len() implies #[trigger] parts[i][j]
            != '&' by {
            lemma_pair_is_one_piece(pairs[i]);
            assert(parts[i] == encoded_pair(pairs[i]));
        }
        assert("&"@ =~= seq!['&']);
        lemma_pieces_of_joined(parts, '&', "&"@);
    }
}

/// Form data holds no white space.
pub proof fn law_form_has_no_white_space(pairs: Seq<(Seq<char>, Seq<char>)>)
    ensures
        forall|i: int| 0 <= i < form_encoded(pairs).len() ==> !crate::text::is_ws(
            #[trigger] form_encoded(pairs)[i],
        ),
    decreases pairs.len(),
{
    reveal_strlit("&");
    reveal_strlit("=");
    if pairs.len() > 0 {
        let t = pairs.drop_last();
        law_form_has_no_white_space(t);
        let p = pairs.last();
        let k = url_encoded(p.0);
        let v = url_encoded(p.1);
        law_encoded_chars(encode_utf8(p.0));
        law_encoded_chars(encode_utf8(p.1));
        let last = encoded_pair(p);
        assert forall|i: int| 0 <= i < last.len() implies !crate::text::is_ws(#[trigger] last[i]) by {
            if i < k.len() {
                assert(is_encoded_char(k[i]));
            } else if i > k.len() {
                assert(is_encoded_char(v[i - k.len() - 1]));
            }
        }
        let all = encoded_pairs(pairs);
        assert(all.drop_last() =~= encoded_pairs(t));
        assert(all.last() == last);
        let q = form_encoded(pairs);
        if pairs.len() == 1 {
            assert(q == last);
        } else {
            let x = form_encoded(t);
            assert(q == x + "&"@ + last);
            assert forall|i: int| 0 <= i < q.len() implies !crate::text::is_ws(#[trigger] q[i]) by {
                if i < x.len() {
                    assert(q[i] == x[i]);
                } else if i > x.len() {
                    assert(q[i] == last[i - x.len() - 1]);
                }
            }
        }
    }
}

} // verus!
