//! The page URL: the share-link payload carried by its query string
//! (`?data=...`), the URLs the viewer writes, and the first command the
//! viewer dispatches.

use vstd::prelude::*;
use crate::state::Command;
use crate::text::{chars_of, push_char, push_str, starts_with_chars, starts_with_seq, string_of};

verus! {

/// The query string without its leading `?`.
pub open spec fn query_body(search: Seq<char>) -> Seq<char> {
    if search.len() > 0 && search[0] == '?' {
        search.drop_first()
    } else {
        search
    }
}

/// The `&`-separated pieces of a query string, left to right (one empty
/// piece for an empty string).
pub open spec fn query_pieces(q: Seq<char>) -> Seq<Seq<char>>
    decreases q.len(),
{
    if q.len() == 0 {
        seq![Seq::empty()]
    } else {
        let p = query_pieces(q.drop_last());
        if q.last() == '&' {
            p.push(Seq::empty())
        } else {
            p.update(p.len() - 1, p.last().push(q.last()))
        }
    }
}

/// The values of the pieces that start with `data=`, in order.
pub open spec fn data_values(pieces: Seq<Seq<char>>) -> Seq<Seq<char>>
    decreases pieces.len(),
{
    if pieces.len() == 0 {
        Seq::empty()
    } else {
        let rest = data_values(pieces.drop_last());
        let p = pieces.last();
        if starts_with_seq(p, "data="@) {
            rest.push(p.subrange(5, p.len() as int))
        } else {
            rest
        }
    }
}

proof fn lemma_pieces_nonempty(q: Seq<char>)
    ensures
        query_pieces(q).len() >= 1,
    decreases q.len(),
{
    if q.len() > 0 {
        lemma_pieces_nonempty(q.drop_last());
    }
}

/// The characters of `cs` from index `from` on.
fn tail_string(cs: &Vec<char>, from: usize) -> (s: String)
    requires
        from <= cs@.len(),
    ensures
        s@ == cs@.subrange(from as int, cs@.len() as int),
{
    let mut s = String::new();
    let mut i: usize = from;
    while i < cs.len()
        invariant
            from <= i <= cs@.len(),
            s@ == cs@.subrange(from as int, i as int),
        decreases cs@.len() - i,
    {
        push_char(&mut s, cs[i]);
        i = i + 1;
        assert(s@ =~= cs@.subrange(from as int, i as int));
    }
    s
}

/// The values of the `data` parameters of a page URL's query string
/// (`location.search`), in the order they appear, still URI-encoded.
pub fn data_param_values(search: &str) -> (r: Vec<String>)
    ensures
        r@.len() == data_values(query_pieces(query_body(search@))).len(),
        forall|i: int| 0 <= i < r@.len() ==> #[trigger] r@[i]@ == data_values(query_pieces(query_body(search@)))[i],
{
    let cs = chars_of(search);
    let key = chars_of("data=");
    proof {
        reveal_strlit("data=");
    }
    let start: usize = if cs.len() > 0 && cs[0] == '?' { 1 } else { 0 };
    let ghost body = query_body(search@);
    assert(body =~= cs@.subrange(start as int, cs@.len() as int));
    let mut r: Vec<String> = Vec::new();
    let mut cur: Vec<char> = Vec::new();
    let mut i: usize = start;
    while i < cs.len()
        invariant
            cs@ == search@,
            key@ == "data="@,
            key@.len() == 5,
            start <= i <= cs@.len(),
            body == cs@.subrange(start as int, cs@.len() as int),
            query_pieces(body.take(i - start)).len() >= 1,
            query_pieces(body.take(i - start)).last() == cur@,
            r@.len() == data_values(query_pieces(body.take(i - start)).drop_last()).len(),
            forall|k: int| 0 <= k < r@.len() ==> #[trigger] r@[k]@ == data_values(query_pieces(body.take(i - start)).drop_last())[k],
        decreases cs@.len() - i,
    {
        let ghost pre = body.take(i - start);
        let ghost p = query_pieces(pre);
        let c = cs[i];
        assert(body.take(i + 1 - start).drop_last() =~= pre);
        assert(body.take(i + 1 - start).last() == c);
        proof {
            lemma_pieces_nonempty(pre);
        }
        if c == '&' {
            assert(query_pieces(body.take(i + 1 - start)).drop_last() =~= p);
            if starts_with_chars(cur.as_slice(), key.as_slice()) {
                r.push(tail_string(&cur, 5));
            }
            cur = Vec::new();
        } else {
            assert(query_pieces(body.take(i + 1 - start)).drop_last() =~= p.drop_last());
            cur.push(c);
        }
        i = i + 1;
    }
    assert(body.take(i - start) =~= body);
    proof {
        lemma_pieces_nonempty(body);
        let p = query_pieces(body);
        assert(p =~= p.drop_last().push(p.last()));
    }
    if starts_with_chars(cur.as_slice(), key.as_slice()) {
        r.push(tail_string(&cur, 5));
    }
    r
}

/// The first of the decoded values that is present and not empty.
pub open spec fn first_nonempty(vals: Seq<Option<String>>) -> Option<String>
    decreases vals.len(),
{
    if vals.len() == 0 {
        None
    } else if vals[0] matches Some(v) && v@.len() > 0 {
        vals[0]
    } else {
        first_nonempty(vals.drop_first())
    }
}

/// The share-link payload among the decoded `data` values: the first one
/// that decoded and is not empty.
pub fn pick_permalink(decoded: Vec<Option<String>>) -> (r: Option<String>)
    ensures
        r == first_nonempty(decoded@),
{
    let mut i: usize = 0;
    assert(decoded@.subrange(0, decoded@.len() as int) =~= decoded@);
    while i < decoded.len()
        invariant
            i <= decoded@.len(),
            first_nonempty(decoded@) == first_nonempty(decoded@.subrange(i as int, decoded@.len() as int)),
        decreases decoded@.len() - i,
    {
        let ghost rest = decoded@.subrange(i as int, decoded@.len() as int);
        assert(rest.drop_first() =~= decoded@.subrange(i + 1, decoded@.len() as int));
        if let Some(v) = &decoded[i] {
            if !v.as_str().is_empty() {
                return Some(v.clone());
            }
        }
        i = i + 1;
    }
    None
}

/// The share link put on the clipboard: the page's origin and path with the
/// URI-encoded payload as its `data` parameter.
pub fn share_url(origin: &str, pathname: &str, encoded: &str) -> (s: String)
    ensures
        s@ == origin@ + pathname@ + "?data="@ + encoded@,
{
    let mut s = string_of(origin);
    push_str(&mut s, pathname);
    push_str(&mut s, "?data=");
    push_str(&mut s, encoded);
    s
}

/// The page URL after setting query parameter `key` to a URI-encoded value.
pub fn query_url(pathname: &str, key: &str, encoded: &str) -> (s: String)
    ensures
        s@ == pathname@ + "?"@ + key@ + "="@ + encoded@,
{
    let mut s = string_of(pathname);
    push_str(&mut s, "?");
    push_str(&mut s, key);
    push_str(&mut s, "=");
    push_str(&mut s, encoded);
    s
}

/// The first command of the viewer: load the share link when one is given
/// and not empty, else compile and encode the first example.
pub fn startup_command(permalink_data: Option<String>) -> (c: Command)
    ensures
        c == (match permalink_data {
            Some(d) => if d@.len() > 0 { Command::LoadFromPermalink(d) } else { Command::CompileAndEncode },
            None => Command::CompileAndEncode,
        }),
{
    match permalink_data {
        Some(d) => if d.as_str().is_empty() { Command::CompileAndEncode } else { Command::LoadFromPermalink(d) },
        None => Command::CompileAndEncode,
    }
}

} // verus!
