//! The per-request context and the query-string parser.

use vstd::prelude::*;
use vstd::utf8::{decode_utf8, valid_utf8};
use crate::jsonio::{json_wf, parse_json_value};
use crate::params::{ParamMap, assoc_set};
use crate::text::{find_char, split_seq, split_str};

verus! {

/// The value half of one `key=value` piece: everything after the first
/// `=`, or empty if there is none.
pub open spec fn query_pair_value(p: Seq<char>) -> Seq<char> {
    match find_char(p, '=') {
        None => Seq::empty(),
        Some(i) => p.skip(i + 1),
    }
}

/// The key half of one `key=value` piece: everything before the first `=`,
/// or the whole piece if there is none.
pub open spec fn query_pair_key(p: Seq<char>) -> Seq<char> {
    match find_char(p, '=') {
        None => p,
        Some(i) => p.take(i),
    }
}

/// The basic form decoding applied to query values: `+` becomes a space.
pub open spec fn decode_plus(v: Seq<char>) -> Seq<char> {
    v.map_values(
        |c: char|
            if c == '+' {
                ' '
            } else {
                c
            },
    )
}

/// One piece of the query string folded into the map: empty pieces are
/// skipped, later values for a key overwrite earlier ones.
pub open spec fn query_step(
    acc: Seq<(Seq<char>, Seq<char>)>,
    p: Seq<char>,
) -> Seq<(Seq<char>, Seq<char>)> {
    if p.len() == 0 {
        acc
    } else {
        assoc_set(acc, query_pair_key(p), decode_plus(query_pair_value(p)))
    }
}

/// All pieces folded left to right.
pub open spec fn spec_parse_query_pieces(pieces: Seq<Seq<char>>) -> Seq<(Seq<char>, Seq<char>)>
    decreases pieces.len(),
{
    if pieces.len() == 0 {
        Seq::empty()
    } else {
        query_step(spec_parse_query_pieces(pieces.drop_last()), pieces.last())
    }
}

/// What parsing a raw query string yields: split at `&`, each non-empty
/// piece split at its first `=`, `+` decoded to space in values, later
/// duplicates overwriting earlier ones.
pub open spec fn spec_parse_query(q: Seq<char>) -> Seq<(Seq<char>, Seq<char>)> {
    spec_parse_query_pieces(split_seq(q, '&'))
}

/// Replace every `+` with a space.
fn replace_plus(s: &str) -> (r: String)
    ensures
        r@ == decode_plus(s@),
{
    let n = s.unicode_len();
    let mut out = String::new();
    let mut i: usize = 0;
    while i < n
        invariant
            n == s@.len(),
            i <= n,
            out@ =~= decode_plus(s@.take(i as int)),
        decreases n - i,
    {
        if s.get_char(i) == '+' {
            out.append(" ");
            proof {
                reveal_strlit(" ");
            }
        } else {
            let piece = s.substring_char(i, i + 1);
            out.append(piece);
            proof {
                assert(piece@ =~= seq![s@[i as int]]);
            }
        }
        proof {
            assert(out@ =~= decode_plus(s@.take(i as int + 1)));
        }
        i += 1;
    }
    proof {
        assert(s@.take(n as int) =~= s@);
    }
    out
}

/// Parse a raw query string into a parameter map.
pub fn parse_query(query_string: &str) -> (r: ParamMap)
    ensures
        r.wf(),
        r@ == spec_parse_query(query_string@),
{
    let pieces = split_str(query_string, '&');
    let n = pieces.len();
    let ghost pieces_v = split_seq(query_string@, '&');
    let mut map = ParamMap::new();
    let mut i: usize = 0;
    while i < n
        invariant
            n == pieces@.len(),
            pieces_v == split_seq(query_string@, '&'),
            crate::text::views_of(pieces@) == pieces_v,
            pieces_v.len() == n,
            i <= n,
            map.wf(),
            map@ == spec_parse_query_pieces(pieces_v.take(i as int)),
        decreases n - i,
    {
        let piece = &pieces[i];
        let ghost pv = pieces_v[i as int];
        proof {
            assert(piece@ == pv);
            assert(pieces_v.take(i as int + 1).drop_last() =~= pieces_v.take(i as int));
            assert(pieces_v.take(i as int + 1).last() == pv);
        }
        let plen = piece.as_str().unicode_len();
        if plen > 0 {
            match crate::text::find_char_exec(piece.as_str(), '=') {
                None => {
                    proof {
                        assert(query_pair_key(pv) == pv);
                        assert(query_pair_value(pv) =~= Seq::<char>::empty());
                    }
                    let value = replace_plus("");
                    proof {
                        reveal_strlit("");
                        assert(value@ =~= decode_plus(query_pair_value(pv)));
                    }
                    map.insert(piece.clone(), value);
                }
                Some(j) => {
                    proof {
                        crate::text::lemma_find_char_props(pv, '=');
                    }
                    let key = String::from_str(piece.as_str().substring_char(0, j));
                    let raw_value = piece.as_str().substring_char(j + 1, plen);
                    let value = replace_plus(raw_value);
                    proof {
                        assert(key@ =~= query_pair_key(pv));
                        assert(raw_value@ =~= query_pair_value(pv));
                    }
                    map.insert(key, value);
                }
            }
        }
        i += 1;
    }
    proof {
        assert(pieces_v.take(n as int) =~= pieces_v);
    }
    map
}

/// Lookup in a pair sequence, comparing keys without regard to ASCII case:
/// the value of the first pair whose key matches.
pub open spec fn assoc_get_ci(s: Seq<(Seq<char>, Seq<char>)>, k: Seq<char>) -> Option<Seq<char>>
    decreases s.len(),
{
    if s.len() == 0 {
        None
    } else if crate::text::seq_eq_ci(s[0].0, k) {
        Some(s[0].1)
    } else {
        assoc_get_ci(s.drop_first(), k)
    }
}

/// The value of the first header whose name matches `name` without regard
/// to ASCII case.
pub fn header_get_ci<'a>(headers: &'a ParamMap, name: &str) -> (r: Option<&'a String>)
    ensures
        match r {
            Some(v) => assoc_get_ci(headers@, name@) == Some(v@),
            None => assoc_get_ci(headers@, name@) is None,
        },
{
    let n = headers.len();
    let mut i: usize = 0;
    while i < n
        invariant
            n == headers@.len(),
            i <= n,
            forall|j: int| 0 <= j < i ==> !crate::text::seq_eq_ci(headers@[j].0, name@),
        decreases n - i,
    {
        let (k, v) = headers.entry_at(i);
        if crate::text::eq_ignore_ascii_case(k.as_str(), name) {
            proof {
                lemma_assoc_get_ci_at(headers@, name@, i as int);
            }
            return Some(v);
        }
        i += 1;
    }
    proof {
        lemma_assoc_get_ci_none(headers@, name@);
    }
    None
}

proof fn lemma_assoc_get_ci_at(s: Seq<(Seq<char>, Seq<char>)>, k: Seq<char>, i: int)
    requires
        0 <= i < s.len(),
        crate::text::seq_eq_ci(s[i].0, k),
        forall|j: int| 0 <= j < i ==> !crate::text::seq_eq_ci(s[j].0, k),
    ensures
        assoc_get_ci(s, k) == Some(s[i].1),
    decreases i,
{
    if i > 0 {
        let t = s.drop_first();
        assert(crate::text::seq_eq_ci(t[i - 1].0, k));
        assert forall|j: int| 0 <= j < i - 1 implies !crate::text::seq_eq_ci(t[j].0, k) by {
            assert(t[j] == s[j + 1]);
        }
        lemma_assoc_get_ci_at(t, k, i - 1);
    }
}

proof fn lemma_assoc_get_ci_none(s: Seq<(Seq<char>, Seq<char>)>, k: Seq<char>)
    requires
        forall|j: int| 0 <= j < s.len() ==> !crate::text::seq_eq_ci(s[j].0, k),
    ensures
        assoc_get_ci(s, k) is None,
    decreases s.len(),
{
    if s.len() > 0 {
        let t = s.drop_first();
        assert forall|j: int| 0 <= j < t.len() implies !crate::text::seq_eq_ci(t[j].0, k) by {
            assert(t[j] == s[j + 1]);
        }
        lemma_assoc_get_ci_none(t, k);
    }
}

/// The request declares a JSON body: its `content-type` header (matched
/// without regard to case) mentions `application/json`.
pub open spec fn spec_is_json_content(headers: Seq<(Seq<char>, Seq<char>)>) -> bool {
    match assoc_get_ci(headers, "content-type"@) {
        Some(v) => crate::text::contains_seq(v, "application/json"@),
        None => false,
    }
}

pub fn is_json_content(headers: &ParamMap) -> (r: bool)
    ensures
        r == spec_is_json_content(headers@),
{
    match header_get_ci(headers, "content-type") {
        Some(v) => crate::text::contains_str(v.as_str(), "application/json"),
        None => false,
    }
}

/// The request carries a multipart form: its `content-type` header
/// mentions `multipart/form-data`.
pub open spec fn spec_is_multipart_content(headers: Seq<(Seq<char>, Seq<char>)>) -> bool {
    match assoc_get_ci(headers, "content-type"@) {
        Some(v) => crate::text::contains_seq(v, "multipart/form-data"@),
        None => false,
    }
}

pub fn is_multipart_content(headers: &ParamMap) -> (r: bool)
    ensures
        r == spec_is_multipart_content(headers@),
{
    match header_get_ci(headers, "content-type") {
        Some(v) => crate::text::contains_str(v.as_str(), "multipart/form-data"),
        None => false,
    }
}

/// The immutable per-request value handed to handlers and middleware:
/// method, path, header map, query and path parameters, and the raw body.
pub struct Request {
    pub method: String,
    pub path: String,
    pub headers: ParamMap,
    pub query_params: ParamMap,
    pub path_params: ParamMap,
    pub body: Vec<u8>,
}

/// Relies on String::from_utf8: succeeds exactly on valid UTF-8 and then
/// decodes the bytes; the error is carried as its message.
#[verifier::external_body]
pub(crate) fn utf8_to_string(bytes: &Vec<u8>) -> (r: Result<String, String>)
    ensures
        r is Ok <==> valid_utf8(bytes@),
        r is Ok ==> r.unwrap()@ == decode_utf8(bytes@),
{
    String::from_utf8(bytes.clone()).map_err(|e| e.to_string())
}

impl Request {
    pub fn new(
        method: String,
        path: String,
        headers_map: ParamMap,
        query_map: ParamMap,
        path_map: ParamMap,
        body: Vec<u8>,
    ) -> (r: Request)
        ensures
            r.method == method,
            r.path == path,
            r.headers == headers_map,
            r.query_params == query_map,
            r.path_params == path_map,
            r.body == body,
    {
        Request { method, path, headers: headers_map, query_params: query_map, path_params: path_map, body }
    }

    /// The body as text: succeeds exactly when the body is valid UTF-8.
    pub fn text(&self) -> (r: Result<String, String>)
        ensures
            r is Ok <==> valid_utf8(self.body@),
            r is Ok ==> r.unwrap()@ == decode_utf8(self.body@),
    {
        utf8_to_string(&self.body)
    }

    /// The body parsed as JSON: succeeds exactly when the body is a
    /// well-formed JSON document.
    pub fn json(&self) -> (r: Result<serde_json::Value, String>)
        ensures
            r is Ok <==> json_wf(self.body@),
    {
        parse_json_value(self.body.as_slice())
    }
}

} // verus!
