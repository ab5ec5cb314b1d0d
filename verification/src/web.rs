use vstd::prelude::*;
use crate::numeric::{
    all_decimal, decimal_digit_value, decimal_text, lemma_decimal_roundtrip, parse_decimal,
    parse_decimal_spec, push_decimal,
};
use crate::text::{
    append_str, chars_of, contains_str, find_char, first_index, has_infix, has_prefix,
    lemma_first_index, lemma_split_on_head, range_eq_str, split_on, starts_with_str,
    str_eq, strip_char, strip_char_str,
};
use crate::history::{from_day_spec, select_from_day, HexJsonEntry};
use vstd::string::StrSliceExecFns;

verus! {

broadcast use vstd::string::group_string_axioms;

// ---------------------------------------------------------------------------
// File types

/// The text after the last `sep` of `cs` (all of `cs` when there is none): what
/// `rsplit(sep).next()` gives.
pub open spec fn after_last(cs: Seq<char>, sep: char) -> Seq<char>
    decreases cs.len(),
{
    if cs.len() == 0 {
        cs
    } else if cs.last() == sep {
        Seq::empty()
    } else {
        after_last(cs.drop_last(), sep).push(cs.last())
    }
}

/// The content type served for a file extension.
pub open spec fn mime_for_extension(ext: Seq<char>) -> Seq<char> {
    if ext == "html"@ {
        "text/html; charset=utf-8"@
    } else if ext == "js"@ {
        "application/javascript"@
    } else if ext == "css"@ {
        "text/css"@
    } else if ext == "json"@ {
        "application/json"@
    } else if ext == "png"@ {
        "image/png"@
    } else if ext == "jpg"@ || ext == "jpeg"@ {
        "image/jpeg"@
    } else if ext == "svg"@ {
        "image/svg+xml"@
    } else if ext == "ico"@ {
        "image/x-icon"@
    } else if ext == "woff2"@ {
        "font/woff2"@
    } else if ext == "webp"@ {
        "image/webp"@
    } else {
        "application/octet-stream"@
    }
}

/// The index at which the text after the last `sep` of `cs` starts.
pub fn after_last_start(cs: &Vec<char>, sep: char) -> (r: usize)
    ensures
        r <= cs.len(),
        cs@.subrange(r as int, cs@.len() as int) == after_last(cs@, sep),
{
    let n = cs.len();
    let mut i = n;
    assert(cs@.subrange(0, n as int) =~= cs@);
    assert(cs@.subrange(n as int, n as int) =~= Seq::<char>::empty());
    while i > 0 && cs[i - 1] != sep
        invariant
            i <= n == cs.len(),
            after_last(cs@, sep) == after_last(cs@.subrange(0, i as int), sep) + cs@.subrange(
                i as int,
                n as int,
            ),
        decreases i,
    {
        let ghost pre = cs@.subrange(0, i as int);
        assert(pre.drop_last() =~= cs@.subrange(0, i - 1));
        assert(after_last(pre, sep) == after_last(cs@.subrange(0, i - 1), sep).push(cs@[i - 1]));
        assert(after_last(cs@.subrange(0, i - 1), sep).push(cs@[i - 1]) + cs@.subrange(
            i as int,
            n as int,
        ) =~= after_last(cs@.subrange(0, i - 1), sep) + cs@.subrange(i - 1, n as int));
        i = i - 1;
    }
    proof {
        let pre = cs@.subrange(0, i as int);
        if i == 0 {
            assert(pre.len() == 0);
        } else {
            assert(pre.last() == sep);
        }
        assert(after_last(pre, sep) =~= Seq::<char>::empty());
        assert(Seq::<char>::empty() + cs@.subrange(i as int, n as int) =~= cs@.subrange(
            i as int,
            n as int,
        ));
    }
    i
}

/// The content type for a path, chosen by the text after its last dot.
pub fn get_mime_type(path: &str) -> (r: &'static str)
    ensures
        r@ == mime_for_extension(after_last(path@, '.')),
{
    let cs = chars_of(path);
    let k = after_last_start(&cs, '.');
    let n = cs.len();
    if range_eq_str(&cs, k, n, "html") {
        "text/html; charset=utf-8"
    } else if range_eq_str(&cs, k, n, "js") {
        "application/javascript"
    } else if range_eq_str(&cs, k, n, "css") {
        "text/css"
    } else if range_eq_str(&cs, k, n, "json") {
        "application/json"
    } else if range_eq_str(&cs, k, n, "png") {
        "image/png"
    } else if range_eq_str(&cs, k, n, "jpg") || range_eq_str(&cs, k, n, "jpeg") {
        "image/jpeg"
    } else if range_eq_str(&cs, k, n, "svg") {
        "image/svg+xml"
    } else if range_eq_str(&cs, k, n, "ico") {
        "image/x-icon"
    } else if range_eq_str(&cs, k, n, "woff2") {
        "font/woff2"
    } else if range_eq_str(&cs, k, n, "webp") {
        "image/webp"
    } else {
        "application/octet-stream"
    }
}

/// A content type worth compressing: text, JavaScript, JSON or SVG.
pub open spec fn compressible_mime(mime: Seq<char>) -> bool {
    ||| has_prefix(mime, "text/"@)
    ||| has_infix(mime, "javascript"@)
    ||| has_infix(mime, "json"@)
    ||| has_infix(mime, "svg+xml"@)
}

/// Whether responses of this content type are worth compressing.
pub fn is_compressible_mime(mime: &str) -> (r: bool)
    ensures
        r == compressible_mime(mime@),
{
    starts_with_str(mime, "text/") || contains_str(mime, "javascript") || contains_str(
        mime,
        "json",
    ) || contains_str(mime, "svg+xml")
}

// ---------------------------------------------------------------------------
// Hashing

/// The 64-bit FNV-1a hash of `data`.
pub open spec fn fnv1a_spec(data: Seq<u8>) -> u64
    decreases data.len(),
{
    if data.len() == 0 {
        0xcbf29ce484222325
    } else {
        vstd::wrapping::u64_specs::wrapping_mul(
            fnv1a_spec(data.drop_last()) ^ (data.last() as u64),
            0x100000001b3,
        )
    }
}

/// The 64-bit FNV-1a hash of `data`.
pub fn fnv1a_hash(data: &[u8]) -> (r: u64)
    ensures
        r == fnv1a_spec(data@),
{
    let mut hash: u64 = 0xcbf29ce484222325;
    let mut i: usize = 0;
    while i < data.len()
        invariant
            i <= data.len(),
            hash == fnv1a_spec(data@.take(i as int)),
        decreases data.len() - i,
    {
        assert(data@.take(i + 1).drop_last() =~= data@.take(i as int));
        hash = hash ^ (data[i] as u64);
        hash = hash.wrapping_mul(0x100000001b3);
        i = i + 1;
    }
    assert(data@.take(i as int) =~= data@);
    hash
}

// ---------------------------------------------------------------------------
// Query strings

/// The query of a request target: the text after its first `?`, up to any second `?`.
pub open spec fn query_part(uri: Seq<char>) -> Option<Seq<char>> {
    let pieces = split_on(uri, '?');
    if pieces.len() >= 2 {
        Some(pieces[1])
    } else {
        None
    }
}

/// The value of the first pair whose name is `key`: the text after the pair's first `=`,
/// or nothing for a bare name.
pub open spec fn pair_value(pairs: Seq<Seq<char>>, key: Seq<char>) -> Option<Seq<char>>
    decreases pairs.len(),
{
    if pairs.len() == 0 {
        None
    } else {
        let kv = pairs[0];
        let e = first_index(kv, '=');
        if kv.subrange(0, e) == key {
            Some(
                if e < kv.len() {
                    kv.subrange(e + 1, kv.len() as int)
                } else {
                    Seq::empty()
                },
            )
        } else {
            pair_value(pairs.drop_first(), key)
        }
    }
}

/// The value of parameter `key` in the query of `uri`, if it has one.
pub open spec fn query_param_spec(uri: Seq<char>, key: Seq<char>) -> Option<Seq<char>> {
    match query_part(uri) {
        Some(q) => pair_value(split_on(q, '&'), key),
        None => None,
    }
}

/// The value of parameter `key` in the query of the request target `uri`.
pub fn query_param<'a>(uri: &'a str, key: &str) -> (r: Option<&'a str>)
    ensures
        match query_param_spec(uri@, key@) {
            Some(v) => r matches Some(x) && x@ == v,
            None => r is None,
        },
{
    let cs = chars_of(uri);
    let n = cs.len();
    assert(cs@.subrange(0, n as int) =~= cs@);
    let q0 = find_char(&cs, 0, n, '?');
    proof {
        lemma_split_on_head(cs@, '?');
    }
    if q0 == n {
        return None;
    }
    let qs = q0 + 1;
    let qe = find_char(&cs, qs, n, '?');
    proof {
        let rest = cs@.subrange(qs as int, n as int);
        lemma_split_on_head(rest, '?');
        lemma_first_index(rest, '?');
        assert(split_on(cs@, '?')[1] == split_on(rest, '?')[0]);
        assert(rest.subrange(0, qe - qs) =~= cs@.subrange(qs as int, qe as int));
    }
    let ghost target = query_param_spec(uri@, key@);
    let mut pos = qs;
    loop
        invariant
            qs <= pos <= qe <= n == cs.len(),
            cs@ == uri@,
            target == query_param_spec(uri@, key@),
            target == pair_value(split_on(cs@.subrange(pos as int, qe as int), '&'), key@),
        decreases qe - pos,
    {
        let e = find_char(&cs, pos, qe, '&');
        let eq = find_char(&cs, pos, e, '=');
        let ghost seg = cs@.subrange(pos as int, qe as int);
        let ghost kv = cs@.subrange(pos as int, e as int);
        proof {
            lemma_split_on_head(seg, '&');
            lemma_first_index(seg, '&');
            assert(seg.subrange(0, e - pos) =~= kv);
            lemma_first_index(kv, '=');
            assert(kv.subrange(0, eq - pos) =~= cs@.subrange(pos as int, eq as int));
        }
        if range_eq_str(&cs, pos, eq, key) {
            if eq < e {
                proof {
                    assert(kv.subrange(eq - pos + 1, kv.len() as int) =~= cs@.subrange(
                        eq + 1,
                        e as int,
                    ));
                }
                return Some(uri.substring_char(eq + 1, e));
            } else {
                let v = uri.substring_char(e, e);
                assert(v@ =~= Seq::<char>::empty());
                return Some(v);
            }
        }
        assert(split_on(seg, '&')[0] == kv);
        assert(kv.subrange(0, first_index(kv, '=')) != key@);
        assert(pair_value(split_on(seg, '&'), key@) == pair_value(
            split_on(seg, '&').drop_first(),
            key@,
        ));
        if e == qe {
            assert(split_on(seg, '&').drop_first().len() == 0);
            return None;
        }
        proof {
            assert(seg.subrange(e - pos + 1, seg.len() as int) =~= cs@.subrange(
                e + 1,
                qe as int,
            ));
        }
        pos = e + 1;
    }
}

/// A query parameter read as an unsigned number no larger than `max`: absent when the
/// parameter is, or does not parse.
pub open spec fn numeric_param_spec(uri: Seq<char>, key: Seq<char>, max: nat) -> Option<nat> {
    match query_param_spec(uri, key) {
        Some(v) => parse_decimal_spec(v, max),
        None => None,
    }
}

/// The `from` day and the `limit` of a history request, each absent when missing or not a
/// number that fits.
pub fn parse_hexjson_query(uri: &str) -> (r: (Option<u64>, Option<usize>))
    ensures
        match numeric_param_spec(uri@, "from"@, u64::MAX as nat) {
            Some(v) => r.0 == Some(v as u64),
            None => r.0 is None,
        },
        match numeric_param_spec(uri@, "limit"@, usize::MAX as nat) {
            Some(v) => r.1 == Some(v as usize),
            None => r.1 is None,
        },
{
    let from = match query_param(uri, "from") {
        Some(v) => parse_decimal(v, u64::MAX),
        None => None,
    };
    let limit = match query_param(uri, "limit") {
        Some(v) => match parse_decimal(v, usize::MAX as u64) {
            Some(n) => Some(n as usize),
            None => None,
        },
        None => None,
    };
    (from, limit)
}

// ---------------------------------------------------------------------------
// History ETags

/// The entity tag of a history response: the full list is tagged by its length and
/// version, a filtered one also by the first day and the limit asked for (a missing
/// limit counting as the largest `usize`).
pub open spec fn hexjson_etag_spec(
    from: Option<u64>,
    limit: Option<usize>,
    len: nat,
    version: nat,
) -> Seq<char> {
    if from is None && limit is None {
        "\"hexjson-full-"@ + full_tag_body(len, version) + "\""@
    } else {
        "\"hexjson-filter-"@ + filter_tag_body(
            from.unwrap_or(0) as nat,
            limit.unwrap_or(usize::MAX) as nat,
            len,
            version,
        ) + "\""@
    }
}

/// The variable part of a full-history tag: `length-version`.
pub open spec fn full_tag_body(n: nat, v: nat) -> Seq<char> {
    decimal_text(n) + "-"@ + decimal_text(v)
}

/// The variable part of a filtered-history tag: `from-limit-length-version`.
pub open spec fn filter_tag_body(a: nat, b: nat, n: nat, v: nat) -> Seq<char> {
    decimal_text(a) + "-"@ + (decimal_text(b) + "-"@ + (decimal_text(n) + "-"@ + decimal_text(v)))
}

/// The entity tag of a history response.
pub fn hexjson_etag(from: Option<u64>, limit: Option<usize>, len: usize, version: u64) -> (r:
    String)
    ensures
        r@ == hexjson_etag_spec(from, limit, len as nat, version as nat),
{
    let mut out = String::new();
    if from.is_none() && limit.is_none() {
        append_str(&mut out, "\"hexjson-full-");
        push_decimal(&mut out, len as u64);
        append_str(&mut out, "-");
        push_decimal(&mut out, version);
        append_str(&mut out, "\"");
    } else {
        let f: u64 = match from {
            Some(v) => v,
            None => 0,
        };
        let l: usize = match limit {
            Some(v) => v,
            None => usize::MAX,
        };
        append_str(&mut out, "\"hexjson-filter-");
        push_decimal(&mut out, f);
        append_str(&mut out, "-");
        push_decimal(&mut out, l as u64);
        append_str(&mut out, "-");
        push_decimal(&mut out, len as u64);
        append_str(&mut out, "-");
        push_decimal(&mut out, version);
        append_str(&mut out, "\"");
    }
    assert(out@ =~= hexjson_etag_spec(from, limit, len as nat, version as nat));
    out
}

/// Two digit runs each followed by the separator `sep`, a non-digit, line up only when the
/// runs are the same, and then so do the rests.
proof fn lemma_split_digits(a: Seq<char>, b: Seq<char>, x: Seq<char>, y: Seq<char>, sep: char)
    requires
        all_decimal(a),
        all_decimal(b),
        decimal_digit_value(sep) is None,
        a + seq![sep] + x == b + seq![sep] + y,
    ensures
        a == b,
        x == y,
{
    let l = a + seq![sep] + x;
    let r = b + seq![sep] + y;
    if a.len() < b.len() {
        assert(l[a.len() as int] == sep);
        assert(r[a.len() as int] == b[a.len() as int]);
        assert(decimal_digit_value(b[a.len() as int]) is Some);
    } else if b.len() < a.len() {
        assert(r[b.len() as int] == sep);
        assert(l[b.len() as int] == a[b.len() as int]);
        assert(decimal_digit_value(a[b.len() as int]) is Some);
    }
    assert(a.len() == b.len());
    assert(a =~= l.subrange(0, a.len() as int));
    assert(b =~= r.subrange(0, b.len() as int));
    assert(x =~= l.subrange(a.len() as int + 1, l.len() as int));
    assert(y =~= r.subrange(b.len() as int + 1, r.len() as int));
}

/// Decimal spellings that agree belong to the same number.
proof fn lemma_decimal_text_injective(u: nat, v: nat)
    requires
        decimal_text(u) == decimal_text(v),
    ensures
        u == v,
{
    lemma_decimal_roundtrip(u);
    lemma_decimal_roundtrip(v);
}

/// Texts with the same front and back part agree in between.
proof fn lemma_strip_affixes(p: Seq<char>, x: Seq<char>, y: Seq<char>, q: Seq<char>)
    requires
        p + x + q == p + y + q,
    ensures
        x == y,
{
    let l = p + x + q;
    let r = p + y + q;
    assert(x =~= l.subrange(p.len() as int, l.len() - q.len()));
    assert(y =~= r.subrange(p.len() as int, r.len() - q.len()));
}

/// A full-history tag names the length and the version.
proof fn lemma_full_tag_injective(n1: nat, v1: nat, n2: nat, v2: nat)
    requires
        hexjson_etag_spec(None, None, n1, v1) == hexjson_etag_spec(None, None, n2, v2),
    ensures
        n1 == n2,
        v1 == v2,
{
    reveal_strlit("-");
    assert("-"@ =~= seq!['-']);
    lemma_strip_affixes("\"hexjson-full-"@, full_tag_body(n1, v1), full_tag_body(n2, v2), "\""@);
    lemma_decimal_roundtrip(n1);
    lemma_decimal_roundtrip(n2);
    assert(decimal_digit_value('-') is None);
    lemma_split_digits(decimal_text(n1), decimal_text(n2), decimal_text(v1), decimal_text(v2), '-');
    lemma_decimal_text_injective(n1, n2);
    lemma_decimal_text_injective(v1, v2);
}

/// A filtered-history tag names the first day, the limit, the length and the version.
proof fn lemma_filter_body_injective(a1: nat, b1: nat, n1: nat, v1: nat, a2: nat, b2: nat, n2: nat, v2: nat)
    requires
        filter_tag_body(a1, b1, n1, v1) == filter_tag_body(a2, b2, n2, v2),
    ensures
        a1 == a2,
        b1 == b2,
        n1 == n2,
        v1 == v2,
{
    reveal_strlit("-");
    assert(decimal_digit_value('-') is None);
    lemma_decimal_roundtrip(a1);
    lemma_decimal_roundtrip(a2);
    lemma_decimal_roundtrip(b1);
    lemma_decimal_roundtrip(b2);
    lemma_decimal_roundtrip(n1);
    lemma_decimal_roundtrip(n2);
    let r1 = decimal_text(n1) + seq!['-'] + decimal_text(v1);
    let r2 = decimal_text(n2) + seq!['-'] + decimal_text(v2);
    let q1 = decimal_text(b1) + seq!['-'] + r1;
    let q2 = decimal_text(b2) + seq!['-'] + r2;
    assert("-"@ =~= seq!['-']);
    lemma_split_digits(decimal_text(a1), decimal_text(a2), q1, q2, '-');
    lemma_split_digits(decimal_text(b1), decimal_text(b2), r1, r2, '-');
    lemma_split_digits(decimal_text(n1), decimal_text(n2), decimal_text(v1), decimal_text(v2), '-');
    lemma_decimal_text_injective(a1, a2);
    lemma_decimal_text_injective(b1, b2);
    lemma_decimal_text_injective(n1, n2);
    lemma_decimal_text_injective(v1, v2);
}

/// A full-history tag and a filtered one always differ (at their eleventh character).
proof fn lemma_full_and_filter_tags_differ(
    f: Option<u64>,
    l: Option<usize>,
    n1: nat,
    v1: nat,
    n2: nat,
    v2: nat,
)
    requires
        !(f is None && l is None),
    ensures
        hexjson_etag_spec(None, None, n1, v1) != hexjson_etag_spec(f, l, n2, v2),
{
    reveal_strlit("\"hexjson-full-");
    reveal_strlit("\"hexjson-filter-");
    let t1 = hexjson_etag_spec(None, None, n1, v1);
    let t2 = hexjson_etag_spec(f, l, n2, v2);
    let p1 = "\"hexjson-full-"@;
    let p2 = "\"hexjson-filter-"@;
    assert(p1[10] == 'u');
    assert(p2[10] == 'i');
    assert(t1[10] == p1[10]);
    assert(t2[10] == p2[10]);
}

/// A history tag names what it was made from: the same tag means the same length and
/// version of the history and the same kind of request, and for a filtered request the same
/// first day and limit. So a tag changes whenever the history grows or is rewritten.
pub proof fn lemma_hexjson_etag_injective(
    f1: Option<u64>,
    l1: Option<usize>,
    n1: nat,
    v1: nat,
    f2: Option<u64>,
    l2: Option<usize>,
    n2: nat,
    v2: nat,
)
    requires
        hexjson_etag_spec(f1, l1, n1, v1) == hexjson_etag_spec(f2, l2, n2, v2),
    ensures
        n1 == n2,
        v1 == v2,
        (f1 is None && l1 is None) == (f2 is None && l2 is None),
        !(f1 is None && l1 is None) ==> f1.unwrap_or(0) == f2.unwrap_or(0) && l1.unwrap_or(
            usize::MAX,
        ) == l2.unwrap_or(usize::MAX),
{
    let full1 = f1 is None && l1 is None;
    let full2 = f2 is None && l2 is None;
    if full1 && !full2 {
        lemma_full_and_filter_tags_differ(f2, l2, n1, v1, n2, v2);
    } else if !full1 && full2 {
        lemma_full_and_filter_tags_differ(f1, l1, n2, v2, n1, v1);
    } else if full1 {
        lemma_full_tag_injective(n1, v1, n2, v2);
    } else {
        lemma_filter_tag_injective(f1, l1, n1, v1, f2, l2, n2, v2);
    }
}

/// A filtered-history tag names the first day, the limit, the length and the version.
proof fn lemma_filter_tag_injective(
    f1: Option<u64>,
    l1: Option<usize>,
    n1: nat,
    v1: nat,
    f2: Option<u64>,
    l2: Option<usize>,
    n2: nat,
    v2: nat,
)
    requires
        !(f1 is None && l1 is None),
        !(f2 is None && l2 is None),
        hexjson_etag_spec(f1, l1, n1, v1) == hexjson_etag_spec(f2, l2, n2, v2),
    ensures
        n1 == n2,
        v1 == v2,
        f1.unwrap_or(0) == f2.unwrap_or(0),
        l1.unwrap_or(usize::MAX) == l2.unwrap_or(usize::MAX),
{
    let a1 = f1.unwrap_or(0) as nat;
    let a2 = f2.unwrap_or(0) as nat;
    let b1 = l1.unwrap_or(usize::MAX) as nat;
    let b2 = l2.unwrap_or(usize::MAX) as nat;
    lemma_strip_affixes(
        "\"hexjson-filter-"@,
        filter_tag_body(a1, b1, n1, v1),
        filter_tag_body(a2, b2, n2, v2),
        "\""@,
    );
    lemma_filter_body_injective(a1, b1, n1, v1, a2, b2, n2, v2);
}

/// An `If-None-Match` value names the tag: the same text, or the same once the quotes at
/// either end are taken off.
pub open spec fn etag_matches_spec(if_none_match: Seq<char>, etag: Seq<char>) -> bool {
    if_none_match == etag || strip_char(if_none_match, '"') == strip_char(etag, '"')
}

/// Whether a request's `If-None-Match` value names the current tag, so that the response
/// is "not modified".
pub fn etag_matches(if_none_match: &str, etag: &str) -> (r: bool)
    ensures
        r == etag_matches_spec(if_none_match@, etag@),
{
    if str_eq(if_none_match, etag) {
        return true;
    }
    let a = strip_char_str(if_none_match, '"');
    let b = strip_char_str(etag, '"');
    str_eq(a.as_str(), b.as_str())
}

// ---------------------------------------------------------------------------
// History requests

/// What a history request is answered.
pub enum HexJsonReply<F> {
    /// 304: the client's copy is current.
    NotModified,
    /// The whole history.
    Full,
    /// The entries that a filtered request selects.
    Filtered(Vec<HexJsonEntry<F>>),
}

/// The entries a filtered request selects: from day `from` on (day 0 when not given), at
/// most `limit` of them (no limit when not given).
pub open spec fn filtered_reply<F>(
    entries: Seq<HexJsonEntry<F>>,
    from: Option<u64>,
    limit: Option<usize>,
) -> Seq<HexJsonEntry<F>> {
    let sel = from_day_spec(entries, from.unwrap_or(0));
    let lim = limit.unwrap_or(usize::MAX);
    sel.take(
        if lim < sel.len() {
            lim as int
        } else {
            sel.len() as int
        },
    )
}

/// The entries from day `from` on are those of the history whose day is at least
/// `from`, in their order.
proof fn lemma_from_day_is_filter<F>(s: Seq<HexJsonEntry<F>>, from: u64)
    ensures
        from_day_spec(s, from) == s.filter(|e: HexJsonEntry<F>| e.current_day >= from),
    decreases s.len(),
{
    reveal(Seq::filter);
    if s.len() > 0 {
        lemma_from_day_is_filter(s.drop_last(), from);
    }
}

/// A filtered request answers with the entries whose day is at least `from` (day 0 when
/// not given), in the history's order: all of them when no limit is given, else the first
/// `limit` of them.
pub proof fn lemma_filtered_reply_selects<F>(
    entries: Seq<HexJsonEntry<F>>,
    from: Option<u64>,
    limit: Option<usize>,
)
    requires
        entries.len() <= usize::MAX,
    ensures
        ({
            let sel = entries.filter(|e: HexJsonEntry<F>| e.current_day >= from.unwrap_or(0));
            &&& limit is None ==> filtered_reply(entries, from, limit) == sel
            &&& limit matches Some(l) ==> filtered_reply(entries, from, limit) == sel.take(
                if l < sel.len() {
                    l as int
                } else {
                    sel.len() as int
                },
            )
        }),
{
    let f = from.unwrap_or(0);
    lemma_from_day_is_filter(entries, f);
    let p1 = |e: HexJsonEntry<F>| e.current_day >= from.unwrap_or(0);
    let p2 = |e: HexJsonEntry<F>| e.current_day >= f;
    assert(p1 =~= p2);
    let sel = entries.filter(p2);
    assert(entries.filter(p1) == sel);
    entries.lemma_filter_len(p2);
    assert(sel.take(sel.len() as int) =~= sel);
}

/// Answers a history request: the entity tag of the answer, and the answer itself — "not
/// modified" when the client's `If-None-Match` names the tag, the whole history when
/// neither `from` nor `limit` is given, and otherwise the selected entries.
pub fn hexjson_reply<F: Copy>(
    entries: &Vec<HexJsonEntry<F>>,
    from: Option<u64>,
    limit: Option<usize>,
    version: u64,
    if_none_match: Option<&str>,
) -> (r: (String, HexJsonReply<F>))
    ensures
        r.0@ == hexjson_etag_spec(from, limit, entries.len() as nat, version as nat),
        (match if_none_match {
            Some(inm) => etag_matches_spec(inm@, r.0@),
            None => false,
        }) ==> r.1 is NotModified,
        !(match if_none_match {
            Some(inm) => etag_matches_spec(inm@, r.0@),
            None => false,
        }) ==> (if from is None && limit is None {
            r.1 is Full
        } else {
            r.1 matches HexJsonReply::Filtered(v) && v@ == filtered_reply(entries@, from, limit)
        }),
{
    let etag = hexjson_etag(from, limit, entries.len(), version);
    if let Some(inm) = if_none_match {
        if etag_matches(inm, etag.as_str()) {
            return (etag, HexJsonReply::NotModified);
        }
    }
    if from.is_none() && limit.is_none() {
        return (etag, HexJsonReply::Full);
    }
    let f: u64 = match from {
        Some(v) => v,
        None => 0,
    };
    let l: usize = match limit {
        Some(v) => v,
        None => usize::MAX,
    };
    let selected = select_from_day(entries, f, l);
    (etag, HexJsonReply::Filtered(selected))
}

} // verus!
