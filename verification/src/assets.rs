//! Static assets: which are served pre-compressed, their entity tags, and which body a
//! request gets.
use vstd::prelude::*;
use crate::numeric::{decimal_text, push_decimal};
use crate::text::{append_str, contains_str, has_infix};
use crate::web::{
    after_last, compressible_mime, etag_matches, etag_matches_spec, fnv1a_hash, fnv1a_spec,
    get_mime_type, is_compressible_mime, mime_for_extension,
};
use flate2::write::GzEncoder;
use flate2::Compression;
use std::io::Write;

verus! {

/// What compressing `data` into a vector with flate2's `GzEncoder` at `Compression::fast()`
/// (default header: no name, modification time zero) gives: the gzip stream, or nothing
/// when the encoder reports an error. The encoder reads nothing but `data`.
pub uninterp spec fn gzip_fast_outcome(data: Seq<u8>) -> Option<Seq<u8>>;

/// The contents of an optional byte vector.
pub open spec fn bytes_view(r: Option<Vec<u8>>) -> Option<Seq<u8>> {
    match r {
        Some(c) => Some(c@),
        None => None,
    }
}

/// Compresses `data` with flate2's `GzEncoder` at `Compression::fast()`, into a vector.
/// Trusted: the outcome is `gzip_fast_outcome(data)`, a function of `data` alone; which
/// inputs, if any, make the encoder fail is not stated.
#[verifier::external_body]
fn gzip_compress_fast(data: &[u8]) -> (r: Option<Vec<u8>>)
    ensures
        bytes_view(r) == gzip_fast_outcome(data@),
{
    let mut encoder = GzEncoder::new(Vec::new(), Compression::fast());
    match encoder.write_all(data) {
        Ok(()) => encoder.finish().ok(),
        Err(_) => None,
    }
}

/// Assets smaller than this are never compressed.
pub const MIN_COMPRESS_LEN: usize = 128;

/// An asset worth compressing: its content type compresses and it is over
/// `MIN_COMPRESS_LEN` bytes.
pub open spec fn worth_compressing(name: Seq<char>, len: nat) -> bool {
    compressible_mime(mime_for_extension(after_last(name, '.'))) && len > MIN_COMPRESS_LEN
}

/// Whether the asset `name` of `len` bytes is worth compressing.
pub fn should_compress(name: &str, len: usize) -> (r: bool)
    ensures
        r == worth_compressing(name@, len as nat),
{
    let mime = get_mime_type(name);
    is_compressible_mime(mime) && len > MIN_COMPRESS_LEN
}

/// The compressed form that is kept: only one shorter than the original.
pub fn keep_if_smaller(original_len: usize, compressed: Option<Vec<u8>>) -> (r: Option<Vec<u8>>)
    ensures
        r == (match compressed {
            Some(c) => if c.len() < original_len {
                Some(c)
            } else {
                None
            },
            None => None,
        }),
{
    match compressed {
        Some(c) => if c.len() < original_len {
            Some(c)
        } else {
            None
        },
        None => None,
    }
}

/// The gzip form served for an asset: compressed when worth it, and kept only when
/// shorter.
pub fn compress_asset(name: &str, data: &Vec<u8>) -> (r: Option<Vec<u8>>)
    ensures
        bytes_view(r) == kept_gzip(name@, data@, gzip_fast_outcome(data@)),
{
    if !should_compress(name, data.len()) {
        return None;
    }
    let gz = gzip_compress_fast(data.as_slice());
    keep_if_smaller(data.len(), gz)
}

/// An asset and its data.
pub struct Asset {
    pub name: String,
    pub data: Vec<u8>,
}

/// `c` is the kept gzip form of one of `assets`, under that asset's name.
pub open spec fn compressed_from(c: Asset, assets: Seq<Asset>) -> bool {
    exists|i: int|
        0 <= i < assets.len() && #[trigger] assets[i].name@ == c.name@ && worth_compressing(
            assets[i].name@,
            assets[i].data@.len(),
        ) && gzip_fast_outcome(assets[i].data@) == Some(c.data@) && c.data.len() < assets[i].data.len()
}

/// What is kept of a gzip outcome `g` for an asset: the compressed form, when the asset is
/// worth compressing and the form is shorter than the asset.
pub open spec fn kept_gzip(name: Seq<char>, data: Seq<u8>, g: Option<Seq<u8>>) -> Option<Seq<u8>> {
    match g {
        Some(c) => if worth_compressing(name, data.len()) && c.len() < data.len() {
            Some(c)
        } else {
            None
        },
        None => None,
    }
}

/// The names and compressed forms kept for `assets`, in order.
pub open spec fn compressed_list(assets: Seq<Asset>) -> Seq<(Seq<char>, Seq<u8>)>
    decreases assets.len(),
{
    if assets.len() == 0 {
        Seq::empty()
    } else {
        let n = assets.len() - 1;
        let rest = compressed_list(assets.drop_last());
        match kept_gzip(assets[n].name@, assets[n].data@, gzip_fast_outcome(assets[n].data@)) {
            Some(c) => rest.push((assets[n].name@, c)),
            None => rest,
        }
    }
}

/// The names and data of a list of assets.
pub open spec fn asset_views(r: Seq<Asset>) -> Seq<(Seq<char>, Seq<u8>)> {
    r.map_values(|a: Asset| (a.name@, a.data@))
}

/// The pre-compressed assets: for each asset in order, its name with the gzip form that
/// `compress_asset` keeps, the others left out.
pub fn get_compressed_assets(assets: &Vec<Asset>) -> (r: Vec<Asset>)
    ensures
        r.len() <= assets.len(),
        forall|k: int| 0 <= k < r.len() ==> compressed_from(#[trigger] r@[k], assets@),
        asset_views(r@) == compressed_list(assets@),
{
    let mut out: Vec<Asset> = Vec::new();
    let mut i: usize = 0;
    assert(assets@.take(0) =~= Seq::<Asset>::empty());
    assert(asset_views(out@) =~= Seq::<(Seq<char>, Seq<u8>)>::empty());
    while i < assets.len()
        invariant
            i <= assets.len(),
            out.len() <= i,
            forall|k: int| 0 <= k < out.len() ==> compressed_from(#[trigger] out@[k], assets@),
            asset_views(out@) == compressed_list(assets@.take(i as int)),
        decreases assets.len() - i,
    {
        let a = &assets[i];
        let res = compress_asset(a.name.as_str(), &a.data);
        proof {
            let t = assets@.take(i + 1);
            assert(t.drop_last() =~= assets@.take(i as int));
            assert(t[i as int] == assets@[i as int]);
        }
        let ghost prev_out = out@;
        if let Some(c) = res {
            let mut name = String::new();
            append_str(&mut name, a.name.as_str());
            assert(name@ =~= a.name@);
            let ghost cv = c@;
            let entry = Asset { name, data: c };
            assert(assets@[i as int].name@ == entry.name@);
            assert(compressed_from(entry, assets@));
            out.push(entry);
            assert(asset_views(out@) =~= asset_views(prev_out).push((assets@[i as int].name@, cv)));
        }
        i = i + 1;
    }
    assert(assets@.take(assets.len() as int) =~= assets@);
    out
}

/// The entity tag of an asset: the decimal FNV-1a hash of its bytes, in quotes.
pub open spec fn asset_etag_spec(data: Seq<u8>) -> Seq<char> {
    "\""@ + decimal_text(fnv1a_spec(data) as nat) + "\""@
}

/// The entity tag of an asset.
pub fn asset_etag(data: &[u8]) -> (r: String)
    ensures
        r@ == asset_etag_spec(data@),
{
    let h = fnv1a_hash(data);
    let mut out = String::new();
    append_str(&mut out, "\"");
    push_decimal(&mut out, h);
    append_str(&mut out, "\"");
    assert(out@ =~= asset_etag_spec(data@));
    out
}

/// Whether a request gets the gzip form: it accepts gzip and there is one.
pub fn serve_gzip(accept_encoding: &str, has_compressed: bool) -> (r: bool)
    ensures
        r == (has_infix(accept_encoding@, "gzip"@) && has_compressed),
{
    contains_str(accept_encoding, "gzip") && has_compressed
}

/// How an asset request is answered.
#[derive(Clone, Copy, PartialEq, Eq, Debug, Structural)]
pub enum AssetReply {
    /// 304: the client's copy is current.
    NotModified,
    /// The pre-compressed gzip form.
    Gzip,
    /// The asset as it is.
    Plain,
}

/// Answers an asset request: the asset's entity tag, and "not modified" when the client's
/// `If-None-Match` names it, else the gzip form when the client accepts gzip and there is
/// one, else the plain asset.
pub fn asset_reply(
    data: &[u8],
    if_none_match: Option<&str>,
    accept_encoding: &str,
    has_compressed: bool,
) -> (r: (String, AssetReply))
    ensures
        r.0@ == asset_etag_spec(data@),
        r.1 == (if (match if_none_match {
            Some(inm) => etag_matches_spec(inm@, r.0@),
            None => false,
        }) {
            AssetReply::NotModified
        } else if has_infix(accept_encoding@, "gzip"@) && has_compressed {
            AssetReply::Gzip
        } else {
            AssetReply::Plain
        }),
{
    let etag = asset_etag(data);
    if let Some(inm) = if_none_match {
        if etag_matches(inm, etag.as_str()) {
            return (etag, AssetReply::NotModified);
        }
    }
    if serve_gzip(accept_encoding, has_compressed) {
        (etag, AssetReply::Gzip)
    } else {
        (etag, AssetReply::Plain)
    }
}

} // verus!
