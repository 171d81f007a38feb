//! `file:` URIs and the paths they name.
use vstd::prelude::*;
use vstd::utf8::{decode_utf8, valid_utf8};

use crate::path::{absolute, same_path};

verus! {

/// The text that an optional string holds.
pub open spec fn text_of(o: Option<String>) -> Option<Seq<char>> {
    match o {
        Some(s) => Some(s@),
        None => None,
    }
}

/// The bytes that an optional vector holds.
pub open spec fn bytes_of(o: Option<Vec<u8>>) -> Option<Seq<u8>> {
    match o {
        Some(v) => Some(v@),
        None => None,
    }
}

/// A URL of the protocol.
#[verifier::external_type_specification]
#[verifier::external_body]
pub struct ExUrl(tower_lsp::lsp_types::Url);

/// The text of a URL, as `Url::as_str` gives it.
pub uninterp spec fn url_text(url: tower_lsp::lsp_types::Url) -> Seq<char>;

/// The text of the `file:` URL of a path, as `Url::from_file_path` builds it on Unix.
pub uninterp spec fn file_uri(path: Seq<char>) -> Option<Seq<char>>;

/// The bytes of the path that the URL of this text names, as `Url::to_file_path` reads it on
/// Unix. They need not be UTF-8.
pub uninterp spec fn uri_file_path(uri: Seq<char>) -> Option<Seq<u8>>;

/// The URL of this text names the path, component by component.
pub open spec fn names_file(uri: Seq<char>, path: Seq<char>) -> bool {
    uri_file_path(uri) matches Some(p) && valid_utf8(p) && same_path(decode_utf8(p), path)
}

/// The text of a URL, where there is one.
pub open spec fn url_text_of(o: Option<tower_lsp::lsp_types::Url>) -> Option<Seq<char>> {
    match o {
        Some(url) => Some(url_text(url)),
        None => None,
    }
}

/// `Url::as_str`: the text of the URL.
pub assume_specification[ tower_lsp::lsp_types::Url::as_str ](
    url: &tower_lsp::lsp_types::Url,
) -> (r: &str)
    ensures
        r@ == url_text(*url),
;

/// `Url::clone`: a URL of the same text.
pub assume_specification[ <tower_lsp::lsp_types::Url as Clone>::clone ](
    url: &tower_lsp::lsp_types::Url,
) -> (r: tower_lsp::lsp_types::Url)
    ensures
        url_text(r) == url_text(*url),
;

/// `Url::from_file_path`: the text of its result depends on the path alone; on Unix it fails
/// exactly on a path that is not absolute; and `Url::to_file_path` on its result gives a path
/// with the same components, which are percent-encoded one by one and decoded again.
#[verifier::external_body]
pub(crate) fn uri_from_path(path: &str) -> (r: Option<tower_lsp::lsp_types::Url>)
    ensures
        url_text_of(r) == file_uri(path@),
        r is Some == absolute(path@),
        r matches Some(url) ==> names_file(url_text(url), path@),
{
    match tower_lsp::lsp_types::Url::from_file_path(path) {
        Ok(url) => Some(url),
        Err(()) => None,
    }
}

/// `Url::to_file_path`: its result, as the bytes of the path, depends on the text of the URL
/// alone. What path comes out for a given text is not stated.
#[verifier::external_body]
pub(crate) fn path_from_uri(url: &tower_lsp::lsp_types::Url) -> (r: Option<Vec<u8>>)
    ensures
        bytes_of(r) == uri_file_path(url_text(*url)),
{
    match url.to_file_path() {
        Ok(path) => Some(path.into_os_string().into_encoded_bytes()),
        Err(()) => None,
    }
}

} // verus!
