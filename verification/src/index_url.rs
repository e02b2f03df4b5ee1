//! The address of a package index.

use vstd::prelude::*;

verus! {

/// The longest address that is taken: with it no part of an address can
/// outgrow the numbers that addresses are kept with.
pub const MAX_URL_LEN: usize = 0x100_0000;

/// The longest path that `/` is added to.
pub const MAX_PATH_LEN: usize = 0x1000_0000;

/// What the address with the text `text` is written as, and its path;
/// nothing where `text` is no address.
pub uninterp spec fn url_parts(text: Seq<char>) -> Option<(Seq<char>, Seq<char>)>;

/// What the address with the text `text` is written as once its path is
/// `path`; nothing where `text` is no address.
pub uninterp spec fn url_with_path(text: Seq<char>, path: Seq<char>) -> Option<Seq<char>>;

/// The address of an index, with a path that ends with `/`: the address as
/// it is where its path ends so, else with `/` added to its path. Nothing
/// where the path is longer than `MAX_PATH_LEN`.
pub open spec fn normalized_index_url(text: Seq<char>) -> Option<Seq<char>> {
    match url_parts(text) {
        None => None,
        Some((written, path)) => if path.len() > 0 && path.last() == '/' {
            Some(written)
        } else if path.len() > MAX_PATH_LEN {
            None
        } else {
            url_with_path(text, path.push('/'))
        },
    }
}

/// The address `url` of an index with a path that ends with `/`; nothing
/// where `url` is no address.
pub fn normalize_index_url(url: &str) -> (r: Option<String>)
    requires
        url@.len() <= MAX_URL_LEN,
    ensures
        match normalized_index_url(url@) {
            Some(text) => r matches Some(s) && s@ == text,
            None => r is None,
        },
{
    match parse_url(url) {
        None => None,
        Some((written, path)) => {
            let chars = crate::text::chars_of(path.as_str());
            if chars.len() > 0 && chars[chars.len() - 1] == '/' {
                Some(written)
            } else if chars.len() > MAX_PATH_LEN {
                None
            } else {
                let mut longer = path;
                vstd::string::StringExecFns::append(&mut longer, "/");
                proof {
                    reveal_strlit("/");
                    assert(longer@ =~= chars@.push('/'));
                }
                set_url_path(url, longer.as_str())
            }
        },
    }
}

/// `url::Url::parse`, then `Url::as_str` and `Url::path`: how the address
/// with the text `text` is written, and its path.
#[verifier::external_body]
fn parse_url(text: &str) -> (r: Option<(String, String)>)
    ensures
        match url_parts(text@) {
            Some((written, path)) => r matches Some((w, p)) && w@ == written && p@ == path,
            None => r is None,
        },
{
    let url = url::Url::parse(text).ok()?;
    Some((url.as_str().to_owned(), url.path().to_owned()))
}

/// `url::Url::set_path` on the address that `url::Url::parse` reads from
/// `text`: how the address is written with the path `path`.
#[verifier::external_body]
fn set_url_path(text: &str, path: &str) -> (r: Option<String>)
    requires
        text@.len() <= MAX_URL_LEN,
        path@.len() <= MAX_PATH_LEN + 1,
    ensures
        match url_with_path(text@, path@) {
            Some(written) => r matches Some(w) && w@ == written,
            None => r is None,
        },
{
    let mut url = url::Url::parse(text).ok()?;
    url.set_path(path);
    Some(url.into())
}

} // verus!
