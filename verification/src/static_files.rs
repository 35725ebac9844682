//! How a static file server answers a request for a path: where the file lies
//! under the storage directory, and the headers that go with it. Brotli-packed
//! files (extension `br`) are served as compressed WebAssembly; everything
//! else with the media type guessed from its extension.
use vstd::prelude::*;
use crate::paths::{extension, extension_of};
use crate::text::opt_text;

verus! {

/// The server's settings: the port it listens on and the directory it serves.
#[derive(Clone, PartialEq, Eq, Debug)]
pub struct Args {
    pub port: u16,
    pub storage_path: String,
}

/// The first media type that `mime_guess` lists for the path written `path`.
pub uninterp spec fn mime_of(path: Seq<char>) -> Option<Seq<char>>;

/// The first media type `mime_guess::from_path` guesses for `path`
/// (`MimeGuess::first_raw`). Claimed: the result is [`mime_of`] the path.
#[verifier::external_body]
fn guess_mime(path: &str) -> (mime: Option<String>)
    ensures
        match mime {
            Some(m) => mime_of(path@) == Some(m@),
            None => mime_of(path@) is None,
        },
{
    mime_guess::from_path(path).first_raw().map(|m| m.to_string())
}

/// `uri` with a leading slash, added where it has none.
pub open spec fn rooted(uri: Seq<char>) -> Seq<char> {
    if uri.len() > 0 && uri[0] == '/' {
        uri
    } else {
        seq!['/'] + uri
    }
}

/// The headers for a file whose extension is `ext` and whose guessed media
/// type is `mime`.
pub open spec fn header_rule(ext: Option<Seq<char>>, mime: Option<Seq<char>>) -> Seq<(Seq<char>, Seq<char>)> {
    if ext == Some("br"@) {
        seq![("Content-Type"@, "application/wasm"@), ("Content-Encoding"@, "br"@)]
    } else {
        let kind = match mime {
            Some(m) => m,
            None => "application/octet-stream"@,
        };
        seq![("Content-Type"@, kind), ("placeholder"@, "value"@)]
    }
}

/// The headers a file at `path` is served with.
pub open spec fn headers_for(path: Seq<char>) -> Seq<(Seq<char>, Seq<char>)> {
    header_rule(extension_of(path), mime_of(path))
}

/// The names and values of a pair of headers.
pub open spec fn pair_view(h: [(String, String); 2]) -> Seq<(Seq<char>, Seq<char>)> {
    seq![(h[0].0@, h[0].1@), (h[1].0@, h[1].1@)]
}

/// The headers for a file with extension `ext` and guessed media type `mime`:
/// compressed WebAssembly for `br`, else the media type (or
/// `application/octet-stream` where none was guessed) and a placeholder.
pub fn response_headers(ext: Option<String>, mime: Option<String>) -> (h: [(String, String); 2])
    ensures
        pair_view(h) == header_rule(opt_text(ext), opt_text(mime)),
{
    let is_brotli = match ext {
        Some(e) => e == String::from_str("br"),
        None => false,
    };
    let h = if is_brotli {
        [
            (String::from_str("Content-Type"), String::from_str("application/wasm")),
            (String::from_str("Content-Encoding"), String::from_str("br")),
        ]
    } else {
        let kind = match mime {
            Some(m) => m,
            None => String::from_str("application/octet-stream"),
        };
        [(String::from_str("Content-Type"), kind), (String::from_str("placeholder"), String::from_str("value"))]
    };
    assert(pair_view(h) =~= header_rule(opt_text(ext), opt_text(mime)));
    h
}

/// The file a request names and the headers to serve it with.
pub struct FileResponse {
    pub path: String,
    pub headers: [(String, String); 2],
}

impl FileResponse {
    /// The headers as names and values.
    pub open spec fn header_view(&self) -> Seq<(Seq<char>, Seq<char>)> {
        pair_view(self.headers)
    }
}

/// Whether `s` begins with a slash.
fn starts_with_slash(s: &str) -> (b: bool)
    ensures
        b == (s@.len() > 0 && s@[0] == '/'),
{
    if s.unicode_len() == 0 {
        false
    } else {
        s.get_char(0) == '/'
    }
}

/// The file under the storage directory that the request path `uri` names,
/// and the headers to serve it with.
pub fn in_directory(state: &Args, uri: &str) -> (r: FileResponse)
    ensures
        r.path@ == state.storage_path@ + rooted(uri@),
        r.header_view() == headers_for(r.path@),
{
    let mut path = state.storage_path.clone();
    if !starts_with_slash(uri) {
        path.append("/");
        proof {
            reveal_strlit("/");
        }
    }
    path.append(uri);
    assert(path@ == state.storage_path@ + rooted(uri@));
    let ext = extension(path.as_str());
    let mime = guess_mime(path.as_str());
    let headers = response_headers(ext, mime);
    FileResponse { path, headers }
}

/// The response for the root of the site: the file `/index.html`.
pub fn index(state: &Args) -> (r: FileResponse)
    ensures
        r.path@ == state.storage_path@ + "/index.html"@,
        r.header_view() == headers_for(r.path@),
{
    proof {
        reveal_strlit("/index.html");
    }
    in_directory(state, "/index.html")
}

/// A request path is served from under the storage directory: with a
/// leading slash, added once; a path that has one is left as it is.
pub proof fn lemma_rooted_once(uri: Seq<char>)
    ensures
        rooted(uri).len() > 0,
        rooted(uri)[0] == '/',
        rooted(rooted(uri)) == rooted(uri),
        uri.len() > 0 && uri[0] == '/' ==> rooted(uri) == uri,
{
}

} // verus!
