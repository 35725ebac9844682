//! The local end of an OAuth sign-in: reading the authorization code and the
//! state that the provider hands back when it redirects the browser to the
//! local listener, the reply the listener sends the browser, the identifier
//! of an uploaded video read from the upload's reply, and where it can be
//! watched.
use vstd::prelude::*;
use crate::text::{decimal, decimal_text, opt_text, split_whitespace, texts, words};

verus! {

/// What `url::Url::parse` gives for `url`, read through `Url::query_pairs`:
/// `None` where the text is not a URL, else the decoded key-value pairs of its
/// query, in order.
pub uninterp spec fn url_query(url: Seq<char>) -> Option<Seq<(Seq<char>, Seq<char>)>>;

/// The texts of a list of key-value pairs.
pub open spec fn pair_texts(v: Seq<(String, String)>) -> Seq<(Seq<char>, Seq<char>)> {
    v.map_values(|p: (String, String)| (p.0@, p.1@))
}

/// Parses `url` with `url::Url::parse` and lists its query pairs
/// (`Url::query_pairs`) as owned strings. Claimed: the result is
/// [`url_query`] of the text.
#[verifier::external_body]
fn query_pairs(url: &str) -> (pairs: Option<Vec<(String, String)>>)
    ensures
        match pairs {
            Some(v) => url_query(url@) == Some(pair_texts(v@)),
            None => url_query(url@) is None,
        },
{
    match url::Url::parse(url) {
        Ok(u) => Some(u.query_pairs().map(|(k, v)| (k.into_owned(), v.into_owned())).collect()),
        Err(_) => None,
    }
}

/// Why a redirect could not be read.
#[derive(Clone, Copy, PartialEq, Eq, Structural, Debug)]
pub enum RedirectError {
    /// The request line has no second word, the request's target.
    NoTarget,
    /// The target does not make a URL.
    BadUrl,
    /// The query has no `code`.
    MissingCode,
    /// The query has a `code` but no `state`.
    MissingState,
}

/// The authorization code and the state a redirect carries.
#[derive(Clone, PartialEq, Eq, Debug)]
pub struct Redirect {
    pub code: String,
    pub state: String,
}

/// The value of the first pair whose key is `key`.
pub open spec fn first_value(pairs: Seq<(Seq<char>, Seq<char>)>, key: Seq<char>) -> Option<Seq<char>>
    decreases pairs.len(),
{
    if pairs.len() == 0 {
        None
    } else if pairs[0].0 == key {
        Some(pairs[0].1)
    } else {
        first_value(pairs.drop_first(), key)
    }
}

/// The value of the first pair whose key is `key`, as [`first_value`] finds it.
pub fn find_value(pairs: &Vec<(String, String)>, key: &str) -> (value: Option<String>)
    ensures
        opt_text(value) == first_value(pair_texts(pairs@), key@),
{
    let wanted = key.to_owned();
    let ghost all = pair_texts(pairs@);
    let mut i: usize = 0;
    assert(all.skip(0) =~= all);
    while i < pairs.len()
        invariant
            i <= pairs@.len(),
            wanted@ == key@,
            all == pair_texts(pairs@),
            first_value(all, key@) == first_value(all.skip(i as int), key@),
        decreases pairs@.len() - i,
    {
        let ghost rest = all.skip(i as int);
        assert(rest[0] == all[i as int]);
        if pairs[i].0 == wanted {
            return Some(pairs[i].1.clone());
        }
        assert(rest.drop_first() =~= all.skip(i as int + 1));
        i += 1;
    }
    None
}

/// The code and state of a redirect whose query pairs are `pairs`.
pub open spec fn redirect_from(pairs: Seq<(Seq<char>, Seq<char>)>) -> Result<(Seq<char>, Seq<char>), RedirectError> {
    match first_value(pairs, "code"@) {
        None => Err(RedirectError::MissingCode),
        Some(code) => match first_value(pairs, "state"@) {
            None => Err(RedirectError::MissingState),
            Some(state) => Ok((code, state)),
        },
    }
}

/// The view of a read redirect.
pub open spec fn redirect_view(r: Result<Redirect, RedirectError>) -> Result<(Seq<char>, Seq<char>), RedirectError> {
    match r {
        Ok(rd) => Ok((rd.code@, rd.state@)),
        Err(e) => Err(e),
    }
}

/// The code and state among a redirect's query pairs, the first pair of each
/// key counting.
pub fn redirect_from_pairs(pairs: &Vec<(String, String)>) -> (r: Result<Redirect, RedirectError>)
    ensures
        redirect_view(r) == redirect_from(pair_texts(pairs@)),
{
    proof {
        reveal_strlit("code");
        reveal_strlit("state");
    }
    let code = match find_value(pairs, "code") {
        Some(c) => c,
        None => return Err(RedirectError::MissingCode),
    };
    let state = match find_value(pairs, "state") {
        Some(s) => s,
        None => return Err(RedirectError::MissingState),
    };
    Ok(Redirect { code, state })
}

/// The target of an HTTP request: the second word of its request line.
pub open spec fn request_target(line: Seq<char>) -> Option<Seq<char>> {
    if words(line).len() >= 2 {
        Some(words(line)[1])
    } else {
        None
    }
}

/// The URL a redirect's target stands for on the local listener.
pub open spec fn callback_text(target: Seq<char>) -> Seq<char> {
    "http://localhost"@ + target
}

/// The URL that a request target names on the local listener.
pub fn callback_url(target: &str) -> (url: String)
    ensures
        url@ == callback_text(target@),
{
    let mut url = String::from_str("http://localhost");
    url.append(target);
    url
}

/// What reading a redirect's request line gives.
pub open spec fn redirect_of(line: Seq<char>) -> Result<(Seq<char>, Seq<char>), RedirectError> {
    match request_target(line) {
        None => Err(RedirectError::NoTarget),
        Some(target) => match url_query(callback_text(target)) {
            None => Err(RedirectError::BadUrl),
            Some(pairs) => redirect_from(pairs),
        },
    }
}

/// The authorization code and state that the redirect with this request line
/// carries in its query.
pub fn read_redirect(request_line: &str) -> (r: Result<Redirect, RedirectError>)
    ensures
        redirect_view(r) == redirect_of(request_line@),
{
    let parts = split_whitespace(request_line);
    if parts.len() < 2 {
        return Err(RedirectError::NoTarget);
    }
    assert(texts(parts@)[1] == parts@[1]@);
    let url = callback_url(parts[1].as_str());
    match query_pairs(url.as_str()) {
        None => Err(RedirectError::BadUrl),
        Some(pairs) => redirect_from_pairs(&pairs),
    }
}

/// The reply the listener sends the browser: a bare `200 OK` whose body is `message`.
pub open spec fn response_text(message: Seq<char>, byte_len: nat) -> Seq<char> {
    "HTTP/1.1 200 OK\r\ncontent-length: "@ + decimal_text(byte_len) + "\r\n\r\n"@ + message
}

/// The HTTP reply with `message` as its body; the content length counts the
/// message's bytes (`str::len`).
pub fn redirect_response(message: &str) -> (r: String)
    ensures
        r@ == response_text(message@, message.len() as nat),
{
    let mut r = String::from_str("HTTP/1.1 200 OK\r\ncontent-length: ");
    let n = decimal(message.len() as u64);
    r.append(n.as_str());
    r.append("\r\n\r\n");
    r.append(message);
    r
}

/// What `serde_json` makes of `text` read as a JSON value and indexed by
/// `key` (`Value`'s `Index<&str>`, then `Value::as_str`): `None` where the
/// text is not JSON, `Some(None)` where the value has no string under `key`
/// (a value that is no object has nothing under any key), else the string.
pub uninterp spec fn json_str_field_of(text: Seq<char>, key: Seq<char>) -> Option<Option<Seq<char>>>;

/// Parses `text` with `serde_json::from_str` into a `Value`, indexes it by
/// `key` and takes the string there, if any (`Value::as_str`). Claimed: the
/// result is [`json_str_field_of`] of the text and the key.
#[verifier::external_body]
fn json_str_field(text: &str, key: &str) -> (field: Option<Option<String>>)
    ensures
        match field {
            None => json_str_field_of(text@, key@) is None,
            Some(None) => json_str_field_of(text@, key@) == Some(None::<Seq<char>>),
            Some(Some(v)) => json_str_field_of(text@, key@) == Some(Some(v@)),
        },
{
    match serde_json::from_str::<serde_json::Value>(text) {
        Ok(value) => Some(value[key].as_str().map(|v| v.to_string())),
        Err(_) => None,
    }
}

/// Why no video identifier could be read from an upload's reply.
#[derive(Clone, Copy, PartialEq, Eq, Structural, Debug)]
pub enum VideoIdError {
    /// The reply is not JSON.
    NotJson,
    /// The reply holds no string under `id`.
    NotFound,
}

/// The identifier of an uploaded video: the string under `id` in the JSON
/// reply of the upload.
pub fn video_id_from_reply(reply: &str) -> (id: Result<String, VideoIdError>)
    ensures
        match json_str_field_of(reply@, "id"@) {
            None => id == Err::<String, VideoIdError>(VideoIdError::NotJson),
            Some(None) => id == Err::<String, VideoIdError>(VideoIdError::NotFound),
            Some(Some(v)) => id matches Ok(s) && s@ == v,
        },
{
    match json_str_field(reply, "id") {
        None => Err(VideoIdError::NotJson),
        Some(None) => Err(VideoIdError::NotFound),
        Some(Some(v)) => Ok(v),
    }
}

/// Where an uploaded video can be watched.
pub fn video_url(video_id: &str) -> (url: String)
    ensures
        url@ == "https://www.youtube.com/watch?v="@ + video_id@,
{
    let mut url = String::from_str("https://www.youtube.com/watch?v=");
    url.append(video_id);
    url
}

} // verus!
