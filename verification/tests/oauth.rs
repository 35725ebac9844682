use workbench::oauth::{
    callback_url, find_value, read_redirect, redirect_from_pairs, redirect_response, video_id_from_reply, video_url, Redirect, RedirectError,
    VideoIdError,
};

fn pairs(list: &[(&str, &str)]) -> Vec<(String, String)> {
    list.iter().map(|(k, v)| (k.to_string(), v.to_string())).collect()
}

#[test]
fn read_redirect_finds_code_and_state() {
    let r = read_redirect("GET /?state=xyz&code=4%2F0abc&scope=email HTTP/1.1");
    assert_eq!(r, Ok(Redirect { code: "4/0abc".to_string(), state: "xyz".to_string() }));
}

#[test]
fn read_redirect_errors() {
    assert_eq!(read_redirect("GET"), Err(RedirectError::NoTarget));
    assert_eq!(read_redirect("   "), Err(RedirectError::NoTarget));
    assert_eq!(read_redirect("GET /?state=1 HTTP/1.1"), Err(RedirectError::MissingCode));
    assert_eq!(read_redirect("GET /?code=1 HTTP/1.1"), Err(RedirectError::MissingState));
    assert_eq!(read_redirect("GET :99999 HTTP/1.1"), Err(RedirectError::BadUrl));
}

#[test]
fn the_first_pair_of_a_key_counts() {
    let p = pairs(&[("code", "a"), ("state", "s"), ("code", "b")]);
    assert_eq!(find_value(&p, "code"), Some("a".to_string()));
    assert_eq!(find_value(&p, "nope"), None);
    assert_eq!(redirect_from_pairs(&p), Ok(Redirect { code: "a".to_string(), state: "s".to_string() }));
    assert_eq!(redirect_from_pairs(&pairs(&[("state", "s")])), Err(RedirectError::MissingCode));
    assert_eq!(redirect_from_pairs(&pairs(&[("code", "c")])), Err(RedirectError::MissingState));
}

#[test]
fn callback_and_video_addresses() {
    assert_eq!(callback_url("/?code=1"), "http://localhost/?code=1");
    assert_eq!(video_url("abc123"), "https://www.youtube.com/watch?v=abc123");
}

#[test]
fn response_counts_the_bytes_of_the_message() {
    assert_eq!(
        redirect_response("Go back to your terminal :)"),
        "HTTP/1.1 200 OK\r\ncontent-length: 27\r\n\r\nGo back to your terminal :)"
    );
    assert_eq!(redirect_response("é"), "HTTP/1.1 200 OK\r\ncontent-length: 2\r\n\r\né");
    assert_eq!(redirect_response(""), "HTTP/1.1 200 OK\r\ncontent-length: 0\r\n\r\n");
}

#[test]
fn video_id_is_read_from_the_reply() {
    assert_eq!(video_id_from_reply(r#"{"kind": "youtube#video", "id": "abc123"}"#), Ok("abc123".to_string()));
    assert_eq!(video_id_from_reply(r#"{"id": 5}"#), Err(VideoIdError::NotFound));
    assert_eq!(video_id_from_reply(r#"[1, 2]"#), Err(VideoIdError::NotFound));
    assert_eq!(video_id_from_reply("not json"), Err(VideoIdError::NotJson));
}
