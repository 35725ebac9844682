use workbench::static_files::{in_directory, index, response_headers, Args};

fn args() -> Args {
    Args { port: 8080, storage_path: "./files".to_string() }
}

fn header_pairs(h: &[(String, String); 2]) -> Vec<(&str, &str)> {
    h.iter().map(|(k, v)| (k.as_str(), v.as_str())).collect()
}

#[test]
fn brotli_files_are_served_as_compressed_wasm() {
    let r = in_directory(&args(), "pkg/app_bg.wasm.br");
    assert_eq!(r.path, "./files/pkg/app_bg.wasm.br");
    assert_eq!(header_pairs(&r.headers), vec![("Content-Type", "application/wasm"), ("Content-Encoding", "br")]);
}

#[test]
fn other_files_get_their_guessed_media_type() {
    let r = in_directory(&args(), "/style.css");
    assert_eq!(r.path, "./files/style.css");
    assert_eq!(header_pairs(&r.headers), vec![("Content-Type", "text/css"), ("placeholder", "value")]);
}

#[test]
fn unknown_extensions_are_octet_streams() {
    let r = in_directory(&args(), "/data.unknownext");
    assert_eq!(header_pairs(&r.headers), vec![("Content-Type", "application/octet-stream"), ("placeholder", "value")]);
    let r = in_directory(&args(), "/README");
    assert_eq!(header_pairs(&r.headers), vec![("Content-Type", "application/octet-stream"), ("placeholder", "value")]);
}

#[test]
fn index_serves_index_html() {
    let r = index(&args());
    assert_eq!(r.path, "./files/index.html");
    assert_eq!(header_pairs(&r.headers), vec![("Content-Type", "text/html"), ("placeholder", "value")]);
}

#[test]
fn headers_from_extension_and_media_type() {
    let h = response_headers(Some("br".to_string()), Some("x/y".to_string()));
    assert_eq!(header_pairs(&h), vec![("Content-Type", "application/wasm"), ("Content-Encoding", "br")]);
    let h = response_headers(Some("txt".to_string()), Some("text/plain".to_string()));
    assert_eq!(header_pairs(&h), vec![("Content-Type", "text/plain"), ("placeholder", "value")]);
    let h = response_headers(None, None);
    assert_eq!(header_pairs(&h), vec![("Content-Type", "application/octet-stream"), ("placeholder", "value")]);
}

#[test]
fn a_leading_slash_is_added_once() {
    assert_eq!(in_directory(&args(), "a/b.txt").path, in_directory(&args(), "/a/b.txt").path);
    assert_eq!(in_directory(&args(), "//x").path, "./files//x");
}
