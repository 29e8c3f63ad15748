use cordiale::address::WebUrl;
use cordiale::media::{
    check_status, find_links, is_openable, link_target, opens_url, target_of_url, Download, FetchError,
    LinkTarget,
};

fn hrefs(text: &str) -> Vec<(String, String)> {
    find_links(text)
        .into_iter()
        .map(|link| (text[link.range].to_string(), link.href))
        .collect()
}

#[test]
fn finds_links_like_cicchetto() {
    assert_eq!(
        hrefs("see https://x.com/a. and (http://w.org/wiki/A_(b)) ok"),
        vec![
            ("https://x.com/a".to_string(), "https://x.com/a".to_string()),
            (
                "http://w.org/wiki/A_(b)".to_string(),
                "http://w.org/wiki/A_(b)".to_string()
            ),
        ]
    );
    assert_eq!(
        hrefs("www.rust-lang.org, example.com/docs! node.js 1.2.3 example.com"),
        vec![
            (
                "www.rust-lang.org".to_string(),
                "https://www.rust-lang.org".to_string()
            ),
            (
                "example.com/docs".to_string(),
                "https://example.com/docs".to_string()
            ),
        ]
    );
    assert_eq!(
        hrefs("<https://a.b/c>"),
        vec![("https://a.b/c".to_string(), "https://a.b/c".to_string())]
    );
    assert!(find_links("ftp:// and http:// alone").is_empty());
    assert!(find_links("user@host.org/x mail").is_empty());
}

#[test]
fn link_targets_follow_the_upload_and_extension() {
    let base = "https://grappa.example";
    assert_eq!(
        link_target("https://grappa.example/uploads/abc.png", base),
        LinkTarget::Image
    );
    assert_eq!(
        link_target("https://grappa.example/uploads/abc.md", base),
        LinkTarget::Text
    );
    assert_eq!(
        link_target("https://grappa.example/uploads/abc.mp4", base),
        LinkTarget::Browser
    );
    assert_eq!(
        link_target("https://elsewhere.org/cat.JPG", base),
        LinkTarget::Image
    );
    assert_eq!(
        link_target("http://elsewhere.org/cat.jpg", base),
        LinkTarget::Browser
    );
    assert_eq!(
        link_target("https://elsewhere.org/notes.txt", base),
        LinkTarget::Browser
    );
    assert_eq!(
        link_target("http://grappa.example:8443/uploads/a.png", base),
        LinkTarget::Browser
    );
    let spaced = "a\u{3000}https://x.io/p";
    assert_eq!(find_links(spaced)[0].range, 4..spaced.len());
    assert!(is_openable("ftp://a.b/c"));
    assert!(!is_openable("javascript:alert(1)"));
    assert!(!is_openable("file:///etc/passwd"));
}

fn web(scheme: &str, host: &str, port: u16, path: &str) -> Option<WebUrl> {
    Some(WebUrl {
        scheme: scheme.to_string(),
        host: Some(host.to_string()),
        port: Some(port),
        path: path.to_string(),
    })
}

#[test]
fn links_stand_apart_in_the_text() {
    let text = "a http://x.io/1 http://y.io/2, www.z.org/3";
    let links = find_links(text);
    assert_eq!(links.len(), 3);
    for pair in links.windows(2) {
        assert!(pair[0].range.end <= pair[1].range.start);
    }
    assert_eq!(&text[links[1].range.clone()], "http://y.io/2");
}

#[test]
fn only_the_servers_texts_open_in_the_app() {
    let base = web("https", "grappa.example", 443, "/");
    let text = web("https", "grappa.example", 443, "/uploads/a.txt");
    assert_eq!(target_of_url(text, base.clone()), LinkTarget::Text);
    let other = web("https", "elsewhere.org", 443, "/uploads/a.txt");
    assert_eq!(target_of_url(other, base.clone()), LinkTarget::Browser);
    let image = web("https", "elsewhere.org", 443, "/a.png");
    assert_eq!(target_of_url(image, base.clone()), LinkTarget::Image);
    let plain = web("http", "elsewhere.org", 80, "/a.png");
    assert_eq!(target_of_url(plain, base.clone()), LinkTarget::Browser);
    assert_eq!(target_of_url(None, base), LinkTarget::Browser);
    assert!(opens_url(web("https", "a.b", 443, "/")));
    assert!(!opens_url(None));
}

#[test]
fn refused_downloads_say_why() {
    assert_eq!(check_status(200), Ok(()));
    assert_eq!(check_status(404), Err(FetchError::Gone));
    assert_eq!(check_status(410), Err(FetchError::Gone));
    assert_eq!(
        check_status(500),
        Err(FetchError::Failed("HTTP 500".to_string()))
    );
}

#[test]
fn downloads_stop_at_their_limit() {
    let mut cut = Download::new(4, true);
    assert_eq!(cut.push(b"abc"), Ok(false));
    assert_eq!(cut.push(b"def"), Ok(true));
    assert_eq!(cut.bytes, b"abcd");
    let mut whole = Download::new(4, false);
    assert_eq!(whole.push(b"abcd"), Ok(false));
    assert_eq!(whole.push(b"e"), Err(FetchError::TooLarge));
    assert_eq!(whole.bytes, b"abcd");
}

#[test]
fn the_chunks_of_a_body_do_not_matter() {
    let body = b"0123456789";
    for size in 1..=11 {
        for max in 0..=12 {
            let mut cut = Download::new(max, true);
            let over = body
                .chunks(size)
                .any(|chunk| cut.push(chunk).expect("a cut"));
            assert_eq!(over, max < 10);
            assert_eq!(cut.bytes, body[..max.min(10)]);
            let mut whole = Download::new(max, false);
            let refused = body.chunks(size).any(|chunk| whole.push(chunk).is_err());
            assert_eq!(refused, max < 10);
        }
    }
}
