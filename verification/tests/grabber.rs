use adm::grabber::{add_joined_link, extract_links, is_downloadable_link};

const BASE: &str = "http://site.test/dir/page.html";

#[test]
fn absolute_and_relative() {
    let html = r#"<a href="https://cdn.x/a.zip">a</a> <a href='/b.rar'>b</a> <a href="c.pdf">c</a>"#;
    assert_eq!(
        extract_links(html, BASE),
        vec![
            "https://cdn.x/a.zip".to_string(),
            "http://site.test/b.rar".to_string(),
            "http://site.test/dir/c.pdf".to_string(),
        ]
    );
}

#[test]
fn skips_non_downloadable_and_dedups() {
    let html = r#"<a href="page2.html">x</a><a href="a.zip">1</a><a href="a.zip">2</a>"#;
    assert_eq!(extract_links(html, BASE), vec!["http://site.test/dir/a.zip"]);
}

#[test]
fn picks_up_src_attr() {
    let html = r#"<img src="/img/logo.png"><script src="app.js"></script>"#;
    assert_eq!(extract_links(html, BASE), vec!["http://site.test/img/logo.png"]);
}

#[test]
fn ignores_mailto_and_anchors() {
    let html = r##"<a href="mailto:x@y.z">m</a><a href="#top">t</a><a href="movie.mp4">v</a>"##;
    assert_eq!(extract_links(html, BASE), vec!["http://site.test/dir/movie.mp4"]);
}

#[test]
fn bad_base_yields_nothing() {
    let html = r#"<a href="a.zip">1</a>"#;
    assert!(extract_links(html, "not a url").is_empty());
}

#[test]
fn downloadable_link_rules() {
    assert!(is_downloadable_link("https", "/x/a.ZIP"));
    assert!(is_downloadable_link("http", "/a.tar.gz"));
    assert!(!is_downloadable_link("ftp", "/a.zip"));
    assert!(!is_downloadable_link("http", "/index.html"));
    assert!(!is_downloadable_link("http", "/dir.d/noext"));
}

#[test]
fn joined_links_are_filtered_and_deduplicated() {
    let mut out: Vec<String> = Vec::new();
    let j = |s: &str, sc: &str, p: &str| Some((s.to_string(), sc.to_string(), p.to_string()));
    add_joined_link(&mut out, j("http://h/a.zip", "http", "/a.zip"));
    add_joined_link(&mut out, j("http://h/a.zip", "http", "/a.zip"));
    add_joined_link(&mut out, j("http://h/page.html", "http", "/page.html"));
    add_joined_link(&mut out, j("ftp://h/b.zip", "ftp", "/b.zip"));
    add_joined_link(&mut out, None);
    add_joined_link(&mut out, j("https://h/B.PDF", "https", "/B.PDF"));
    assert_eq!(out, vec!["http://h/a.zip".to_string(), "https://h/B.PDF".to_string()]);
}
