use adm::batch::{expand_pattern, extract_urls, parse_batch};

#[test]
fn extract_urls_from_text() {
    let t = "lihat http://a.com/x.zip dan \"https://b.com/y.rar\", juga ftp://no.com";
    assert_eq!(
        extract_urls(t),
        vec!["http://a.com/x.zip".to_string(), "https://b.com/y.rar".to_string()]
    );
}

#[test]
fn extract_urls_dedup() {
    let t = "http://a.com/x http://a.com/x";
    assert_eq!(extract_urls(t).len(), 1);
}

#[test]
fn expand_simple_range() {
    let v = expand_pattern("http://s/f[1-3].zip");
    assert_eq!(v, vec!["http://s/f1.zip", "http://s/f2.zip", "http://s/f3.zip"]);
}

#[test]
fn expand_zero_padded() {
    let v = expand_pattern("http://s/f[08-10].bin");
    assert_eq!(v, vec!["http://s/f08.bin", "http://s/f09.bin", "http://s/f10.bin"]);
}

#[test]
fn expand_two_ranges_cartesian() {
    let v = expand_pattern("http://s/[1-2]/p[1-2].dat");
    assert_eq!(
        v,
        vec![
            "http://s/1/p1.dat",
            "http://s/1/p2.dat",
            "http://s/2/p1.dat",
            "http://s/2/p2.dat",
        ]
    );
}

#[test]
fn expand_no_range_passthrough() {
    assert_eq!(expand_pattern("http://s/file.zip"), vec!["http://s/file.zip"]);
}

#[test]
fn parse_batch_lines_and_patterns() {
    let t = "http://s/a.zip\n  \nhttp://s/f[1-2].bin\nbukan-url\n";
    assert_eq!(
        parse_batch(t),
        vec!["http://s/a.zip", "http://s/f1.bin", "http://s/f2.bin"]
    );
}

#[test]
fn expand_descending_range_is_literal() {
    assert_eq!(expand_pattern("http://s/f[3-1].zip"), vec!["http://s/f[3-1].zip"]);
}

#[test]
fn expand_unclosed_bracket_is_literal() {
    assert_eq!(expand_pattern("http://s/f[1-3.zip"), vec!["http://s/f[1-3.zip"]);
}

#[test]
fn extract_urls_needs_more_than_scheme() {
    assert!(extract_urls("http://a https://").is_empty());
    assert_eq!(extract_urls("(http://abc.de/f)"), vec!["http://abc.de/f".to_string()]);
}

#[test]
fn parse_batch_empty_text() {
    assert!(parse_batch("").is_empty());
    assert!(parse_batch("\n\n  \n").is_empty());
}

#[test]
fn parse_batch_drops_repeats_across_lines() {
    let t = "http://s/f[1-2].bin\nhttp://s/f2.bin\n http://s/f1.bin ";
    assert_eq!(parse_batch(t), vec!["http://s/f1.bin", "http://s/f2.bin"]);
}

#[test]
fn expand_skips_non_numeric_groups() {
    assert_eq!(
        expand_pattern("http://s/[a]/f[1-2].zip"),
        vec!["http://s/[a]/f1.zip", "http://s/[a]/f2.zip"]
    );
    assert_eq!(expand_pattern("http://s/[x-y]/[2-3]"), vec!["http://s/[x-y]/2", "http://s/[x-y]/3"]);
    assert_eq!(expand_pattern("http://s/[a]/b"), vec!["http://s/[a]/b"]);
}
