use aegis_proxy::autoindex::{encode_uri_path, generate_html, listing_entries, DirEntry};

fn entry(name: &str, is_dir: bool, size: u64, mtime_secs: u64) -> DirEntry {
    DirEntry { name: name.to_string(), is_dir, size, mtime_secs }
}

#[test]
fn test_encode_uri_path_keeps_unreserved() {
    assert_eq!(encode_uri_path("Az09-_.~"), "Az09-_.~");
}

#[test]
fn test_encode_uri_path_escapes_bytes() {
    assert_eq!(encode_uri_path("a b/c?"), "a%20b%2Fc%3F");
    assert_eq!(encode_uri_path("ü"), "%C3%BC");
    assert_eq!(encode_uri_path(""), "");
}

#[test]
fn test_listing_order_parent_dirs_files() {
    let found = vec![
        entry("zeta.txt", false, 1, 0),
        entry("beta", true, 0, 0),
        entry("alpha.txt", false, 2, 0),
        entry("Gamma", true, 0, 0),
    ];
    let out = listing_entries("/somedir/", found);
    let names: Vec<&str> = out.iter().map(|e| e.name.as_str()).collect();
    assert_eq!(names, vec!["..", "Gamma", "beta", "alpha.txt", "zeta.txt"]);
    assert!(out[0].is_dir);
}

#[test]
fn test_listing_root_has_no_parent() {
    let out = listing_entries("/", vec![entry("a.txt", false, 0, 0)]);
    assert_eq!(out.len(), 1);
    assert_eq!(out[0].name, "a.txt");
    let out = listing_entries("", vec![]);
    assert!(out.is_empty());
}

#[test]
fn test_html_listing_links() {
    let entries = listing_entries(
        "/somedir/",
        vec![entry("test.txt", false, 12, 0), entry("subdir", true, 0, 0)],
    );
    let html = generate_html(&entries, "/somedir/");
    assert!(html.contains("<title>Index of /somedir/</title>"));
    assert!(html.contains("<a href=\"../\">..</a>"));
    assert!(html.contains("<a href=\"/somedir/subdir/\">subdir/</a>"));
    assert!(html.contains("<a href=\"/somedir/test.txt\">test.txt</a>"));
    assert!(html.contains("<td>12</td>"));
    assert!(html.ends_with("</table><hr></body></html>"));
}

#[test]
fn test_html_listing_escapes_and_dates() {
    let entries = vec![entry("a<b>&c", false, 5, 86400)];
    let html = generate_html(&entries, "/x");
    assert!(html.contains("Index of /x</h1>"));
    assert!(html.contains(
        "<tr><td><a href=\"/x/a%3Cb%3E%26c\">a&lt;b&gt;&amp;c</a></td><td>1970-01-02 00:00:00</td><td>5</td></tr>"
    ));
}

#[test]
fn test_html_listing_unknown_time() {
    let entries = vec![entry("d", true, 0, 0)];
    let html = generate_html(&entries, "");
    assert!(html.contains("<tr><td><a href=\"/d/\">d/</a></td><td>-</td><td>-</td></tr>"));
}
