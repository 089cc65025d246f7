use gemserv::listing::{gen_dir_list, DirEntry};
use gemserv::request::GemUrl;

fn dir_url(path: &str) -> GemUrl {
    GemUrl {
        scheme: "gemini".to_string(),
        host: Some("a.example".to_string()),
        port: None,
        path: path.to_string(),
        query: None,
    }
}

fn entry(name: &str, is_dir: bool, mode: u32) -> DirEntry {
    DirEntry { name: name.to_string(), is_dir, mode }
}

#[test]
fn unreadable_entries_are_left_out() {
    // directory with no index file: b.txt readable, c.txt unreadable —
    // exactly one file link appears, for b.txt
    let u = dir_url("/docs/");
    let entries = vec![entry("b.txt", false, 0o644), entry("c.txt", false, 0o200)];
    let body = gen_dir_list(&u, &entries);
    let links: Vec<&str> = body.lines().filter(|l| l.starts_with("=> ")).collect();
    assert_eq!(links.len(), 1);
    assert_eq!(links[0], "=> gemini://a.example/docs/b.txt b.txt");
    assert!(!body.contains("c.txt"));
}

#[test]
fn header_names_the_request_path() {
    let u = dir_url("/docs/");
    let body = gen_dir_list(&u, &Vec::new());
    assert_eq!(body, "# Directory Listing\r\n\r\nPath: /docs/\r\n\r\n");
}

#[test]
fn directories_come_first_each_group_sorted() {
    let u = dir_url("/d/");
    let entries = vec![
        entry("zz.txt", false, 0o644),
        entry("beta", true, 0o755),
        entry("aa.txt", false, 0o644),
        entry("alpha", true, 0o755),
    ];
    let body = gen_dir_list(&u, &entries);
    let expected = "# Directory Listing\r\n\r\nPath: /d/\r\n\r\n\
                    => gemini://a.example/d/alpha/ alpha/\r\n\
                    => gemini://a.example/d/beta/ beta/\r\n\
                    => gemini://a.example/d/aa.txt aa.txt\r\n\
                    => gemini://a.example/d/zz.txt zz.txt\r\n";
    assert_eq!(body, expected);
}

#[test]
fn directory_links_are_slash_suffixed() {
    let u = dir_url("/d/");
    let entries = vec![entry("sub", true, 0o755)];
    let body = gen_dir_list(&u, &entries);
    assert!(body.contains("=> gemini://a.example/d/sub/ sub/\r\n"));
}
