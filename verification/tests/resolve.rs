use iv::resolve::{canonicalize_path, decode_request, join_request, AbsPath, Args, Probe};

fn args(traverse: bool) -> Args {
    Args {
        dir: None,
        host: String::from("127.0.0.1"),
        port: 8080,
        no_open: true,
        verbose: false,
        trace: false,
        traverse,
    }
}

fn path(segments: &[&str]) -> AbsPath {
    AbsPath { segments: segments.iter().map(|s| s.as_bytes().to_vec()).collect() }
}

fn segs(p: &AbsPath) -> Vec<String> {
    p.segments.iter().map(|s| String::from_utf8(s.clone()).unwrap()).collect()
}

#[test]
fn decode_plain_path() {
    assert_eq!(decode_request("/a/b.txt"), Some(b"/a/b.txt".to_vec()));
}

#[test]
fn decode_percent_sequences() {
    assert_eq!(decode_request("a%20b"), Some(b"a b".to_vec()));
    assert_eq!(decode_request("%2e%2e%2fsecret"), Some(b"../secret".to_vec()));
}

#[test]
fn decode_invalid_utf8_is_an_error() {
    assert_eq!(decode_request("%FF"), None);
}

#[test]
fn join_strips_the_leading_root_marker() {
    let root = path(&["srv"]);
    let joined = join_request(&root, &b"/etc/passwd".to_vec());
    assert_eq!(segs(&joined), vec!["srv", "etc", "passwd"]);
}

#[test]
fn join_keeps_dot_segments_for_the_filesystem() {
    let root = path(&["srv"]);
    let joined = join_request(&root, &b"x/../y//".to_vec());
    assert_eq!(segs(&joined), vec!["srv", "x", "..", "y"]);
}

#[test]
fn missing_path_resolves_to_nothing() {
    let root = path(&["srv"]);
    let r = canonicalize_path(&b"/gone".to_vec(), &args(true), &root, Probe::Missing, true);
    assert!(r.is_none());
}

#[test]
fn root_resolves_to_itself_without_traversal() {
    let root = path(&["srv"]);
    let probe = Probe::Present { canonical: Some(path(&["srv"])), is_dir: true };
    let r = canonicalize_path(&b"/".to_vec(), &args(false), &root, probe, true);
    assert_eq!(segs(&r.unwrap()), vec!["srv"]);
}

#[test]
fn subpath_is_refused_without_traversal() {
    let root = path(&["srv"]);
    let probe = Probe::Present { canonical: Some(path(&["srv", "sub"])), is_dir: true };
    let r = canonicalize_path(&b"/sub".to_vec(), &args(false), &root, probe, true);
    assert!(r.is_none());
}

#[test]
fn canonical_in_sandbox_path_resolves_to_itself() {
    let root = path(&["srv"]);
    let probe = Probe::Present { canonical: Some(path(&["srv", "sub"])), is_dir: true };
    let r = canonicalize_path(&b"/sub".to_vec(), &args(true), &root, probe, true);
    assert_eq!(segs(&r.unwrap()), vec!["srv", "sub"]);
}

#[test]
fn symlink_escape_is_refused_even_with_traversal() {
    // the joined path exists but canonicalizes outside the root
    let root = path(&["srv"]);
    let probe = Probe::Present { canonical: Some(path(&["etc", "passwd"])), is_dir: false };
    let r = canonicalize_path(&b"/link".to_vec(), &args(true), &root, probe, true);
    assert!(r.is_none());
}

#[test]
fn file_degrades_to_its_directory_for_listing() {
    // a file inside the root, listed without allow_nondir: its parent (the
    // root) is the candidate, so the non-traversal check passes
    let root = path(&["srv"]);
    let probe = Probe::Present { canonical: Some(path(&["srv", "a.txt"])), is_dir: false };
    let r = canonicalize_path(&b"/a.txt".to_vec(), &args(false), &root, probe, false);
    assert_eq!(segs(&r.unwrap()), vec!["srv"]);
}

#[test]
fn failed_canonicalization_falls_back_to_the_joined_path() {
    let root = path(&["srv"]);
    let probe = Probe::Present { canonical: None, is_dir: true };
    let r = canonicalize_path(&b"sub".to_vec(), &args(true), &root, probe, true);
    assert_eq!(segs(&r.unwrap()), vec!["srv", "sub"]);
}

#[test]
fn encoded_traversal_never_escapes() {
    // %2e%2e -> "..": the filesystem canonicalizes the joined path to the
    // parent of the root; containment refuses it in every mode
    let root = path(&["home", "user"]);
    let decoded = decode_request("/%2e%2e").unwrap();
    assert_eq!(decoded, b"/..".to_vec());
    let probe = Probe::Present { canonical: Some(path(&["home"])), is_dir: true };
    for traverse in [false, true] {
        let probe_copy = match &probe {
            Probe::Present { canonical: Some(c), is_dir } => Probe::Present {
                canonical: Some(AbsPath { segments: c.segments.clone() }),
                is_dir: *is_dir,
            },
            _ => unreachable!(),
        };
        let r = canonicalize_path(&decoded, &args(traverse), &root, probe_copy, true);
        assert!(r.is_none());
    }
}
