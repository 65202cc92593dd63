use manifest_updater::walker::ManifestWalker;

fn name(x: &str) -> String {
    x.to_owned()
}

#[test]
fn walker_yields_visible_json_files() {
    let mut w = ManifestWalker::new(".".to_owned(), "./updates.json".to_owned());
    assert_eq!(w.next_dir(), Some(".".to_owned()));
    assert_eq!(w.offer_entry(&name("a.json"), false), Some("./a.json".to_owned()));
    assert_eq!(w.offer_entry(&name("b.txt"), false), None);
    assert_eq!(w.offer_entry(&name("json"), false), None);
    assert_eq!(w.next_dir(), None);
}

#[test]
fn walker_descends_into_visible_directories() {
    let mut w = ManifestWalker::new(".".to_owned(), "./updates.json".to_owned());
    assert_eq!(w.next_dir(), Some(".".to_owned()));
    assert_eq!(w.offer_entry(&name("sub"), true), None);
    assert_eq!(w.next_dir(), Some("./sub".to_owned()));
    assert_eq!(
        w.offer_entry(&name("c.json"), false),
        Some("./sub/c.json".to_owned())
    );
    assert_eq!(w.next_dir(), None);
}

#[test]
fn walker_prunes_hidden_directories() {
    let mut w = ManifestWalker::new(".".to_owned(), "./updates.json".to_owned());
    assert_eq!(w.next_dir(), Some(".".to_owned()));
    // A manifest under .git/some.json is never visited: the hidden directory
    // is not queued, so the traversal ends without reading it.
    assert_eq!(w.offer_entry(&name(".git"), true), None);
    assert_eq!(w.offer_entry(&name(".hidden.json"), false), None);
    assert_eq!(w.next_dir(), None);
}

#[test]
fn walker_skips_the_feed_path() {
    let mut w = ManifestWalker::new(".".to_owned(), "./updates.json".to_owned());
    assert_eq!(w.next_dir(), Some(".".to_owned()));
    assert_eq!(w.offer_entry(&name("updates.json"), false), None);
    assert_eq!(
        w.offer_entry(&name("other.json"), false),
        Some("./other.json".to_owned())
    );
}

#[test]
fn walker_root_is_exempt_from_the_hidden_rule() {
    let mut w = ManifestWalker::new(".".to_owned(), "x".to_owned());
    assert_eq!(w.next_dir(), Some(".".to_owned()));
}
