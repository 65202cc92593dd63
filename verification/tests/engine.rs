use manifest_updater::catalog::UpdateCatalog;
use manifest_updater::errors::UpdateError;
use manifest_updater::json::{json_eq, Field, Json};
use manifest_updater::merge::merge;
use manifest_updater::resolve::resolve;
use manifest_updater::updater::update_manifest;

fn s(x: &str) -> Json {
    Json::Str(x.to_owned())
}

fn fields(pairs: Vec<(&str, Json)>) -> Vec<Field> {
    pairs
        .into_iter()
        .map(|(k, v)| Field { key: k.to_owned(), value: v })
        .collect()
}

fn obj(pairs: Vec<(&str, Json)>) -> Json {
    Json::Obj(fields(pairs))
}

fn feed_one_update() -> Json {
    obj(vec![(
        "updates",
        Json::Arr(vec![obj(vec![
            ("name", s("foo")),
            (
                "sources",
                Json::Arr(vec![obj(vec![
                    ("url__exact", s("http://x/1.0.tar.gz")),
                    ("url", s("http://x/2.0.tar.gz")),
                    ("sha256", s("NEW")),
                ])]),
            ),
        ])]),
    )])
}

#[test]
fn resolve_returns_single_exact_key() {
    let delta = fields(vec![
        ("type", s("archive")),
        ("url__exact", s("http://x/1.0.tar.gz")),
        ("url", s("http://x/2.0.tar.gz")),
    ]);
    assert_eq!(resolve(&delta).unwrap(), "url__exact".to_owned());
}

#[test]
fn resolve_rejects_delta_without_exact_key() {
    let delta = fields(vec![("url", s("http://x/2.0.tar.gz"))]);
    assert_eq!(resolve(&delta).unwrap_err(), UpdateError::IdentifierNotFound);
}

#[test]
fn resolve_rejects_delta_with_two_exact_keys() {
    let delta = fields(vec![
        ("url__exact", s("a")),
        ("sha256__exact", s("b")),
        ("url", s("c")),
    ]);
    assert_eq!(resolve(&delta).unwrap_err(), UpdateError::IdentifierNotFound);
}

#[test]
fn merge_overwrites_matching_stanza() {
    let stanza = fields(vec![
        ("type", s("archive")),
        ("url", s("http://x/1.0.tar.gz")),
        ("sha256", s("OLD")),
    ]);
    let delta = fields(vec![
        ("url__exact", s("http://x/1.0.tar.gz")),
        ("url", s("http://x/2.0.tar.gz")),
        ("sha256", s("NEW")),
    ]);
    let merged = merge(&stanza, &delta, &"url__exact".to_owned());
    let expected = fields(vec![
        ("type", s("archive")),
        ("url", s("http://x/2.0.tar.gz")),
        ("sha256", s("NEW")),
    ]);
    assert!(json_eq(&Json::Obj(merged), &Json::Obj(expected)));
}

#[test]
fn merge_appends_fields_the_stanza_lacks() {
    let stanza = fields(vec![("url", s("http://x/1.0.tar.gz"))]);
    let delta = fields(vec![
        ("url__exact", s("http://x/1.0.tar.gz")),
        ("sha256", s("NEW")),
    ]);
    let merged = merge(&stanza, &delta, &"url__exact".to_owned());
    let expected = fields(vec![
        ("url", s("http://x/1.0.tar.gz")),
        ("sha256", s("NEW")),
    ]);
    assert!(json_eq(&Json::Obj(merged), &Json::Obj(expected)));
}

#[test]
fn merge_leaves_unmatched_stanza_unchanged() {
    let stanza = fields(vec![
        ("url", s("http://x/0.9.tar.gz")),
        ("sha256", s("OLD")),
    ]);
    let delta = fields(vec![
        ("url__exact", s("http://x/1.0.tar.gz")),
        ("url", s("http://x/2.0.tar.gz")),
        ("sha256", s("NEW")),
    ]);
    let merged = merge(&stanza, &delta, &"url__exact".to_owned());
    let expected = fields(vec![
        ("url", s("http://x/0.9.tar.gz")),
        ("sha256", s("OLD")),
    ]);
    assert!(json_eq(&Json::Obj(merged), &Json::Obj(expected)));
}

#[test]
fn merge_never_writes_the_identifier_key() {
    let stanza = fields(vec![("url", s("http://x/1.0.tar.gz"))]);
    let delta = fields(vec![
        ("url__exact", s("http://x/1.0.tar.gz")),
        ("url", s("http://x/2.0.tar.gz")),
    ]);
    let merged = merge(&stanza, &delta, &"url__exact".to_owned());
    assert!(merged.iter().all(|f| f.key != "url__exact"));
}

#[test]
fn merge_twice_equals_merge_once() {
    let stanza = fields(vec![
        ("url", s("http://x/1.0.tar.gz")),
        ("sha256", s("OLD")),
    ]);
    let delta = fields(vec![
        ("url__exact", s("http://x/1.0.tar.gz")),
        ("url", s("http://x/2.0.tar.gz")),
        ("sha256", s("NEW")),
        ("size", Json::Atom("123".to_owned())),
    ]);
    let ident = "url__exact".to_owned();
    let once = merge(&stanza, &delta, &ident);
    let twice = merge(&once, &delta, &ident);
    assert!(json_eq(&Json::Obj(twice), &Json::Obj(once)));
}

#[test]
fn merge_overwrites_across_value_types() {
    let stanza = fields(vec![
        ("url", s("http://x/1.0.tar.gz")),
        ("size", s("unknown")),
    ]);
    let delta = fields(vec![
        ("url__exact", s("http://x/1.0.tar.gz")),
        ("size", Json::Atom("123".to_owned())),
    ]);
    let merged = merge(&stanza, &delta, &"url__exact".to_owned());
    let expected = fields(vec![
        ("url", s("http://x/1.0.tar.gz")),
        ("size", Json::Atom("123".to_owned())),
    ]);
    assert!(json_eq(&Json::Obj(merged), &Json::Obj(expected)));
}

#[test]
fn merge_twice_when_stanza_still_matches() {
    let stanza = fields(vec![
        ("url", s("http://x/1.0.tar.gz")),
        ("sha256", s("OLD")),
    ]);
    let delta = fields(vec![
        ("url__exact", s("http://x/1.0.tar.gz")),
        ("sha256", s("NEW")),
    ]);
    let ident = "url__exact".to_owned();
    let once = merge(&stanza, &delta, &ident);
    let expected = fields(vec![
        ("url", s("http://x/1.0.tar.gz")),
        ("sha256", s("NEW")),
    ]);
    let twice = merge(&once, &delta, &ident);
    let expected_doc = Json::Obj(expected);
    assert!(json_eq(&Json::Obj(once), &expected_doc));
    assert!(json_eq(&Json::Obj(twice), &expected_doc));
}

#[test]
fn catalog_build_and_lookup() {
    let catalog = UpdateCatalog::build(&feed_one_update()).unwrap();
    assert!(catalog.lookup(&"foo".to_owned()).is_ok());
    assert_eq!(
        catalog.lookup(&"bar".to_owned()).unwrap_err(),
        UpdateError::UpdateNotFound
    );
}

#[test]
fn catalog_build_rejects_feed_without_updates_array() {
    let feed = obj(vec![("packages", Json::Arr(vec![]))]);
    assert_eq!(
        UpdateCatalog::build(&feed).unwrap_err(),
        UpdateError::FeedSchema
    );
}

#[test]
fn catalog_build_rejects_entry_without_name() {
    let feed = obj(vec![(
        "updates",
        Json::Arr(vec![obj(vec![("sources", Json::Arr(vec![]))])]),
    )]);
    assert_eq!(
        UpdateCatalog::build(&feed).unwrap_err(),
        UpdateError::FeedSchema
    );
}

#[test]
fn catalog_build_rejects_non_object_delta() {
    let feed = obj(vec![(
        "updates",
        Json::Arr(vec![obj(vec![
            ("name", s("foo")),
            ("sources", Json::Arr(vec![s("not an object")])),
        ])]),
    )]);
    assert_eq!(
        UpdateCatalog::build(&feed).unwrap_err(),
        UpdateError::FeedSchema
    );
}

#[test]
fn update_manifest_end_to_end() {
    let catalog = UpdateCatalog::build(&feed_one_update()).unwrap();
    let manifest = obj(vec![(
        "modules",
        Json::Arr(vec![obj(vec![
            ("name", s("foo")),
            (
                "sources",
                Json::Arr(vec![obj(vec![
                    ("type", s("archive")),
                    ("url", s("http://x/1.0.tar.gz")),
                    ("sha256", s("OLD")),
                ])]),
            ),
        ])]),
    )]);
    let updated = update_manifest(&manifest, &catalog).unwrap();
    let expected = obj(vec![(
        "modules",
        Json::Arr(vec![obj(vec![
            ("name", s("foo")),
            (
                "sources",
                Json::Arr(vec![obj(vec![
                    ("type", s("archive")),
                    ("url", s("http://x/2.0.tar.gz")),
                    ("sha256", s("NEW")),
                ])]),
            ),
        ])]),
    )]);
    assert!(json_eq(&updated, &expected));
}

#[test]
fn update_manifest_unknown_module_unchanged() {
    let catalog = UpdateCatalog::build(&feed_one_update()).unwrap();
    let manifest = obj(vec![(
        "modules",
        Json::Arr(vec![obj(vec![
            ("name", s("bar")),
            (
                "sources",
                Json::Arr(vec![obj(vec![("url", s("http://x/1.0.tar.gz"))])]),
            ),
        ])]),
    )]);
    let updated = update_manifest(&manifest, &catalog).unwrap();
    assert!(json_eq(&updated, &manifest));
}

#[test]
fn update_manifest_merges_every_matching_stanza() {
    let catalog = UpdateCatalog::build(&feed_one_update()).unwrap();
    let manifest = obj(vec![(
        "modules",
        Json::Arr(vec![obj(vec![
            ("name", s("foo")),
            (
                "sources",
                Json::Arr(vec![
                    obj(vec![
                        ("url", s("http://x/1.0.tar.gz")),
                        ("sha256", s("OLD-A")),
                    ]),
                    obj(vec![
                        ("url", s("http://x/1.0.tar.gz")),
                        ("sha256", s("OLD-B")),
                    ]),
                ]),
            ),
        ])]),
    )]);
    let updated = update_manifest(&manifest, &catalog).unwrap();
    let expected_stanza = obj(vec![
        ("url", s("http://x/2.0.tar.gz")),
        ("sha256", s("NEW")),
    ]);
    let expected = obj(vec![(
        "modules",
        Json::Arr(vec![obj(vec![
            ("name", s("foo")),
            (
                "sources",
                Json::Arr(vec![
                    expected_stanza,
                    obj(vec![
                        ("url", s("http://x/2.0.tar.gz")),
                        ("sha256", s("NEW")),
                    ]),
                ]),
            ),
        ])]),
    )]);
    assert!(json_eq(&updated, &expected));
}

#[test]
fn update_manifest_rejects_document_without_modules() {
    let catalog = UpdateCatalog::build(&feed_one_update()).unwrap();
    let manifest = obj(vec![("name", s("not a manifest"))]);
    assert_eq!(
        update_manifest(&manifest, &catalog).unwrap_err(),
        UpdateError::ManifestSchema
    );
}

#[test]
fn update_manifest_rejects_module_without_name() {
    let catalog = UpdateCatalog::build(&feed_one_update()).unwrap();
    let manifest = obj(vec![(
        "modules",
        Json::Arr(vec![obj(vec![("sources", Json::Arr(vec![]))])]),
    )]);
    assert_eq!(
        update_manifest(&manifest, &catalog).unwrap_err(),
        UpdateError::ManifestSchema
    );
}

#[test]
fn update_manifest_rejects_catalogued_module_without_sources() {
    let catalog = UpdateCatalog::build(&feed_one_update()).unwrap();
    let manifest = obj(vec![(
        "modules",
        Json::Arr(vec![obj(vec![("name", s("foo"))])]),
    )]);
    assert_eq!(
        update_manifest(&manifest, &catalog).unwrap_err(),
        UpdateError::ManifestSchema
    );
}

#[test]
fn update_manifest_accepts_uncatalogued_module_without_sources() {
    let catalog = UpdateCatalog::build(&feed_one_update()).unwrap();
    let manifest = obj(vec![(
        "modules",
        Json::Arr(vec![obj(vec![("name", s("bar"))])]),
    )]);
    let updated = update_manifest(&manifest, &catalog).unwrap();
    assert!(json_eq(&updated, &manifest));
}

#[test]
fn update_manifest_reports_delta_without_identifier() {
    let feed = obj(vec![(
        "updates",
        Json::Arr(vec![obj(vec![
            ("name", s("foo")),
            (
                "sources",
                Json::Arr(vec![obj(vec![("url", s("http://x/2.0.tar.gz"))])]),
            ),
        ])]),
    )]);
    let catalog = UpdateCatalog::build(&feed).unwrap();
    let manifest = obj(vec![(
        "modules",
        Json::Arr(vec![obj(vec![
            ("name", s("foo")),
            ("sources", Json::Arr(vec![])),
        ])]),
    )]);
    assert_eq!(
        update_manifest(&manifest, &catalog).unwrap_err(),
        UpdateError::IdentifierNotFound
    );
}

#[test]
fn json_eq_tells_strings_from_other_scalars() {
    assert!(!json_eq(
        &Json::Atom("1".to_owned()),
        &Json::Str("1".to_owned())
    ));
    assert!(json_eq(
        &Json::Atom("true".to_owned()),
        &Json::Atom("true".to_owned())
    ));
    let a = Json::Arr(vec![s("x"), obj(vec![("k", s("v"))])]);
    let b = Json::Arr(vec![s("x"), obj(vec![("k", s("v"))])]);
    let c = Json::Arr(vec![s("x"), obj(vec![("k", s("w"))])]);
    assert!(json_eq(&a, &b));
    assert!(!json_eq(&a, &c));
}
