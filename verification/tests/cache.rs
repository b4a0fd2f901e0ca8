use flagpick::cache::{is_record_file_name, CacheError, CacheKey, SchemaCache, CACHE_VERSION, MAX_CACHE_BYTES};
use flagpick::schema::{
    CommandSpec, Confidence, ExecutableIdentity, HelpSource, SchemaDocument, SpecMetadata,
    SCHEMA_VERSION,
};
use std::collections::BTreeMap;
use std::path::PathBuf;

fn document() -> SchemaDocument {
    SchemaDocument::new(CommandSpec {
        executable: ExecutableIdentity { name: "demo".into(), path: Some("/tmp/demo".into()) },
        name: "demo".into(),
        description: None,
        usage: vec![],
        subcommands: vec![],
        options: vec![],
        positionals: vec![],
        metadata: SpecMetadata {
            source: HelpSource::GenericHelp,
            parser: Some("test".into()),
            confidence: Confidence::Medium,
            executable_version: None,
            fingerprint: Some("fingerprint".into()),
            extensions: BTreeMap::new(),
        },
    })
}

#[test]
fn keys_compare_by_every_field() {
    let key = CacheKey::new("/tmp/demo", "one", vec!["demo".into()], "generic-v1");
    assert_eq!(key.schema_version, SCHEMA_VERSION);
    let same = CacheKey::new("/tmp/demo", "one", vec!["demo".into()], "generic-v1");
    assert!(key.same_as(&same));
    let changed = CacheKey::new("/tmp/demo", "two", vec!["demo".into()], "generic-v1");
    assert!(!key.same_as(&changed));
    let other_args = CacheKey::new("/tmp/demo", "one", vec!["demo".into(), "x".into()], "generic-v1");
    assert!(!key.same_as(&other_args));
}

#[test]
fn records_are_served_only_when_current() {
    let cache = SchemaCache::new(PathBuf::from("/tmp/flagpick-test"));
    assert_eq!(cache.root(), &PathBuf::from("/tmp/flagpick-test"));
    let key = CacheKey::new("/tmp/demo", "one", vec!["demo".into()], "generic-v1");
    let changed = CacheKey::new("/tmp/demo", "two", vec!["demo".into()], "generic-v1");
    assert!(cache.record_is_current(CACHE_VERSION, &key, &key, &document()));
    assert!(!cache.record_is_current(CACHE_VERSION + 1, &key, &key, &document()));
    assert!(!cache.record_is_current(CACHE_VERSION, &changed, &key, &document()));
    let mut invalid = document();
    invalid.root.name = " demo".into();
    assert!(!cache.record_is_current(CACHE_VERSION, &key, &key, &invalid));
}

#[test]
fn records_must_be_valid_and_bounded() {
    let cache = SchemaCache::new(PathBuf::from("/tmp/flagpick-test"));
    assert!(cache.fits(MAX_CACHE_BYTES));
    assert!(!cache.fits(MAX_CACHE_BYTES + 1));
    assert!(cache.check_record(&document(), 10).is_ok());
    assert!(matches!(cache.check_record(&document(), MAX_CACHE_BYTES + 1), Err(CacheError::RecordTooLarge)));
    let mut invalid = document();
    invalid.schema_version = 9;
    assert!(matches!(cache.check_record(&invalid, 10), Err(CacheError::InvalidDocument)));
}

#[test]
fn cache_errors_describe_themselves() {
    assert_eq!(CacheError::InvalidDocument.message(), "cache document failed schema validation");
    assert_eq!(CacheError::RecordTooLarge.message(), "cache record exceeds the safety limit");
    assert_eq!(CacheError::Io(std::io::Error::other("disk")).message(), "cache I/O error: disk");
    let json = serde_json::from_str::<serde_json::Value>("{").unwrap_err();
    assert!(CacheError::Json(json).message().starts_with("cache JSON error: "));
}

#[test]
fn record_file_names_follow_the_grammar() {

    assert!(is_record_file_name("0123456789abcdef.json"));
    assert!(!is_record_file_name("0123456789ABCDEF.json"));
    assert!(!is_record_file_name("0123456789abcdef.tmp"));
    assert!(!is_record_file_name("notes.json"));
    assert!(!is_record_file_name(""));
}
