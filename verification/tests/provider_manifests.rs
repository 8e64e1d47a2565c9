use voxa::graph::FrameType;
use voxa::providers::{
    merge_connections, parse_frame_type, provider_catalog, source_filename, valid_capability, valid_category,
    valid_package_id, validate_connection, validate_provider_manifest, ConnectionFieldManifest, ConnectionManifest,
    ConnectionStore, ProviderManifest, ProviderSdkManifest, SaveError,
};
use voxa::string_set::StringSet;

fn field(name: &str, required: bool, secret: bool) -> ConnectionFieldManifest {
    ConnectionFieldManifest {
        name: name.to_owned(),
        label: format!("{name} label"),
        environment: format!("ENV_{}", name.to_uppercase()),
        secret,
        required,
        client_exposed: false,
        default: String::new(),
        help: String::new(),
        acquire_url: String::new(),
    }
}

fn connection(id: &str, fields: Vec<ConnectionFieldManifest>) -> ConnectionManifest {
    ConnectionManifest {
        id: id.to_owned(),
        display_name: format!("{id} service"),
        description: String::new(),
        fields,
    }
}

fn provider(id: &str) -> ProviderManifest {
    ProviderManifest {
        format: "muxiva.provider/v1".to_owned(),
        provider_id: id.to_owned(),
        display_name: "Provider".to_owned(),
        category: "media".to_owned(),
        summary: "does things".to_owned(),
        vendor: "vendor".to_owned(),
        homepage: String::new(),
        documentation: String::new(),
        license: "MIT".to_owned(),
        sdk: ProviderSdkManifest { name: "sdk".to_owned(), version: "1".to_owned() },
        connections: vec![connection("acme", vec![field("key", true, true)])],
    }
}

#[test]
fn identifiers_categories_and_capabilities() {
    assert!(valid_package_id("speech-to_text9"));
    assert!(!valid_package_id(""));
    assert!(!valid_package_id("Upper"));
    assert!(!valid_package_id(&"a".repeat(65)));
    assert!(valid_category("media"));
    assert!(!valid_category("games"));
    assert!(valid_capability("audio.vad"));
    assert!(!valid_capability("audio..vad"));
    assert!(!valid_capability(".audio"));
    assert!(!valid_capability("audio."));
    assert!(!valid_capability(&format!("{}.x", "a".repeat(65))));
    assert_eq!(source_filename("python"), "node.py");
    assert_eq!(source_filename("cpp"), "node.cpp");
    assert_eq!(source_filename("go"), "node.txt");
    assert_eq!(parse_frame_type("video"), Ok(FrameType::Video));
    assert_eq!(parse_frame_type("smell"), Err("unsupported Frame type `smell`".to_owned()));
}

#[test]
fn connections_are_validated_field_by_field() {
    assert_eq!(validate_connection(&connection("acme", vec![field("key", true, true)])), Ok(()));
    assert_eq!(
        validate_connection(&connection("Acme", vec![field("key", true, true)])),
        Err(SaveError::Invalid("connection id must use 1-64 lowercase letters, digits, '-' or '_'".to_owned()))
    );
    assert_eq!(
        validate_connection(&connection("acme", Vec::new())),
        Err(SaveError::Invalid("connection requires a display name and at least one field".to_owned()))
    );
    assert_eq!(
        validate_connection(&connection("acme", vec![field("key", true, true), field("key", false, false)])),
        Err(SaveError::Invalid("connection field names must be unique stable identifiers".to_owned()))
    );
    let mut lower = field("key", true, true);
    lower.environment = "lower".to_owned();
    assert_eq!(
        validate_connection(&connection("acme", vec![lower])),
        Err(SaveError::Invalid("connection fields require labels and uppercase environment names".to_owned()))
    );
}

#[test]
fn provider_manifests_are_validated() {
    assert_eq!(validate_provider_manifest(&provider("acme")), Ok(()));
    let mut wrong_format = provider("acme");
    wrong_format.format = "v0".to_owned();
    assert_eq!(
        validate_provider_manifest(&wrong_format),
        Err("unsupported Provider Manifest format `v0`".to_owned())
    );
    let mut category = provider("acme");
    category.category = "games".to_owned();
    assert_eq!(validate_provider_manifest(&category), Err("unsupported Provider category `games`".to_owned()));
    let mut blank = provider("acme");
    blank.vendor = "  ".to_owned();
    assert_eq!(
        validate_provider_manifest(&blank),
        Err("Provider display_name, summary and vendor must not be empty".to_owned())
    );
    let mut twice = provider("acme");
    twice.connections.push(connection("acme", vec![field("other", false, false)]));
    assert_eq!(validate_provider_manifest(&twice), Err("duplicate Provider connection `acme`".to_owned()));
}

#[test]
fn catalogs_merge_identical_declarations_and_refuse_conflicts() {
    let catalog = provider_catalog(vec![provider("zeta"), provider("alpha"), provider("zeta")]).unwrap();
    let ids: Vec<&str> = catalog.iter().map(|p| p.provider_id.as_str()).collect();
    assert_eq!(ids, ["alpha", "zeta"]);
    let mut changed = provider("zeta");
    changed.summary = "different".to_owned();
    assert_eq!(
        provider_catalog(vec![provider("zeta"), changed]).unwrap_err(),
        "conflicting Provider Manifests for `zeta`"
    );
    let merged = merge_connections(vec![
        connection("b", vec![field("k", true, false)]),
        connection("a", vec![field("k", true, false)]),
    ])
    .unwrap();
    assert_eq!(merged.len(), 2);
    assert_eq!(merged[0].id, "a");
    assert_eq!(
        merge_connections(vec![
            connection("a", vec![field("k", true, false)]),
            connection("a", vec![field("j", true, false)]),
        ])
        .unwrap_err(),
        "Provider packages declare conflicting connection `a`"
    );
}

#[test]
fn connection_store_tracks_required_fields() {
    let mut store = ConnectionStore::new(vec![connection(
        "acme",
        vec![field("key", true, true), field("region", true, false), field("note", false, false)],
    )])
    .unwrap();
    let mut wanted = StringSet::new();
    wanted.insert("acme".to_owned());
    assert_eq!(
        store.missing_required_for(&wanted),
        ["acme service / key label (ENV_KEY)".to_owned(), "acme service / region label (ENV_REGION)".to_owned()]
    );
    assert!(!store.is_configured(0));
    store.load_value("acme".to_owned(), "key".to_owned(), "secret".to_owned());
    store.load_value("acme".to_owned(), "region".to_owned(), String::new());
    assert_eq!(store.value("acme", "key"), Some("secret"));
    assert_eq!(store.value("acme", "region"), None);
    assert_eq!(store.update_field("acme", "region", "  eu-west  "), Ok(()));
    assert_eq!(store.value("acme", "region"), Some("eu-west"));
    assert_eq!(store.update_field("acme", "key", ""), Ok(()));
    assert_eq!(store.value("acme", "key"), Some("secret"));
    assert!(store.is_configured(0));
    assert!(store.missing_required_for(&wanted).is_empty());
    assert!(store.missing_required_for(&StringSet::new()).is_empty());
    assert_eq!(store.update_field("nope", "key", "v"), Err("unknown connection `nope`".to_owned()));
    assert_eq!(store.update_field("acme", "nope", "v"), Err("unknown field `acme.nope`".to_owned()));
    assert_eq!(
        store.update_field("acme", "note", "a\nb"),
        Err("field `acme.note` cannot contain NUL or a line break".to_owned())
    );
    assert_eq!(
        store.update_field("acme", "note", &"x".repeat(16 * 1024 + 1)),
        Err("field `acme.note` exceeds 16 KiB".to_owned())
    );
    assert_eq!(store.manifests().len(), 1);
}

#[test]
fn connection_updates_are_checked_before_their_fields() {
    let mut store = ConnectionStore::new(vec![connection("acme", vec![field("key", true, true)])]).unwrap();
    assert_eq!(store.check_connection_update("nope", true), Err("unknown connection `nope`".to_owned()));
    assert_eq!(
        store.check_connection_update("acme", false),
        Err("connection `acme` must be an object".to_owned())
    );
    assert_eq!(store.check_connection_update("acme", true), Ok(()));
    assert_eq!(
        store.update_field_value("acme", "key", None),
        Err("field `acme.key` must be a string".to_owned())
    );
    assert_eq!(store.update_field_value("acme", "nope", None), Err("unknown field `acme.nope`".to_owned()));
    assert_eq!(store.update_field_value("nope", "key", None), Err("unknown connection `nope`".to_owned()));
    assert_eq!(store.value("acme", "key"), None);
    assert_eq!(store.update_field_value("acme", "key", Some(" k1 ")), Ok(()));
    assert_eq!(store.value("acme", "key"), Some("k1"));
}
