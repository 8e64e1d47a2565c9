use voxa::cli::{cli_timeout, doctor_outcome, reported_version};
use voxa::dotenv::{dotenv_text, parse_dotenv, split_lines};
use voxa::foreign::validate_isolation;
use voxa::node_package::{
    check_new_package, check_root_config, resolve_package, validate_package, NodePackage, NodePackageManifest,
    NodePortManifest,
};
use voxa::providers::{
    ConnectionFieldManifest, ConnectionManifest, ConnectionStore, ProviderManifest, ProviderSdkManifest,
    SaveError,
};

fn field(name: &str, required: bool, exposed: bool) -> ConnectionFieldManifest {
    ConnectionFieldManifest {
        name: name.to_owned(),
        label: format!("{name} label"),
        environment: format!("ENV_{}", name.to_uppercase()),
        secret: false,
        required,
        client_exposed: exposed,
        default: String::new(),
        help: String::new(),
        acquire_url: String::new(),
    }
}

fn connection(id: &str, fields: Vec<ConnectionFieldManifest>) -> ConnectionManifest {
    ConnectionManifest {
        id: id.to_owned(),
        display_name: format!("{id} service"),
        description: String::new(),
        fields,
    }
}

fn provider(id: &str) -> ProviderManifest {
    ProviderManifest {
        format: "muxiva.provider/v1".to_owned(),
        provider_id: id.to_owned(),
        display_name: "Provider".to_owned(),
        category: "media".to_owned(),
        summary: "does things".to_owned(),
        vendor: "vendor".to_owned(),
        homepage: String::new(),
        documentation: String::new(),
        license: "MIT".to_owned(),
        sdk: ProviderSdkManifest { name: "sdk".to_owned(), version: "1".to_owned() },
        connections: vec![connection("acme", vec![field("key", true, false)])],
    }
}

fn manifest() -> NodePackageManifest {
    NodePackageManifest {
        format: "muxiva.node/v1".to_owned(),
        package_id: "echo".to_owned(),
        display_name: "Echo".to_owned(),
        node_type: "project.echo".to_owned(),
        language: "python".to_owned(),
        factory_version: "1.0.0".to_owned(),
        kind: "transform".to_owned(),
        entrypoint: "node.py:Echo".to_owned(),
        category: "utility".to_owned(),
        capability: "custom".to_owned(),
        summary: "echoes text".to_owned(),
        provider_id: None,
        connection_id: None,
        documentation: None,
        tags: Vec::new(),
        ports: vec![NodePortManifest {
            name: "in".to_owned(),
            direction: "input".to_owned(),
            frame_type: "text".to_owned(),
            schema_is_object: true,
        }],
        config_schema_is_object: true,
        connection: None,
    }
}

fn package(manifest: NodePackageManifest, code: &str) -> NodePackage {
    NodePackage {
        manifest,
        code: code.to_owned(),
        runtime_available: false,
        origin: "project".to_owned(),
        editable: true,
        provider_manifest: None,
        resolved_connection: None,
    }
}

fn invalid(message: &str) -> Result<(), SaveError> {
    Err(SaveError::Invalid(message.to_owned()))
}

#[test]
fn isolated_process_is_rejected_explicitly() {
    let error = validate_isolation("isolated_process").unwrap_err();
    assert!(error.contains("MUXIVA-PY-ISOLATION-UNSUPPORTED"));
    assert_eq!(validate_isolation("in_process"), Ok(()));
    assert!(validate_isolation("thread").unwrap_err().starts_with("MUXIVA-PY-ISOLATION: "));
}

#[test]
fn cli_waits_must_be_between_one_millisecond_and_one_hour() {
    assert_eq!(cli_timeout("timeout-ms", 1), Ok(1));
    assert_eq!(cli_timeout("timeout-ms", 3_600_000), Ok(3_600_000));
    assert_eq!(
        cli_timeout("timeout-ms", 0),
        Err("--timeout-ms must be between 1 and 3600000 milliseconds".to_owned())
    );
    assert!(cli_timeout("shutdown-timeout-ms", 3_600_001).is_err());
}

#[test]
fn packages_are_validated_in_order() {
    let ok = package(manifest(), "print('x')");
    assert_eq!(validate_package(&ok, None, &[None]), Ok(()));
    let mut bad_id = manifest();
    bad_id.package_id = "Echo".to_owned();
    assert_eq!(
        validate_package(&package(bad_id, "x"), None, &[None]),
        invalid("package_id must use 1-64 lowercase letters, digits, '-' or '_'")
    );
    assert_eq!(
        validate_package(&ok, Some("bad name".to_owned()), &[None]),
        invalid("invalid node_type: bad name")
    );
    let mut bad_version = manifest();
    bad_version.factory_version = " 1".to_owned();
    assert_eq!(
        validate_package(&package(bad_version, "x"), None, &[None]),
        invalid("invalid factory_version: node factory version must not have leading or trailing whitespace")
    );
    let mut bad_language = manifest();
    bad_language.language = "go".to_owned();
    assert_eq!(
        validate_package(&package(bad_language, "x"), None, &[None]),
        invalid("language must be rust, cpp, python, or typescript")
    );
    let mut bad_port = manifest();
    bad_port.ports[0].frame_type = "smell".to_owned();
    assert_eq!(
        validate_package(&package(bad_port, "x"), None, &[None]),
        invalid("unsupported Port frame_type `smell`")
    );
    assert_eq!(
        validate_package(&ok, None, &[Some("empty".to_owned())]),
        invalid("invalid Port name: empty")
    );
    let mut both = manifest();
    both.connection_id = Some("acme".to_owned());
    both.connection = Some(connection("acme", vec![field("key", true, false)]));
    assert_eq!(
        validate_package(&package(both, "x"), None, &[None]),
        invalid("connection_id and inline connection are mutually exclusive")
    );
    assert_eq!(validate_package(&package(manifest(), ""), None, &[None]), invalid("code must contain 1 byte through 512 KiB"));
}

#[test]
fn read_packages_resolve_their_connection() {
    let mut referenced = manifest();
    referenced.connection_id = Some("acme".to_owned());
    referenced.provider_id = Some("acme-provider".to_owned());
    let resolved = resolve_package(referenced.clone(), "project.echo".to_owned(), &Some(provider("acme-provider")))
        .unwrap();
    assert_eq!(resolved.resolved_connection.unwrap().id, "acme");
    assert_eq!(resolved.manifest.node_type, "project.echo");
    assert_eq!(
        resolve_package(referenced.clone(), "project.echo".to_owned(), &None).unwrap_err(),
        "Node `echo` references connection `acme` without a Provider Manifest"
    );
    assert_eq!(
        resolve_package(referenced, "project.echo".to_owned(), &Some(provider("other"))).unwrap_err(),
        "Node `echo` declares provider `acme-provider` but is owned by `other`"
    );
    let mut missing = manifest();
    missing.connection_id = Some("nope".to_owned());
    assert_eq!(
        resolve_package(missing, "project.echo".to_owned(), &Some(provider("p"))).unwrap_err(),
        "Provider `p` does not declare connection `nope`"
    );
    let mut legacy = manifest();
    legacy.node_type = "provider.agora.audio_source".to_owned();
    let resolved = resolve_package(legacy, "provider.agora.audio_source.v2".to_owned(), &None).unwrap();
    assert_eq!(resolved.manifest.factory_version, "1.1.0");
    assert!(resolved.resolved_connection.is_none());
}

#[test]
fn listed_packages_must_be_unique() {
    let first = manifest();
    let mut same_id = manifest();
    same_id.node_type = "project.other".to_owned();
    assert_eq!(
        check_new_package(&[first.clone()], &same_id).unwrap_err(),
        "duplicate Node package_id `echo` across project and Provider Roots"
    );
    let mut same_identity = manifest();
    same_identity.package_id = "echo-2".to_owned();
    assert_eq!(
        check_new_package(&[first.clone()], &same_identity).unwrap_err(),
        "duplicate Node Factory identity for `project.echo`"
    );
    assert_eq!(check_new_package(&[first], &same_id_with_new_id()), Ok(()));
    assert_eq!(check_root_config("muxiva.providers/v1", 32), Ok(()));
    assert_eq!(
        check_root_config("v0", 1).unwrap_err(),
        "unsupported Provider Root format `v0`"
    );
    assert_eq!(
        check_root_config("muxiva.providers/v1", 33).unwrap_err(),
        "at most 32 Provider Roots may be configured"
    );
}

fn same_id_with_new_id() -> NodePackageManifest {
    let mut m = manifest();
    m.package_id = "echo-3".to_owned();
    m.factory_version = "2.0.0".to_owned();
    m
}

#[test]
fn dotenv_lines_are_read_in_order() {
    assert_eq!(split_lines("a\r\nb\n\nc"), vec!["a", "b", "", "c"]);
    assert_eq!(split_lines("a\n"), vec!["a"]);
    assert_eq!(split_lines("x\r"), vec!["x\r"]);
    let entries = parse_dotenv(".env", "# comment\n\nAPI_KEY = abc \nQUOTED=\"a\\nb\"\nAPI_KEY=def\n").unwrap();
    assert_eq!(
        entries,
        vec![
            ("API_KEY".to_owned(), "abc".to_owned()),
            ("QUOTED".to_owned(), "a\nb".to_owned()),
            ("API_KEY".to_owned(), "def".to_owned()),
        ]
    );
    assert_eq!(parse_dotenv(".env", "OK=1\nnope\n").unwrap_err(), ".env:2 must use KEY=value");
    assert_eq!(parse_dotenv("p/.env", "lower=1").unwrap_err(), "p/.env:1 has an invalid key");
    assert_eq!(parse_dotenv(".env", "K=\"open").unwrap_err(), ".env:1 has an invalid quoted value");
}

#[test]
fn dotenv_text_quotes_each_value() {
    let text = dotenv_text(&[("A".to_owned(), "x\"y".to_owned()), ("B".to_owned(), String::new())]).unwrap();
    assert_eq!(
        text,
        "# Local Muxiva provider credentials. Never commit this file.\nA=\"x\\\"y\"\nB=\"\"\n"
    );
    let back = parse_dotenv(".env", &text).unwrap();
    assert_eq!(back, vec![("A".to_owned(), "x\"y".to_owned()), ("B".to_owned(), String::new())]);
}

#[test]
fn stored_values_reach_environment_and_clients() {
    let mut store = ConnectionStore::new(vec![
        connection("acme", vec![field("key", true, false), field("region", false, true)]),
        connection("beta", vec![field("token", true, false)]),
    ])
    .unwrap();
    store.load_value("acme".to_owned(), "key".to_owned(), "k1".to_owned());
    store.load_value("acme".to_owned(), "region".to_owned(), "eu".to_owned());
    store.load_value("beta".to_owned(), "token".to_owned(), String::new());
    assert_eq!(
        store.environment_values(),
        vec![("ENV_KEY".to_owned(), "k1".to_owned()), ("ENV_REGION".to_owned(), "eu".to_owned())]
    );
    let acme = store.manifests()[0].clone();
    assert_eq!(store.connection_values(&acme).len(), 2);
    assert_eq!(
        store.client_values(),
        vec![("acme".to_owned(), vec![("region".to_owned(), "eu".to_owned())])]
    );
}

#[test]
fn tool_version_is_the_first_filled_printed_line() {
    assert_eq!(reported_version("\n  Python 3.12.1  \r\nmore", "").as_deref(), Some("Python 3.12.1"));
    assert_eq!(reported_version("   \n", "cmake version 3.29\n").as_deref(), Some("cmake version 3.29"));
    assert_eq!(reported_version("", " \t \n"), None);
}

#[test]
fn strict_doctor_fails_on_any_warning() {
    assert_eq!(doctor_outcome(false, 3), Ok(()));
    assert_eq!(doctor_outcome(true, 0), Ok(()));
    assert_eq!(doctor_outcome(true, 2), Err("doctor found 2 warning(s)".to_owned()));
}

#[test]
fn dotenv_values_are_escaped_as_json_strings() {
    let text = dotenv_text(&[("K".to_owned(), "a\u{1}\t\\\u{7f}é".to_owned())]).unwrap();
    assert!(text.ends_with("K=\"a\\u0001\\t\\\\\u{7f}é\"\n"));
}

#[test]
fn dotenv_text_reads_back_as_the_same_entries() {
    let entries = vec![
        ("API_KEY".to_owned(), "line one\nline \"two\"\t\\".to_owned()),
        ("EMPTY".to_owned(), String::new()),
        ("API_KEY".to_owned(), " spaced ".to_owned()),
    ];
    let text = dotenv_text(&entries).unwrap();
    assert_eq!(parse_dotenv(".env", &text).unwrap(), entries);
}

#[test]
fn package_reports_its_resolved_connection_identity() {
    let mut p = package(manifest(), "print('hi')");
    assert_eq!(p.resolved_connection_id(), None);
    p.resolved_connection = Some(voxa::providers::ConnectionManifest {
        id: "openai".to_owned(),
        display_name: "OpenAI".to_owned(),
        description: String::new(),
        fields: Vec::new(),
    });
    assert_eq!(p.resolved_connection_id(), Some("openai"));
}
