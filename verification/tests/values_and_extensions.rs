use voxa::extension::{Extension, ExtensionProducer, ExtensionVisibility, Extensions};
use voxa::frame_buffer::FrameBuffer;
use voxa::registry::{NodeFactoryVersion, NodeLanguage};
use voxa::value::{FiniteF64, Metadata, Value, ValueMap};

fn extension(key: &str, version: u32, visibility: ExtensionVisibility) -> Extension {
    Extension::new(
        key.to_owned(),
        version,
        ExtensionProducer::Core,
        visibility,
        Value::String("private value".to_owned()),
    )
}

fn entry(key: &str, value: Value) -> (String, Value) {
    (key.to_owned(), value)
}

#[test]
fn extensions_preserve_order_and_filter_visibility() {
    let extensions = Extensions::try_from_iter(vec![
        extension("com.example.public", 1, ExtensionVisibility::Public),
        extension("com.example.private", 1, ExtensionVisibility::Private),
    ])
    .unwrap();

    assert_eq!(extensions.iter().len(), 2);
    assert_eq!(extensions.public_iter().len(), 1);
    assert_eq!(
        extensions.iter().iter().map(|extension| extension.key()).collect::<Vec<_>>(),
        ["com.example.public", "com.example.private"]
    );
}

#[test]
fn extensions_reject_duplicate_key_and_version_but_allow_migration_versions() {
    let error = Extensions::try_from_iter(vec![
        extension("com.example.trace", 1, ExtensionVisibility::Public),
        extension("com.example.trace", 1, ExtensionVisibility::Private),
    ])
    .unwrap_err();
    assert_eq!(error.code(), "MUXIVA-FRM-EXTENSION-DUPLICATE");

    let extensions = Extensions::try_from_iter(vec![
        extension("com.example.trace", 1, ExtensionVisibility::Public),
        extension("com.example.trace", 2, ExtensionVisibility::Private),
    ])
    .unwrap();
    assert_eq!(extensions.len(), 2);
}

#[test]
fn extension_debug_omits_values_and_redacts_private_keys() {
    let public = extension("com.example.public", 1, ExtensionVisibility::Public);
    let private = extension("com.example.private", 1, ExtensionVisibility::Private);

    let public_debug = public.debug_string();
    let private_debug = private.debug_string();
    assert!(public_debug.contains("com.example.public"));
    assert!(!public_debug.contains("private value"));
    assert!(private_debug.contains("<private>"));
    assert!(!private_debug.contains("com.example.private"));
    assert!(!private_debug.contains("private value"));
}

#[test]
fn extension_debug_has_the_documented_shape() {
    let public = extension("com.example.public", 3, ExtensionVisibility::Public);
    assert_eq!(
        public.debug_string(),
        "Extension { key: \"com.example.public\", schema_version: 3, producer: Core, visibility: Public }"
    );
    let extensions = Extensions::try_from_iter(vec![public]).unwrap();
    assert!(extensions.get("com.example.public", 3).is_some());
    assert!(extensions.get("com.example.public", 4).is_none());
}

#[test]
fn values_reject_non_finite_numbers_and_bad_keys() {
    for value in [f64::NAN, f64::INFINITY, f64::NEG_INFINITY] {
        assert_eq!(
            FiniteF64::new(value.to_bits()).unwrap_err().code(),
            "MUXIVA-FRM-VALUE-NUMBER"
        );
    }

    for key in ["", "contains\u{0000}", &"a".repeat(256)] {
        let error = ValueMap::try_from_iter(vec![entry(key, Value::Null)]).unwrap_err();
        assert_eq!(error.code(), "MUXIVA-FRM-VALUE-KEY");
    }
}

#[test]
fn values_cover_every_variant() {
    let map = ValueMap::try_from_iter(vec![entry("key", Value::Null)]).unwrap();
    let values = [
        Value::Null,
        Value::Bool(true),
        Value::Integer(-7),
        Value::Float(FiniteF64::new(1.5f64.to_bits()).unwrap()),
        Value::String("text".to_owned()),
        Value::Bytes(FrameBuffer::from_vec(vec![1, 2])),
        Value::List(vec![Value::Bool(false)]),
        Value::Dict(map),
    ];

    assert_eq!(values.len(), 8);
    assert_eq!(FiniteF64::new(1.5f64.to_bits()).unwrap().get(), 1.5f64.to_bits());
}

#[test]
fn maps_and_metadata_have_deterministic_iteration_and_reject_duplicates() {
    let map =
        ValueMap::try_from_iter(vec![entry("z", Value::Integer(1)), entry("a", Value::Integer(2))]).unwrap();
    let metadata =
        Metadata::try_from_iter(vec![entry("z", Value::Integer(1)), entry("a", Value::Integer(2))]).unwrap();

    assert_eq!(map.iter().iter().map(|(key, _)| key.as_str()).collect::<Vec<_>>(), ["a", "z"]);
    assert_eq!(
        metadata.iter().iter().map(|(key, _)| key.as_str()).collect::<Vec<_>>(),
        ["a", "z"]
    );
    assert_eq!(map.get("a"), Some(&Value::Integer(2)));
    assert!(Metadata::empty().is_empty());
    assert_eq!(
        Metadata::try_from_iter(vec![entry("same", Value::Null), entry("same", Value::Bool(true))])
            .unwrap_err()
            .code(),
        "MUXIVA-FRM-VALUE-KEY"
    );
}

#[test]
fn factory_version_rejects_ambiguous_or_unbounded_identifiers() {
    for invalid in ["".to_owned(), " 1.0.0".to_owned(), "1/0".to_owned(), "v".repeat(65)] {
        assert!(NodeFactoryVersion::new(invalid.clone()).is_err(), "{invalid:?}");
    }
    assert_eq!(
        NodeFactoryVersion::new("1.0.0-alpha+rust".to_owned()).unwrap().as_str(),
        "1.0.0-alpha+rust"
    );
}

#[test]
fn languages_round_trip_through_their_names() {
    for language in [NodeLanguage::Rust, NodeLanguage::Python, NodeLanguage::TypeScript, NodeLanguage::Cpp] {
        assert_eq!(NodeLanguage::parse(language.as_str()), Some(language));
    }
    assert_eq!(NodeLanguage::parse("cobol"), None);
}
