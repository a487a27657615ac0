use ephemeral_storage_setup::config::{patch_kubelet_config, ConfigDoc, ConfigValue};

fn doc_of(entries: Vec<(&str, ConfigValue)>) -> ConfigDoc {
    let mut d = ConfigDoc::new();
    for (k, v) in entries {
        d.insert_value(&k.to_owned(), v);
    }
    d
}

fn value_of<'a>(d: &'a ConfigDoc, key: &str) -> Option<&'a ConfigValue> {
    d.get_value(&key.to_owned())
}

#[test]
fn patch_preserves_unrelated_keys() {
    let d = doc_of(vec![("foo", ConfigValue::Str("bar".to_owned()))]);
    let patched = patch_kubelet_config(d);
    assert_eq!(
        value_of(&patched, "foo"),
        Some(&ConfigValue::Str("bar".to_owned()))
    );
    assert_eq!(value_of(&patched, "failSwapOn"), Some(&ConfigValue::Bool(false)));
    assert_eq!(
        value_of(&patched, "memorySwap"),
        Some(&ConfigValue::Mapping(vec![(
            "swapBehavior".to_owned(),
            ConfigValue::Str("LimitedSwap".to_owned())
        )]))
    );
}

#[test]
fn patch_of_missing_file_builds_full_document() {
    let patched = patch_kubelet_config(ConfigDoc::new());
    assert_eq!(
        value_of(&patched, "kind"),
        Some(&ConfigValue::Str("KubeletConfiguration".to_owned()))
    );
    assert_eq!(
        value_of(&patched, "apiVersion"),
        Some(&ConfigValue::Str("kubelet.config.k8s.io/v1beta1".to_owned()))
    );
    assert_eq!(value_of(&patched, "failSwapOn"), Some(&ConfigValue::Bool(false)));
    assert_eq!(
        value_of(&patched, "memorySwap"),
        Some(&ConfigValue::Mapping(vec![(
            "swapBehavior".to_owned(),
            ConfigValue::Str("LimitedSwap".to_owned())
        )]))
    );
}

#[test]
fn patch_keeps_operator_supplied_discriminators() {
    let d = doc_of(vec![
        ("kind", ConfigValue::Str("CustomKind".to_owned())),
        ("failSwapOn", ConfigValue::Bool(true)),
    ]);
    let patched = patch_kubelet_config(d);
    assert_eq!(
        value_of(&patched, "kind"),
        Some(&ConfigValue::Str("CustomKind".to_owned()))
    );
    // failSwapOn is forced, never preserved.
    assert_eq!(value_of(&patched, "failSwapOn"), Some(&ConfigValue::Bool(false)));
    assert_eq!(
        value_of(&patched, "apiVersion"),
        Some(&ConfigValue::Str("kubelet.config.k8s.io/v1beta1".to_owned()))
    );
}

#[test]
fn document_operations() {
    let mut d = ConfigDoc::new();
    d.insert_value(&"a".to_owned(), ConfigValue::Bool(true));
    d.insert_value(&"a".to_owned(), ConfigValue::Bool(false));
    assert_eq!(value_of(&d, "a"), Some(&ConfigValue::Bool(false)));
    d.ensure_value(&"a".to_owned(), ConfigValue::Bool(true));
    assert_eq!(value_of(&d, "a"), Some(&ConfigValue::Bool(false)));
    d.ensure_value(&"b".to_owned(), ConfigValue::Raw("1.5".to_owned()));
    assert_eq!(value_of(&d, "b"), Some(&ConfigValue::Raw("1.5".to_owned())));
    assert_eq!(value_of(&d, "c"), None);
    assert_eq!(d.entries.len(), 2);
}
