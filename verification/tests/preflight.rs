use credentials_manager::orchestrate::{missing_secrets, preflight, DesiredState};
use credentials_manager::plan::DesiredSpec;
use credentials_manager::store::SecretStore;

fn store_of(pairs: &[(&str, &str)]) -> SecretStore {
    let mut store = SecretStore::new();
    for (k, v) in pairs {
        if !store.contains(&k.to_string()) {
            store.insert(k.to_string(), v.to_string());
        }
    }
    store
}

fn state_of(targets: &[(&str, &[(&str, &[&str], bool)])]) -> DesiredState {
    DesiredState {
        targets: targets
            .iter()
            .map(|(target, envs)| {
                (
                    target.to_string(),
                    envs.iter()
                        .map(|(env, props, additional)| {
                            (
                                env.to_string(),
                                DesiredSpec {
                                    props: props.iter().map(|p| p.to_string()).collect(),
                                    additional: *additional,
                                },
                            )
                        })
                        .collect(),
                )
            })
            .collect(),
    }
}

#[test]
fn missing_reference_aborts_before_any_call() {
    let store = store_of(&[("A", "1")]);
    let state = state_of(&[("owner/repo", &[("prod", &["B"] as &[&str], false)])]);
    match preflight(&store, &state) {
        Err(missing) => assert_eq!(missing, vec!["B".to_string()]),
        Ok(()) => panic!("expected the run to abort on the missing secret"),
    }
}

#[test]
fn complete_references_pass_preflight() {
    let store = store_of(&[("A", "1"), ("B", "2")]);
    let state = state_of(&[
        ("owner/one", &[("prod", &["A"] as &[&str], false)]),
        ("owner/two", &[("dev", &["A", "B"] as &[&str], true)]),
    ]);
    assert!(preflight(&store, &state).is_ok());
}

#[test]
fn missing_names_are_reported_once_each_across_environments() {
    let store = store_of(&[("PRESENT", "x")]);
    let state = state_of(&[
        ("owner/one", &[
            ("prod", &["GONE", "PRESENT"] as &[&str], false),
            ("dev", &["GONE", "ALSO_GONE"] as &[&str], false),
        ]),
        ("owner/two", &[("prod", &["ALSO_GONE"] as &[&str], true)]),
    ]);
    let missing = missing_secrets(&store, &state);
    assert_eq!(missing, vec!["GONE".to_string(), "ALSO_GONE".to_string()]);
}

#[test]
fn empty_state_passes_with_empty_store() {
    let store = SecretStore::new();
    let state = DesiredState { targets: Vec::new() };
    assert!(preflight(&store, &state).is_ok());
    assert!(missing_secrets(&store, &state).is_empty());
}

#[test]
fn store_lookup_returns_inserted_values() {
    let store = store_of(&[("A", "1"), ("B", "2")]);
    assert!(store.contains(&"A".to_string()));
    assert!(!store.contains(&"C".to_string()));
    assert_eq!(store.get(&"B".to_string()), Some(&"2".to_string()));
    assert_eq!(store.get(&"C".to_string()), None);
}
