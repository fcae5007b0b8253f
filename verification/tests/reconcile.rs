use credentials_manager::plan::{reconcile_actions, ApiAction, DesiredSpec, EnvListing};

fn strings(names: &[&str]) -> Vec<String> {
    names.iter().map(|n| n.to_string()).collect()
}

#[test]
fn diff_deletes_unlisted_and_upserts_desired() {
    let listing = EnvListing::Present(strings(&["A", "B", "C"]));
    let desired = DesiredSpec { props: strings(&["A"]), additional: false };
    let plan = reconcile_actions(&listing, &desired);
    assert_eq!(
        plan,
        vec![
            ApiAction::DeleteSecret("B".to_string()),
            ApiAction::DeleteSecret("C".to_string()),
            ApiAction::FetchPublicKey,
            ApiAction::PutSecret("A".to_string()),
        ]
    );
}

#[test]
fn additional_preserves_unlisted_secrets() {
    let listing = EnvListing::Present(strings(&["A", "B", "C"]));
    let desired = DesiredSpec { props: strings(&["A"]), additional: true };
    let plan = reconcile_actions(&listing, &desired);
    assert_eq!(
        plan,
        vec![ApiAction::FetchPublicKey, ApiAction::PutSecret("A".to_string())]
    );
}

#[test]
fn absent_environment_is_created_once_and_nothing_deleted() {
    let listing = EnvListing::Absent;
    let desired = DesiredSpec { props: strings(&["X", "Y"]), additional: false };
    let plan = reconcile_actions(&listing, &desired);
    assert_eq!(
        plan,
        vec![
            ApiAction::CreateEnvironment,
            ApiAction::FetchPublicKey,
            ApiAction::PutSecret("X".to_string()),
            ApiAction::PutSecret("Y".to_string()),
        ]
    );
    let creates = plan
        .iter()
        .filter(|a| matches!(a, ApiAction::CreateEnvironment))
        .count();
    assert_eq!(creates, 1);
    assert!(!plan.iter().any(|a| matches!(a, ApiAction::DeleteSecret(_))));
}

#[test]
fn present_environment_is_never_created() {
    let listing = EnvListing::Present(strings(&["A"]));
    let desired = DesiredSpec { props: strings(&["A"]), additional: false };
    let plan = reconcile_actions(&listing, &desired);
    assert!(!plan.iter().any(|a| matches!(a, ApiAction::CreateEnvironment)));
}

#[test]
fn deletions_precede_key_fetch_which_precedes_additions() {
    let listing = EnvListing::Present(strings(&["keep", "drop1", "drop2"]));
    let desired = DesiredSpec { props: strings(&["keep", "fresh"]), additional: false };
    let plan = reconcile_actions(&listing, &desired);
    let last_delete = plan
        .iter()
        .rposition(|a| matches!(a, ApiAction::DeleteSecret(_)))
        .unwrap();
    let fetch = plan
        .iter()
        .position(|a| matches!(a, ApiAction::FetchPublicKey))
        .unwrap();
    let first_put = plan
        .iter()
        .position(|a| matches!(a, ApiAction::PutSecret(_)))
        .unwrap();
    assert!(last_delete < fetch);
    assert!(fetch < first_put);
}

#[test]
fn empty_props_without_additional_purges_everything() {
    let listing = EnvListing::Present(strings(&["A", "B"]));
    let desired = DesiredSpec { props: Vec::new(), additional: false };
    let plan = reconcile_actions(&listing, &desired);
    assert_eq!(
        plan,
        vec![
            ApiAction::DeleteSecret("A".to_string()),
            ApiAction::DeleteSecret("B".to_string()),
            ApiAction::FetchPublicKey,
        ]
    );
}
