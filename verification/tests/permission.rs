use union_governance::permission::{
    Permission, PermissionRepository, PermissionRepositoryError, PermissionScope, PermissionTarget,
};
use union_governance::types::{Program, RemoteCall, RemoteCallEndpoint};

fn endpoint(canister_id: u64, method: &str) -> RemoteCallEndpoint {
    RemoteCallEndpoint {
        canister_id,
        method_name: String::from(method),
    }
}

#[test]
pub fn permission_crud_works_fine() {
    let mut repository = PermissionRepository::new();
    let target_1 = PermissionTarget::Endpoint(endpoint(1, "test_method"));
    let target_2 = PermissionTarget::Canister(2);

    let permission_id_1 = repository.create_permission(
        String::from("Permission 1"),
        vec![target_1.clone(), target_2.clone()],
        PermissionScope::Whitelist,
    );

    let permission_1 = repository
        .get_permission(&permission_id_1)
        .expect("Permission 1 should be possible to obtain");
    assert!(
        matches!(permission_1.scope, PermissionScope::Whitelist),
        "Permission 1 scope should equal to Whitelist"
    );
    assert_eq!(
        permission_1.name, "Permission 1",
        "Permission 1 name is wrong"
    );
    assert_eq!(
        permission_1.targets.len(),
        2,
        "There should be 2 targets in Permission 1"
    );

    let permission_id_2 = repository.create_permission(
        String::from("Permission 2"),
        vec![target_2.clone()],
        PermissionScope::Whitelist,
    );

    let canister_2_related_permissions =
        repository.get_permission_ids_by_permission_target_cloned(&target_2);
    assert_eq!(
        canister_2_related_permissions.len(),
        2,
        "There should be 2 permissions about this target"
    );
    assert!(
        canister_2_related_permissions.contains(&permission_id_1),
        "Permission 1 should be in the list"
    );
    assert!(
        canister_2_related_permissions.contains(&permission_id_2),
        "Permission 2 should be in the list"
    );

    repository
        .update_permission(&permission_id_1, None, Some(vec![target_1]), None)
        .expect("It should be possible to update permission 1");

    let canister_2_related_permissions =
        repository.get_permission_ids_by_permission_target_cloned(&target_2);
    assert_eq!(
        canister_2_related_permissions.len(),
        1,
        "There should be 1 permission about this target"
    );
    assert!(
        canister_2_related_permissions.contains(&permission_id_2),
        "Permission 2 should be in the list"
    );

    repository
        .remove_permission(&permission_id_2)
        .expect("It should be possible to remove permission 2");

    let canister_2_related_permissions =
        repository.get_permission_ids_by_permission_target_cloned(&target_2);

    assert!(
        canister_2_related_permissions.is_empty(),
        "There shouldn't be any permission about this target"
    );
}

#[test]
fn endpoint_target_matches_exactly_and_via_canister() {
    // Scenario: a permission with targets {Endpoint(A, "m"), RemoteActor(B)},
    // whitelist scope.
    let mut repository = PermissionRepository::new();
    let pid = repository.create_permission(
        String::from("P"),
        vec![
            PermissionTarget::Endpoint(endpoint(10, "m")),
            PermissionTarget::Canister(20),
        ],
        PermissionScope::Whitelist,
    );

    // The exact endpoint target matches.
    assert!(repository
        .is_permission_target(Some(endpoint(10, "m")), &pid)
        .is_ok());

    // Replace the targets by {RemoteActor(B)} only.
    repository
        .update_permission(
            &pid,
            None,
            Some(vec![PermissionTarget::Canister(20)]),
            None,
        )
        .unwrap();

    // The endpoint on A no longer matches.
    assert_eq!(
        repository.is_permission_target(Some(endpoint(10, "m")), &pid),
        Err(PermissionRepositoryError::NotPermissionTarget)
    );
    // Any endpoint on B matches through the coarser canister target.
    assert!(repository
        .is_permission_target(Some(endpoint(20, "x")), &pid)
        .is_ok());
}

#[test]
fn last_permission_cannot_be_removed() {
    let mut repository = PermissionRepository::new();
    let pid = repository.create_permission(
        String::from("Only"),
        vec![PermissionTarget::SelfEmptyProgram],
        PermissionScope::Whitelist,
    );

    let before = repository.get_permission_ids_cloned();
    let r = repository.remove_permission(&pid);
    assert!(matches!(
        r,
        Err(PermissionRepositoryError::ThereShouldBeAtLeastOnePermission)
    ));
    // The repository is unchanged.
    assert_eq!(repository.get_permission_ids_cloned(), before);
    assert!(repository.get_permission(&pid).is_ok());
}

#[test]
fn blacklist_inverts_the_match() {
    let mut repository = PermissionRepository::new();
    let pid = repository.create_permission(
        String::from("Deny listed"),
        vec![PermissionTarget::Canister(7)],
        PermissionScope::Blacklist,
    );

    // The listed canister is denied.
    assert_eq!(
        repository.is_permission_target(Some(endpoint(7, "m")), &pid),
        Err(PermissionRepositoryError::NotPermissionTarget)
    );
    // An unlisted canister is allowed.
    assert!(repository
        .is_permission_target(Some(endpoint(8, "m")), &pid)
        .is_ok());
}

#[test]
fn empty_program_needs_self_empty_target() {
    let mut repository = PermissionRepository::new();
    let with_self = repository.create_permission(
        String::from("Self allowed"),
        vec![PermissionTarget::SelfEmptyProgram],
        PermissionScope::Whitelist,
    );
    let without_self = repository.create_permission(
        String::from("Self missing"),
        vec![PermissionTarget::Canister(1)],
        PermissionScope::Whitelist,
    );

    assert!(repository.is_permission_target(None, &with_self).is_ok());
    assert_eq!(
        repository.is_permission_target(None, &without_self),
        Err(PermissionRepositoryError::NotPermissionTarget)
    );
}

#[test]
fn program_is_allowed_only_if_every_call_is() {
    let mut repository = PermissionRepository::new();
    let pid = repository.create_permission(
        String::from("One canister"),
        vec![PermissionTarget::Canister(5)],
        PermissionScope::Whitelist,
    );

    let ok_program = Program::RemoteCallSequence(vec![
        RemoteCall {
            endpoint: endpoint(5, "a"),
            args: vec![],
        },
        RemoteCall {
            endpoint: endpoint(5, "b"),
            args: vec![],
        },
    ]);
    assert!(repository
        .is_program_allowed_by_permission(&ok_program, &pid)
        .is_ok());

    let bad_program = Program::RemoteCallSequence(vec![
        RemoteCall {
            endpoint: endpoint(5, "a"),
            args: vec![],
        },
        RemoteCall {
            endpoint: endpoint(6, "b"),
            args: vec![],
        },
    ]);
    assert_eq!(
        repository.is_program_allowed_by_permission(&bad_program, &pid),
        Err(PermissionRepositoryError::NotPermissionTarget)
    );

    let empty = Program::Empty;
    assert_eq!(
        repository.is_program_allowed_by_permission(&empty, &pid),
        Err(PermissionRepositoryError::NotPermissionTarget)
    );
}

#[test]
fn missing_permission_is_reported() {
    let repository = PermissionRepository::new();
    assert!(matches!(
        repository.get_permission(&42),
        Err(PermissionRepositoryError::PermissionDoesNotExist)
    ));
    assert_eq!(
        repository.is_permission_target(Some(endpoint(1, "m")), &42),
        Err(PermissionRepositoryError::PermissionDoesNotExist)
    );
}

#[test]
fn permission_builds_with_all_fields() {
    let p = Permission {
        id: 3,
        name: String::from("n"),
        targets: vec![PermissionTarget::SelfEmptyProgram],
        scope: PermissionScope::Blacklist,
    };
    assert_eq!(p.id, 3);
    assert!(matches!(p.scope, PermissionScope::Blacklist));
}
