use union_governance::deployer::{DeployerError, State, UnionWalletBinaryStatus};

fn version() -> String {
    String::from("1.0.0")
}

#[test]
fn binary_version_lifecycle() {
    let mut state = State::new();
    state
        .create_binary_version(version(), String::from("The first release"), 10)
        .unwrap();

    // The same version cannot be registered twice.
    let r = state.create_binary_version(version(), String::from("The first release"), 11);
    assert!(matches!(r, Err(DeployerError::BinaryVersionAlreadyExists)));

    // Too short a version or description is rejected.
    let r = state.create_binary_version(String::from("1"), String::from("The first release"), 11);
    assert!(matches!(r, Err(DeployerError::ValidationError(_))));
    let r = state.create_binary_version(String::from("2.0.0"), String::from("short"), 11);
    assert!(matches!(r, Err(DeployerError::ValidationError(_))));

    // Releasing before the payload is uploaded is refused.
    let r = state.release_binary_version(&version(), 12);
    assert!(matches!(r, Err(DeployerError::MissingBinary)));

    // Upload once; a second upload is refused.
    state.upload_binary(&version(), vec![0, 1, 2], 13).unwrap();
    let r = state.upload_binary(&version(), vec![9], 14);
    assert!(matches!(r, Err(DeployerError::BinaryIsImmutable)));

    // Release; releasing again is a wrong-status error.
    state.release_binary_version(&version(), 15).unwrap();
    let r = state.release_binary_version(&version(), 16);
    assert!(matches!(r, Err(DeployerError::BinaryVersionHasWrongStatus)));

    // The latest release cannot be deleted.
    let r = state.delete_binary_version(&version(), 17);
    assert!(matches!(r, Err(DeployerError::UnableToDeleteLatestVersion)));

    // The metadata view withholds the payload but reports its presence.
    let meta = state.get_binary_version(&version()).unwrap();
    assert!(matches!(meta.status, UnionWalletBinaryStatus::Released));
    assert_eq!(meta.binary, Some(vec![]));
    assert_eq!(meta.description, "The first release");

    // The payload itself comes back through the download path.
    assert_eq!(state.download_binary(&version()).unwrap(), Some(vec![0, 1, 2]));

    // A second, newer release frees the first one for deletion.
    state
        .create_binary_version(String::from("2.0.0"), String::from("A newer release"), 20)
        .unwrap();
    state.upload_binary(&String::from("2.0.0"), vec![7], 21).unwrap();
    state.release_binary_version(&String::from("2.0.0"), 22).unwrap();
    state.delete_binary_version(&version(), 23).unwrap();
    let meta = state.get_binary_version(&version()).unwrap();
    assert!(matches!(meta.status, UnionWalletBinaryStatus::Deleted));
    assert_eq!(meta.binary, None);
    // Deleting twice is a wrong-status error.
    let r = state.delete_binary_version(&version(), 24);
    assert!(matches!(r, Err(DeployerError::BinaryVersionHasWrongStatus)));

    assert_eq!(state.get_binary_versions().len(), 2);

    // Unknown versions are reported.
    let r = state.get_binary_version(&String::from("9.9.9"));
    assert!(matches!(r, Err(DeployerError::BinaryVersionNotFound)));
}

#[test]
fn instances_are_registered_and_upgraded() {
    let mut state = State::new();
    state.set_instance_version(5, String::from("1.0.0"), 100);
    let inst = state.get_instance(&5).unwrap();
    assert_eq!(inst.canister_id, 5);
    assert_eq!(inst.binary_version, "1.0.0");
    assert_eq!(inst.created_at, 100);
    assert_eq!(inst.upgraded_at, 100);

    // An upgrade keeps the creation stamp.
    state.set_instance_version(5, String::from("2.0.0"), 200);
    let inst = state.get_instance(&5).unwrap();
    assert_eq!(inst.binary_version, "2.0.0");
    assert_eq!(inst.created_at, 100);
    assert_eq!(inst.upgraded_at, 200);

    assert_eq!(state.get_instance_ids(), vec![5]);
    assert!(matches!(
        state.get_instance(&6),
        Err(DeployerError::InstanceNotFound)
    ));
}
