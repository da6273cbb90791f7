use union_governance::access_config::{AccessConfig, AlloweeConstraint};
use union_governance::choice::Choice;
use union_governance::group::{Group, GroupRepository, GroupType};
use union_governance::pagination::PageRequest;
use union_governance::streaming::{StreamingRepository, StreamingRepositoryError};
use union_governance::voting_config::{
    Fraction, LenInterval, RoundSettings, ThresholdValue, VotingConfig,
};

fn round() -> RoundSettings {
    RoundSettings {
        round_duration: 100,
        round_delay: 10,
    }
}

#[test]
fn voting_config_rejects_inconsistent_intervals() {
    let r = VotingConfig::new(
        String::from("C"),
        String::from(""),
        Some(LenInterval { from: 5, to: 2 }),
        None,
        vec![],
        round(),
        ThresholdValue::QuantityOf(0),
        ThresholdValue::QuantityOf(0),
        ThresholdValue::QuantityOf(0),
        ThresholdValue::QuantityOf(0),
        ThresholdValue::QuantityOf(0),
    );
    assert!(r.is_err());

    assert!(!LenInterval { from: 5, to: 2 }.is_valid());
    assert!(LenInterval { from: 2, to: 5 }.is_valid());
}

#[test]
fn voting_config_rejects_improper_fractions() {
    let r = VotingConfig::new(
        String::from("C"),
        String::from(""),
        None,
        None,
        vec![],
        round(),
        ThresholdValue::FractionOf(Fraction {
            numerator: 3,
            denominator: 2,
        }),
        ThresholdValue::QuantityOf(0),
        ThresholdValue::QuantityOf(0),
        ThresholdValue::QuantityOf(0),
        ThresholdValue::QuantityOf(0),
    );
    assert!(r.is_err());
}

#[test]
fn voting_config_update_replaces_only_what_is_given() {
    let mut vc = VotingConfig::new(
        String::from("Old name"),
        String::from("Old description"),
        None,
        None,
        vec![1, 2],
        round(),
        ThresholdValue::QuantityOf(1),
        ThresholdValue::QuantityOf(2),
        ThresholdValue::QuantityOf(3),
        ThresholdValue::QuantityOf(4),
        ThresholdValue::QuantityOf(5),
    )
    .unwrap();

    vc.update(
        Some(String::from("  New name  ")),
        None,
        None,
        None,
        None,
        None,
        None,
        None,
        None,
        Some(ThresholdValue::QuantityOf(40)),
        None,
    )
    .unwrap();

    assert_eq!(
        vc.get_win_threshold(),
        &ThresholdValue::QuantityOf(40)
    );
    assert_eq!(
        vc.get_quorum_threshold(),
        &ThresholdValue::QuantityOf(2)
    );
    assert_eq!(vc.get_permissions(), &vec![1, 2]);

    // A rejected replacement leaves everything unchanged.
    let r = vc.update(
        None,
        None,
        Some(Some(LenInterval { from: 9, to: 1 })),
        None,
        None,
        None,
        None,
        None,
        None,
        None,
        None,
    );
    assert!(r.is_err());
    assert_eq!(vc.get_choices_count(), &None);
}

#[test]
fn permission_sets_drop_duplicates() {
    // The stores carry permission ids with set semantics: a repeated id
    // keeps only its first occurrence.
    let ac = AccessConfig::new(
        String::from("Admins"),
        String::from(""),
        vec![1, 2, 2, 1, 3],
        vec![AlloweeConstraint::Everyone],
    )
    .unwrap();
    assert_eq!(ac.get_permissions(), &vec![1, 2, 3]);

    let vc = VotingConfig::new(
        String::from("C"),
        String::from(""),
        None,
        None,
        vec![4, 4, 5],
        round(),
        ThresholdValue::QuantityOf(0),
        ThresholdValue::QuantityOf(0),
        ThresholdValue::QuantityOf(0),
        ThresholdValue::QuantityOf(0),
        ThresholdValue::QuantityOf(0),
    )
    .unwrap();
    assert_eq!(vc.get_permissions(), &vec![4, 5]);
}

#[test]
fn access_config_binds_permissions_to_allowees() {
    let ac = AccessConfig::new(
        String::from("Admins"),
        String::from(""),
        vec![1, 2, 3],
        vec![AlloweeConstraint::Everyone, AlloweeConstraint::Profile(7)],
    )
    .unwrap();
    assert_eq!(ac.get_permissions(), &vec![1, 2, 3]);
    assert_eq!(ac.get_allowees().len(), 2);
    assert!(ac.is_transient());

    let mut ac = ac;
    let r = ac.update(Some(String::new()), None, None, None);
    assert!(r.is_err(), "an empty name must be rejected");
    let r = ac.update(None, None, Some(vec![9]), None);
    assert!(r.is_ok());
    assert_eq!(ac.get_permissions(), &vec![9]);
}

#[test]
fn choice_validates_its_name() {
    let too_long = "x".repeat(300);
    let r = Choice::new(too_long, String::new(), union_governance::types::Program::Empty, 1);
    assert!(r.is_err());

    let c = Choice::new(
        String::from("  Fine  "),
        String::new(),
        union_governance::types::Program::Empty,
        1,
    )
    .unwrap();
    assert_eq!(c.get_voting_id(), &1);
}

#[test]
fn groups_round_trip_through_their_repository() {
    let mut repo = GroupRepository::new();
    let g = Group::new(
        String::from("Holders"),
        String::from("Token holders"),
        GroupType::Private,
    )
    .unwrap();
    let id = repo.save(g);
    let stored = repo.get(&id).unwrap();
    assert_eq!(stored.get_name(), "Holders");
    assert_eq!(stored.get_id(), Some(id));

    let page = repo.list(&PageRequest {
        page_index: 0,
        page_size: 10,
        filter: (),
        sort: (),
    });
    assert_eq!(page.data.len(), 1);
    assert!(!page.has_next);

    let removed = repo.delete(&id).unwrap();
    assert_eq!(removed.get_name(), "Holders");
    assert!(repo.get(&id).is_none());
}

#[test]
fn batches_lock_and_refuse_further_chunks() {
    let mut repo = StreamingRepository::new();
    let b = repo.create_batch(String::from("wasm/root"), String::from("application/wasm"));
    let c1 = repo.create_chunk(b, vec![1, 2, 3]).unwrap();
    assert_eq!(repo.get_chunk(&c1).unwrap().content, vec![1, 2, 3]);

    repo.lock_batch(b).unwrap();
    let r = repo.create_chunk(b, vec![4]);
    assert!(matches!(
        r,
        Err(StreamingRepositoryError::BatchIsAlreadyLocked(x)) if x == b
    ));
    let r = repo.lock_batch(b);
    assert!(matches!(
        r,
        Err(StreamingRepositoryError::BatchIsAlreadyLocked(x)) if x == b
    ));

    // Deleting the locked batch removes its chunks.
    repo.delete_batch(&b, true).unwrap();
    assert!(repo.get_batch(&b).is_err());
    assert!(matches!(
        repo.get_chunk(&c1),
        Err(StreamingRepositoryError::ChunkNotFound(x)) if x == c1
    ));
}

#[test]
fn batch_listing_copies_hold_the_same_data() {
    let mut repo = StreamingRepository::new();
    let b1 = repo.create_batch(String::from("a"), String::from("text/plain"));
    let _b2 = repo.create_batch(String::from("b"), String::from("text/plain"));
    let page = repo.get_batches_cloned(PageRequest {
        page_index: 0,
        page_size: 10,
        filter: (),
        sort: (),
    });
    assert_eq!(page.data.len(), 2);
    assert_eq!(page.data[0].0, b1);
    assert_eq!(page.data[0].1.get_key(), "a");
    assert!(!page.data[0].1.is_locked());
}

#[test]
fn a_batch_lists_each_chunk_once() {
    let mut b = union_governance::streaming::Batch::new(
        String::from("k"),
        String::from("text/plain"),
    );
    b.add_chunk(0, 9).unwrap();
    b.add_chunk(0, 9).unwrap();
    b.add_chunk(0, 10).unwrap();
    assert_eq!(b.get_chunk_ids(), &vec![9, 10]);
}

#[test]
fn chunks_need_an_existing_batch() {
    let mut repo = StreamingRepository::new();
    let r = repo.create_chunk(9, vec![1]);
    assert!(matches!(
        r,
        Err(StreamingRepositoryError::BatchNotFound(b)) if b == 9
    ));
}

#[test]
fn batches_can_be_edited_in_place() {
    let mut repo = StreamingRepository::new();
    let b = repo.create_batch(String::from("k"), String::from("text/plain"));
    {
        let batch = repo.get_batch_mut(&b).unwrap();
        batch.lock(b).unwrap();
    }
    assert!(repo.get_batch(&b).unwrap().is_locked());
    assert!(matches!(
        repo.get_batch_mut(&(b + 1)),
        Err(StreamingRepositoryError::BatchNotFound(_))
    ));
}
