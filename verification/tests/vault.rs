use science_vault::dispatch::{DispatchError, Origin};
use science_vault::handlers::AccountIdOf;
use science_vault::reward;
use science_vault::vault::{Config, Error, Event, Pallet, MAX_SOURCES};

fn new_test_ext() -> Pallet {
    Pallet::new(Config { fee_price: 10 })
}

/// Adds an element the way the runtime does, with a ledger that always pays.
fn add(p: &mut Pallet, origin: Origin, element: u64) -> Result<(), DispatchError> {
    let fee = match p.fee_due(origin, element) {
        Some((_who, _amount)) => Ok(()),
        None => Ok(()),
    };
    p.add_element(origin, element, fee, 0, 1, &mut ())
}

type Snapshot = (Option<Vec<u64>>, Option<(u64, u64, u64, Vec<Vec<u8>>)>, u64, Vec<Event>);

fn snapshot(p: &Pallet) -> Snapshot {
    (
        p.account_elements(1).cloned(),
        p.vault_element(42).map(|d| (d.element_id, d.owner, d.timestamp, d.sources.clone())),
        p.next_vault_element_id(),
        p.events().clone(),
    )
}

fn assert_noop(p: &mut Pallet, call: impl FnOnce(&mut Pallet) -> Result<(), DispatchError>, e: DispatchError) {
    let before = snapshot(p);
    assert_eq!(call(p), Err(e));
    assert_eq!(snapshot(p), before);
}

#[test]
fn insert_value() {
    let mut v = new_test_ext();
    assert_eq!(add(&mut v, Origin::Signed(1), 42), Ok(()));
    assert_eq!(v.vault_element(42).unwrap().element_id, 0);
    assert_eq!(v.vault_element(42).unwrap().owner, 1);
    let elements: Vec<u64> = vec![42];
    assert_eq!(v.account_elements(1).unwrap(), &elements);
    assert_eq!(v.last_event(), Some(&Event::AddedToVault { element_id: 0, who: 1 }));

    assert_eq!(add(&mut v, Origin::Signed(1), 44), Ok(()));
    assert_eq!(v.vault_element(44).unwrap().element_id, 1);
    assert_eq!(v.vault_element(42).unwrap().owner, 1);
    assert_eq!(v.last_event(), Some(&Event::AddedToVault { element_id: 1, who: 1 }));
}

#[test]
fn noop_insert_value() {
    let mut v = new_test_ext();
    assert_eq!(add(&mut v, Origin::Signed(1), 42), Ok(()));
    assert_eq!(v.vault_element(42).unwrap().element_id, 0);
    assert_eq!(v.vault_element(42).unwrap().owner, 1);
    let elements: Vec<u64> = vec![42];
    assert_eq!(v.account_elements(1).unwrap(), &elements);
    assert_eq!(v.last_event(), Some(&Event::AddedToVault { element_id: 0, who: 1 }));

    assert_noop(
        &mut v,
        |v| add(v, Origin::Signed(1), 42),
        DispatchError::Vault(Error::AlreadyInVault),
    );
    assert_eq!(v.account_elements(1).unwrap(), &elements);
}

#[test]
fn insert_source() {
    let mut v = new_test_ext();
    assert_eq!(add(&mut v, Origin::Signed(1), 42), Ok(()));
    assert_eq!(v.vault_element(42).unwrap().element_id, 0);
    assert_eq!(v.vault_element(42).unwrap().owner, 1);
    let mut sources: Vec<Vec<u8>> = Vec::new();
    assert_eq!(v.vault_element(42).unwrap().sources, sources.clone());
    let source: Vec<u8> = vec![0u8; 32];
    assert_eq!(v.set_element_source(Origin::Signed(1), 42, source.clone(), 1), Ok(()));
    sources.push(source.clone());
    assert_eq!(v.vault_element(42).unwrap().sources, sources);
    assert_eq!(v.last_event(), Some(&Event::SourceAdded { element_id: 0, source }));
}

#[test]
fn noop_insert_source() {
    let mut v = new_test_ext();
    let source: Vec<u8> = vec![0u8; 32];
    assert_noop(
        &mut v,
        |v| v.set_element_source(Origin::Signed(1), 42, source.clone(), 1),
        DispatchError::Vault(Error::NotFound),
    );

    assert_eq!(add(&mut v, Origin::Signed(1), 42), Ok(()));
    assert_eq!(v.vault_element(42).unwrap().element_id, 0);
    assert_eq!(v.vault_element(42).unwrap().owner, 1);
    let sources: Vec<Vec<u8>> = Vec::new();
    assert_eq!(v.vault_element(42).unwrap().sources, sources.clone());
    let source: Vec<u8> = vec![0u8; 32];
    assert_noop(
        &mut v,
        |v| v.set_element_source(Origin::Signed(0), 42, source.clone(), 1),
        DispatchError::Vault(Error::NotOwned),
    );

    for _ in 0..100 {
        assert_eq!(v.set_element_source(Origin::Signed(1), 42, source.clone(), 1), Ok(()));
    }
    assert_noop(
        &mut v,
        |v| v.set_element_source(Origin::Signed(1), 42, source.clone(), 1),
        DispatchError::Vault(Error::SourcesFull),
    );
}

#[test]
fn delete_element() {
    let mut v = new_test_ext();
    assert_eq!(add(&mut v, Origin::Signed(1), 42), Ok(()));
    assert_eq!(v.vault_element(42).unwrap().element_id, 0);
    assert_eq!(v.vault_element(42).unwrap().owner, 1);
    assert_eq!(v.delete_element(Origin::Root, 42, 1), Ok(()));
    assert_eq!(v.last_event(), Some(&Event::DeletedFromVault { element_id: 0 }));
}

#[test]
fn noop_delete_element() {
    let mut v = new_test_ext();
    assert_noop(
        &mut v,
        |v| v.delete_element(Origin::Root, 42, 1),
        DispatchError::Vault(Error::NotFound),
    );
    assert_eq!(add(&mut v, Origin::Signed(1), 42), Ok(()));
    assert_eq!(v.vault_element(42).unwrap().element_id, 0);
    assert_eq!(v.vault_element(42).unwrap().owner, 1);
    assert_noop(&mut v, |v| v.delete_element(Origin::Signed(1), 42, 1), DispatchError::BadOrigin);
}

#[test]
fn fee_due_only_for_new_signed_elements() {
    let mut v = new_test_ext();
    assert_eq!(v.fee_due(Origin::Signed(3), 42), Some((3, 10)));
    assert_eq!(v.fee_due(Origin::Root, 42), None);
    assert_eq!(add(&mut v, Origin::Signed(3), 42), Ok(()));
    assert_eq!(v.fee_due(Origin::Signed(3), 42), None);
}

#[test]
fn refused_fee_adds_nothing() {
    let mut v = new_test_ext();
    let refused = Err(DispatchError::Currency(science_vault::dispatch::CurrencyError::InsufficientBalance));
    assert_eq!(v.add_element(Origin::Signed(1), 42, refused, 0, 1, &mut ()), refused);
    assert!(v.vault_element(42).is_none());
    assert_eq!(v.next_vault_element_id(), 0);
    assert!(v.events().is_empty());
    assert_eq!(v.add_element(Origin::Unsigned, 42, Ok(()), 0, 1, &mut ()), Err(DispatchError::BadOrigin));
}

#[test]
fn added_element_keeps_time_and_owner() {
    let mut v = new_test_ext();
    assert_eq!(v.add_element(Origin::Signed(8), 9, Ok(()), 1_700, 1, &mut ()), Ok(()));
    assert_eq!(v.vault_element(9).unwrap().timestamp, 1_700);
    assert_eq!(v.account_id_of(&9), Some(8));
    assert_eq!(AccountIdOf::convert(&v, 9), Some(8));
    assert_eq!(v.account_id_of(&10), None);
    assert_eq!(v.delete_element(Origin::Root, 9, 1), Ok(()));
    assert_eq!(v.account_id_of(&9), None);
    // the owner's list keeps the deleted element
    assert_eq!(v.account_elements(8).unwrap(), &vec![9]);
}

#[test]
fn element_ids_are_consecutive_and_not_reused() {
    let mut v = new_test_ext();
    for e in 0..5u64 {
        assert_eq!(add(&mut v, Origin::Signed(e % 2), e), Ok(()));
    }
    assert_eq!(v.delete_element(Origin::Root, 4, 1), Ok(()));
    assert_eq!(add(&mut v, Origin::Signed(1), 4), Ok(()));
    assert_eq!(v.vault_element(4).unwrap().element_id, 5);
    assert_eq!(v.account_elements(0).unwrap(), &vec![0, 2, 4]);
    assert_eq!(v.account_elements(1).unwrap(), &vec![1, 3, 4]);
    assert_eq!(MAX_SOURCES, 100);
}

#[test]
fn adding_elements_feeds_the_reputation_pallet() {
    let mut v = new_test_ext();
    let mut r = reward::Pallet::new(reward::Config {
        reevaluation_period: 10,
        weights: reward::RewardWeights {
            do_process_evaluation_queue: science_vault::weight::Weight::zero(),
            process_evaluation_queue_one: science_vault::weight::Weight::zero(),
            process_evaluation_queue_two: science_vault::weight::Weight::zero(),
            on_idle_noop: science_vault::weight::Weight::zero(),
        },
    });
    assert_eq!(v.add_element(Origin::Signed(4), 1, Ok(()), 0, 1, &mut r), Ok(()));
    assert_eq!(v.add_element(Origin::Signed(4), 2, Ok(()), 0, 1, &mut r), Ok(()));
    assert_eq!(
        v.add_element(Origin::Signed(4), 2, Ok(()), 0, 1, &mut r),
        Err(DispatchError::Vault(Error::AlreadyInVault))
    );
    assert_eq!(r.reputation(4).unwrap().contribution, 2);
    assert_eq!(r.account_queue(), &vec![4]);
}

#[test]
fn no_vault_events_at_genesis_block() {
    let mut v = new_test_ext();
    assert_eq!(v.add_element(Origin::Signed(1), 42, Ok(()), 0, 0, &mut ()), Ok(()));
    assert_eq!(v.set_element_source(Origin::Signed(1), 42, vec![1u8], 0), Ok(()));
    assert_eq!(v.vault_element(42).unwrap().sources, vec![vec![1u8]]);
    assert_eq!(v.delete_element(Origin::Root, 42, 0), Ok(()));
    assert!(v.vault_element(42).is_none());
    assert!(v.events().is_empty());
    assert_eq!(v.last_event(), None);
}
