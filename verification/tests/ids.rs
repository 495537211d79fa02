use mobx_rs::ids::{DerivationId, IdError, ObservableId, ReactionId};

#[test]
fn test_id_round_trip() {
    let raw: u64 = 42;
    let id = ObservableId::try_from_raw(raw).unwrap();
    assert_eq!(ObservableId::try_from_raw(id.get()).unwrap(), id);
    assert_eq!(id.get(), 42);
}

#[test]
fn test_id_rejects_zero() {
    assert!(ObservableId::try_from_raw(0).is_err());
    assert!(DerivationId::try_from_raw(0).is_err());
    assert!(ReactionId::try_from_raw(0).is_err());
}

#[test]
fn zero_id_error_message() {
    let err = ReactionId::try_from_raw(0).unwrap_err();
    assert_eq!(err, IdError::Zero);
    assert_eq!(err.message(), "ID values must be non-zero");
}
