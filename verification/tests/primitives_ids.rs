use afrolink::primitives::ids::{ChainId, Height, Round};

#[test]
fn heights_and_rounds_advance() {
    assert_eq!(Height::genesis().next(), Height(1));
    assert_eq!(Round::zero().next(), Round(1));
}

#[test]
fn height_saturates_rather_than_wrapping() {
    assert_eq!(Height(u64::MAX).next(), Height(u64::MAX));
}

#[test]
fn chain_ids_are_validated() {
    assert!(ChainId::new("afrolink-1").is_ok());
    assert!(ChainId::new("AfroLink-1").is_err());
    assert!(ChainId::new("").is_err());
    assert!(ChainId::new(&"a".repeat(51)).is_err());
}
