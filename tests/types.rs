use deeplearning::types::U60000;
use typenum::Unsigned;

#[test]
#[allow(non_snake_case)]
fn U60000_is_60000() {
    assert_eq!(U60000::to_u32(), 60_000);
}
