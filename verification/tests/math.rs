use pallet_cex::pallet::Pallet;
use pallet_cex::wide::Wide;

fn wide(x: u128) -> Wide {
    Pallet::u128_to_u256_saturated(x)
}

#[test]
fn widening_keeps_the_value_in_the_low_limbs() {
    assert_eq!(wide(5).limbs, [5, 0, 0, 0]);
    assert_eq!(wide(u128::MAX).limbs, [u64::MAX, u64::MAX, 0, 0]);
    assert_eq!(wide(1u128 << 64).limbs, [0, 1, 0, 0]);
    assert_eq!(Pallet::assets_balance_to_u256_saturated(77).limbs, [77, 0, 0, 0]);
}

#[test]
fn narrowing_returns_the_value_where_it_fits() {
    assert_eq!(Pallet::u256_to_assets_balance_saturated(wide(0)), 0);
    assert_eq!(Pallet::u256_to_assets_balance_saturated(wide(123456789)), 123456789);
    assert_eq!(Pallet::u256_to_assets_balance_saturated(wide(u128::MAX)), u128::MAX);
    assert_eq!(
        Pallet::u256_to_assets_balance_saturated(Wide { limbs: [7, 9, 0, 0] }),
        (9u128 << 64) + 7
    );
}

#[test]
fn narrowing_saturates_beyond_128_bits() {
    assert_eq!(Pallet::u256_to_assets_balance_saturated(Wide { limbs: [0, 0, 1, 0] }), u128::MAX);
    assert_eq!(Pallet::u256_to_assets_balance_saturated(Wide { limbs: [5, 0, 0, 1] }), u128::MAX);
    assert_eq!(Pallet::u256_to_assets_balance_saturated(Wide { limbs: [u64::MAX; 4] }), u128::MAX);
}

#[test]
fn balance_conversions_are_exact() {
    assert_eq!(Pallet::u128_to_assets_balance_saturated(42), 42);
    assert_eq!(Pallet::assets_balance_to_u128_saturated(u128::MAX), u128::MAX);
    assert_eq!(Pallet::u128_to_native_currency_saturated(10000), 10000);
}

#[test]
fn sqrt_of_zero_is_zero() {
    assert_eq!(Pallet::sqrt(wide(0)), 0);
}

#[test]
fn sqrt_of_one_two_three_is_one() {
    assert_eq!(Pallet::sqrt(wide(1)), 1);
    assert_eq!(Pallet::sqrt(wide(2)), 1);
    assert_eq!(Pallet::sqrt(wide(3)), 1);
}

#[test]
fn sqrt_rounds_down() {
    assert_eq!(Pallet::sqrt(wide(4)), 2);
    assert_eq!(Pallet::sqrt(wide(8)), 2);
    assert_eq!(Pallet::sqrt(wide(9)), 3);
    assert_eq!(Pallet::sqrt(wide(15)), 3);
    assert_eq!(Pallet::sqrt(wide(16)), 4);
    assert_eq!(Pallet::sqrt(wide(1_000_000)), 1000);
    assert_eq!(Pallet::sqrt(wide(999_999)), 999);
    assert_eq!(Pallet::sqrt(wide(2_000_000)), 1414);
    assert_eq!(Pallet::sqrt(wide(1u128 << 100)), 1u128 << 50);
}

#[test]
fn sqrt_of_small_numbers_matches_its_definition() {
    let mut n: u128 = 0;
    while n < 5000 {
        let r = Pallet::sqrt(wide(n));
        assert!(r * r <= n);
        assert!(n < (r + 1) * (r + 1));
        n += 1;
    }
}

#[test]
fn sqrt_of_the_largest_numbers() {
    // (2^128 - 1)^2 = 2^256 - 2^129 + 1
    let square = Wide { limbs: [1, 0, 0xFFFF_FFFF_FFFF_FFFE, u64::MAX] };
    assert_eq!(Pallet::sqrt(square), u128::MAX);
    // one below that square
    let below = Wide { limbs: [0, 0, 0xFFFF_FFFF_FFFF_FFFE, u64::MAX] };
    assert_eq!(Pallet::sqrt(below), u128::MAX - 1);
    assert_eq!(Pallet::sqrt(Wide { limbs: [u64::MAX; 4] }), u128::MAX);
    // 2^128, whose root is 2^64
    assert_eq!(Pallet::sqrt(Wide { limbs: [0, 0, 1, 0] }), 1u128 << 64);
}

#[test]
fn min_returns_the_lesser() {
    assert_eq!(Pallet::min(wide(5), wide(9)), 5);
    assert_eq!(Pallet::min(wide(9), wide(5)), 5);
    assert_eq!(Pallet::min(wide(7), wide(7)), 7);
    assert_eq!(Pallet::min(Wide { limbs: [0, 0, 1, 0] }, wide(3)), 3);
    assert_eq!(Pallet::min(wide(0), Wide { limbs: [0, 0, 0, 1] }), 0);
}

#[test]
fn min_saturates_when_both_are_beyond_128_bits() {
    assert_eq!(
        Pallet::min(Wide { limbs: [0, 0, 1, 0] }, Wide { limbs: [0, 0, 2, 0] }),
        u128::MAX
    );
}
