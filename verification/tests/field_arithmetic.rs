use rap_machine::extension::Ef;
use rap_machine::field::{Fe, P};
use rap_machine::permutation::batch_multiplicative_inverse_allowing_zero;

fn ef(a: u32, b: u32, c: u32, d: u32) -> Ef {
    Ef::from_array([a, b, c, d])
}

#[test]
fn base_addition_wraps_at_the_prime() {
    assert_eq!(Fe::new(P - 1).add(Fe::new(2)).value(), 1);
    assert_eq!(Fe::new(P).value(), 0);
}

#[test]
fn base_subtraction_and_negation() {
    assert_eq!(Fe::new(3).sub(Fe::new(5)).value(), P - 2);
    assert_eq!(Fe::new(1).neg().value(), P - 1);
    assert_eq!(Fe::zero().neg().value(), 0);
}

#[test]
fn base_multiplication_reduces() {
    // (P - 1)^2 = 1 modulo P.
    assert_eq!(Fe::new(P - 1).mul(Fe::new(P - 1)).value(), 1);
    assert_eq!(Fe::new(65536).mul(Fe::new(65536)).value(), 268435454);
}

#[test]
fn x_to_the_fourth_is_eleven() {
    let x = Ef::monomial(1);
    let x2 = x.mul(x);
    let x4 = x2.mul(x2);
    assert_eq!(x4.to_array(), [11, 0, 0, 0]);
}

#[test]
fn extension_product_exact() {
    // (1 + 2X + 3X^2 + 4X^3)(5 + 6X + 7X^2 + 8X^3) with X^4 = 11.
    let r = ef(1, 2, 3, 4).mul(ef(5, 6, 7, 8));
    assert_eq!(r.to_array(), [5 + 11 * 61, 16 + 11 * 52, 34 + 11 * 32, 60]);
}

#[test]
fn inverse_times_element_is_one() {
    let a = ef(3, 1, 4, 1);
    let inv = a.try_inverse().unwrap();
    assert_ne!(inv.to_array(), a.to_array());
    assert_eq!(a.mul(inv).to_array(), [1, 0, 0, 0]);
}

#[test]
fn zero_has_no_inverse() {
    assert!(Ef::zero().try_inverse().is_none());
}

#[test]
fn batch_inverse_leaves_zeros() {
    let values = vec![ef(2, 0, 0, 0), Ef::zero(), ef(0, 1, 0, 0), Ef::zero(), ef(7, 7, 7, 7)];
    let inverses = batch_multiplicative_inverse_allowing_zero(values.clone());
    assert_eq!(inverses.len(), 5);
    for i in 0..5 {
        if values[i].is_zero() {
            assert!(inverses[i].is_zero());
        } else {
            assert_eq!(values[i].mul(inverses[i]).to_array(), [1, 0, 0, 0]);
        }
    }
    // The inverse of two is (P + 1) / 2.
    assert_eq!(inverses[0].to_array(), [(P + 1) / 2, 0, 0, 0]);
}
