use afrolink::alias::{ContactCommitment, Username};
use afrolink::crypto::hash::Hash32;
use afrolink::primitives::amount::{Amount, SENTE_PER_AFRI};
use afrolink::primitives::codec::{decode_exact, CodecError, Encode, Reader, MAX_FIELD_LEN};
use afrolink::primitives::country::CountryCode;
use afrolink::primitives::denom::Denom;
use afrolink::primitives::error::Error;
use afrolink::primitives::ids::{ChainId, Height, Round, Timestamp};
use afrolink::primitives::UNBONDING_MS;

#[test]
fn amounts_read_back_from_their_decimal_text() {
    for units in [
        0u128,
        1,
        10,
        999_999_999,
        1_000_000_000,
        2_500_000_000,
        123_456_789_012_345_678,
        u128::MAX,
    ] {
        let a = Amount::from_units(units);
        assert_eq!(Amount::from_decimal(&a.to_decimal()), Ok(a));
        assert_eq!(a.to_decimal(), a.to_string());
    }
}

#[test]
fn decimal_text_is_read_exactly() {
    assert_eq!(Amount::from_decimal("250"), Ok(Amount::from_afri(250)));
    assert_eq!(
        Amount::from_decimal("0.000000001"),
        Ok(Amount::from_units(1))
    );
    assert_eq!(
        Amount::from_decimal("12.5"),
        Ok(Amount::from_units(12_500_000_000))
    );
    for bad in [
        "",
        ".",
        ".5",
        "5.",
        "1.0000000001",
        "1e3",
        "-1",
        "+1",
        " 1",
        "1,5",
        "340282366920938463463374607431768211456",
    ] {
        assert!(Amount::from_decimal(bad).is_err(), "{bad:?}");
    }
}

#[test]
fn amount_arithmetic_is_exact_or_fails() {
    let a = Amount::from_units(7);
    assert_eq!(
        a.checked_add(Amount::from_units(5)),
        Ok(Amount::from_units(12))
    );
    assert_eq!(
        a.checked_sub(Amount::from_units(5)),
        Ok(Amount::from_units(2))
    );
    assert_eq!(a.checked_mul(6), Ok(Amount::from_units(42)));
    assert_eq!(a.mul_ratio(2, 3), Ok(Amount::from_units(4)));
    assert!(matches!(
        Amount::max_value().checked_mul(2),
        Err(Error::Overflow { .. })
    ));
    assert!(Amount::zero().is_zero());
    assert_eq!(Amount::default(), Amount::zero());
    assert_eq!(SENTE_PER_AFRI, 1_000_000_000);
}

#[test]
fn each_codec_error_has_an_input() {
    assert_eq!(
        decode_exact::<u32>(&[1, 2]),
        Err(CodecError::UnexpectedEof { wanted: 4, left: 2 })
    );
    assert_eq!(
        decode_exact::<String>(&(MAX_FIELD_LEN + 1).to_le_bytes()),
        Err(CodecError::LengthTooLarge {
            len: MAX_FIELD_LEN + 1
        })
    );
    assert!(matches!(
        decode_exact::<Option<u8>>(&[2]),
        Err(CodecError::UnknownDiscriminant { tag: 2, .. })
    ));
    assert_eq!(
        decode_exact::<u8>(&[1, 2, 3]),
        Err(CodecError::TrailingBytes { left: 2 })
    );
    let bytes = vec![0xFFu8, 0xFE].to_bytes();
    assert!(matches!(
        decode_exact::<String>(&bytes),
        Err(CodecError::Invalid(_))
    ));
}

#[test]
fn values_of_every_shape_read_back() {
    let list = vec![Some(1u64), None, Some(u64::MAX)];
    assert_eq!(decode_exact::<Vec<Option<u64>>>(&list.to_bytes()), Ok(list));
    assert_eq!(decode_exact::<bool>(&true.to_bytes()), Ok(true));
    assert_eq!(decode_exact::<i64>(&(-5i64).to_bytes()), Ok(-5));
    assert_eq!(
        decode_exact::<(u8, (u16, String))>(&(1u8, (2u16, "x".to_string())).to_bytes()),
        Ok((1, (2, "x".to_string())))
    );
}

#[test]
fn no_encoding_is_a_prefix_of_another() {
    let words = ["", "a", "ab", "b"];
    for a in words {
        for b in words {
            let (x, y) = (a.to_string().to_bytes(), b.to_string().to_bytes());
            assert_eq!(y.starts_with(&x), a == b, "{a:?} {b:?}");
        }
    }
}

#[test]
fn a_reader_takes_what_is_there_and_no_more() {
    let mut r = Reader::new(&[1, 2, 3]);
    assert_eq!(r.remaining(), 3);
    assert_eq!(r.take(2).unwrap(), &[1, 2]);
    assert_eq!(
        r.take(2),
        Err(CodecError::UnexpectedEof { wanted: 2, left: 1 })
    );
    assert_eq!(
        r.take(usize::MAX),
        Err(CodecError::LengthTooLarge { len: u32::MAX })
    );
    assert_eq!(r.remaining(), 1);
    assert_eq!(r.take_array::<1>().unwrap(), [3]);
    assert!(r.is_empty());
}

#[test]
fn denominations_fall_in_one_namespace_each() {
    for (text, native, sovereign, contract) in [
        ("afri", true, false, false),
        ("sov/ke/kes", false, true, false),
        ("cw/token", false, false, true),
    ] {
        let d = Denom::new(text).unwrap();
        assert_eq!(d.is_native(), native, "{text}");
        assert_eq!(d.is_sovereign(), sovereign, "{text}");
        assert_eq!(d.is_contract(), contract, "{text}");
    }
    assert!(matches!(
        Denom::new("a b"),
        Err(Error::InvalidDenom { .. })
    ));
}

#[test]
fn identifiers_carry_their_numbers() {
    assert_eq!(Height(7).to_string(), "7");
    assert_eq!(Round(u32::MAX).next(), Round(u32::MAX));
    assert_eq!(Timestamp::from_millis(2_999).as_secs(), 2);
    assert_eq!(Timestamp::from_millis(2_999).as_millis(), 2_999);
    assert_eq!(UNBONDING_MS, 1_814_400_000);
    assert!(matches!(
        ChainId::new("No"),
        Err(Error::InvalidChainId { .. })
    ));
    assert!(matches!(CountryCode::new("K"), Err(Error::Invalid { .. })));
}

#[test]
fn usernames_keep_to_their_rules() {
    for good in ["abc", "duka-la-amina", "a1b2", &"x".repeat(32)] {
        let name = Username::new(good).unwrap();
        assert_eq!(name.as_str(), good);
        assert_eq!(name.to_string(), format!("@{good}"));
        assert_eq!(decode_exact::<Username>(&name.to_bytes()), Ok(name));
    }
    for bad in ["", "ab", "Amina", "am ina", "afri", &"x".repeat(33)] {
        assert!(Username::new(bad).is_err(), "{bad:?}");
    }
    let c = ContactCommitment(Hash32::from_bytes([9; 32]));
    assert_eq!(decode_exact::<ContactCommitment>(&c.to_bytes()), Ok(c));
}
