use segwit_descriptors::errors::Error;
use segwit_descriptors::key::DescriptorKey;
use segwit_descriptors::script_expr::ScriptExpr;
use segwit_descriptors::segwitv0::{Wpkh, Wsh};

const K1: &str = "0279be667ef9dcbbac55a06295ce870b07029bfcdb2dce28d959f2815b16f81798";
const K2: &str = "02c6047f9441ed7d6d3045406e95c07cd85c778e4b8cef3ca7abac09b95c709ee5";
const K3: &str = "02f9308a019258c31049344f85f89d5229b531c845836f99b08601f113bce036f9";

fn key(s: &str) -> DescriptorKey {
    DescriptorKey::from_hex(&s.as_bytes().to_vec()).unwrap()
}

fn bytes(s: &str) -> Vec<u8> {
    s.as_bytes().to_vec()
}

#[test]
fn wpkh_round_trip() {
    let d = Wpkh::new(key(K1)).unwrap();
    let printed = d.descriptor_bytes();
    assert_eq!(printed, bytes(&format!("wpkh({})", K1)));
    let parsed = Wpkh::parse_descriptor(&printed).unwrap();
    assert_eq!(parsed, d);
}

#[test]
fn wsh_pk_round_trip() {
    let d = Wsh::new(ScriptExpr::Pk(key(K1))).unwrap();
    let printed = d.descriptor_bytes();
    assert_eq!(printed, bytes(&format!("wsh(pk({}))", K1)));
    let parsed = Wsh::parse_descriptor(&printed).unwrap();
    assert_eq!(parsed, d);
}

#[test]
fn wsh_multi_round_trip() {
    let d = Wsh::new(ScriptExpr::Multi(2, vec![key(K3), key(K1)])).unwrap();
    let printed = d.descriptor_bytes();
    // a plain multi keeps the given key order
    assert_eq!(printed, bytes(&format!("wsh(multi(2,{},{}))", K3, K1)));
    let parsed = Wsh::parse_descriptor(&printed).unwrap();
    assert_eq!(parsed, d);
}

#[test]
fn wsh_sortedmulti_round_trip() {
    let d = Wsh::new_sortedmulti(2, vec![key(K3), key(K1), key(K2)]).unwrap();
    let printed = d.descriptor_bytes();
    // printing lists the keys in canonical sorted order
    assert_eq!(
        printed,
        bytes(&format!("wsh(sortedmulti(2,{},{},{}))", K1, K2, K3))
    );
    let parsed = Wsh::parse_descriptor(&printed).unwrap();
    assert_eq!(parsed, d);
}

#[test]
fn parse_rejects_wrong_arity_with_shape_error() {
    let text = bytes(&format!("wsh(pk({}),pk({}))", K1, K2));
    match Wsh::parse_descriptor(&text) {
        Err(Error::Unexpected(name, count)) => {
            assert_eq!(name, bytes("wsh"));
            assert_eq!(count, 2);
        }
        _ => panic!("two arguments where one is required must fail with the shape error"),
    }
}

#[test]
fn parse_rejects_wrong_name_with_shape_error() {
    let text = bytes(&format!("wsheee(pk({}))", K1));
    match Wsh::parse_descriptor(&text) {
        Err(Error::Unexpected(name, count)) => {
            assert_eq!(name, bytes("wsheee"));
            assert_eq!(count, 1);
        }
        _ => panic!("a wrong node name must fail with the shape error"),
    }
}

#[test]
fn wpkh_parse_rejects_wrong_shape() {
    let text = bytes(&format!("wpkh({},{})", K1, K2));
    match Wpkh::parse_descriptor(&text) {
        Err(Error::Unexpected(name, count)) => {
            assert_eq!(name, bytes("wpkh"));
            assert_eq!(count, 2);
        }
        _ => panic!("two arguments where one is required must fail with the shape error"),
    }
}

#[test]
fn wpkh_parse_rejects_uncompressed_key() {
    let unc = "0479be667ef9dcbbac55a06295ce870b07029bfcdb2dce28d959f2815b16f81798483ada7726a3c4655da4fbfc0e1108a8fd17b448a68554199c47d08ffb10d4b8";
    let text = bytes(&format!("wpkh({})", unc));
    assert!(matches!(
        Wpkh::parse_descriptor(&text),
        Err(Error::ContextError(_))
    ));
}

#[test]
fn parse_rejects_bad_key_token() {
    let text = bytes("wpkh(zz79be)");
    assert!(matches!(Wpkh::parse_descriptor(&text), Err(Error::BadKey(_))));
}

#[test]
fn parse_rejects_bad_threshold_token() {
    let text = bytes(&format!("wsh(multi(two,{}))", K1));
    assert!(matches!(
        Wsh::parse_descriptor(&text),
        Err(Error::BadNumber(_))
    ));
}

#[test]
fn parse_rejects_threshold_out_of_bounds() {
    let text = bytes(&format!("wsh(sortedmulti(3,{},{}))", K1, K2));
    assert!(matches!(
        Wsh::parse_descriptor(&text),
        Err(Error::ContextError(_))
    ));
}

#[test]
fn parse_rejects_malformed_expression_text() {
    assert!(matches!(
        Wsh::parse_descriptor(&bytes("wsh(pk(")),
        Err(Error::BadTree)
    ));
    assert!(matches!(Wsh::parse_descriptor(&bytes("")), Err(Error::BadTree)));
    assert!(matches!(
        Wsh::parse_descriptor(&bytes("wsh(pk())")),
        Err(Error::BadTree)
    ));
}

#[test]
fn key_hex_round_trip_and_case() {
    let k = key(K1);
    assert_eq!(k.to_hex(), bytes(K1));
    assert_eq!(k.serialized_len(), 33);
    assert!(!k.is_uncompressed());
    // uppercase hex is read, and reprints in canonical lowercase
    let upper = K1.to_uppercase();
    let k2 = DescriptorKey::from_hex(&bytes(&upper)).unwrap();
    assert_eq!(k2, k);
    assert_eq!(k2.to_hex(), bytes(K1));
}

#[test]
fn key_from_bytes_checks_shape() {
    assert!(DescriptorKey::from_bytes(vec![2u8; 33]).is_ok());
    assert!(DescriptorKey::from_bytes(vec![4u8; 65]).is_ok());
    assert!(DescriptorKey::from_bytes(vec![5u8; 33]).is_err());
    assert!(DescriptorKey::from_bytes(vec![2u8; 32]).is_err());
}

#[test]
fn historical_text_name_matches_printer() {
    let d = Wpkh::new(key(K1)).unwrap();
    assert_eq!(d.to_string_no_checksum(), d.descriptor_bytes());
    let d = Wsh::new_sortedmulti(2, vec![key(K2), key(K1)]).unwrap();
    assert_eq!(d.to_string_no_checksum(), d.descriptor_bytes());
}
