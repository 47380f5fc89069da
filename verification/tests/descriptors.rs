use segwit_descriptors::crypto::Network;
use segwit_descriptors::errors::{Error, ScriptContextError, TranslateErr};
use segwit_descriptors::key::DescriptorKey;
use segwit_descriptors::oracles::{KeySet, MapTranslator, SigMap};
use segwit_descriptors::policy::Policy;
use segwit_descriptors::satisfy::{Placeholder, Witness};
use segwit_descriptors::script_expr::ScriptExpr;
use segwit_descriptors::segwitv0::{Wpkh, Wsh, WshInner};

// The secp256k1 generator point, compressed; its hash160 and the derived
// addresses are the reference examples of the segwit specification.
const G: &str = "0279be667ef9dcbbac55a06295ce870b07029bfcdb2dce28d959f2815b16f81798";
const G2: &str = "02c6047f9441ed7d6d3045406e95c07cd85c778e4b8cef3ca7abac09b95c709ee5";
const G3: &str = "02f9308a019258c31049344f85f89d5229b531c845836f99b08601f113bce036f9";
const G_UNCOMPRESSED: &str = "0479be667ef9dcbbac55a06295ce870b07029bfcdb2dce28d959f2815b16f81798483ada7726a3c4655da4fbfc0e1108a8fd17b448a68554199c47d08ffb10d4b8";

fn key(s: &str) -> DescriptorKey {
    DescriptorKey::from_hex(&s.as_bytes().to_vec()).unwrap()
}

fn unhex(s: &str) -> Vec<u8> {
    let b = s.as_bytes();
    let mut out = Vec::new();
    let mut i = 0;
    while i < b.len() {
        let v = |c: u8| -> u8 {
            if c.is_ascii_digit() {
                c - b'0'
            } else {
                c - b'a' + 10
            }
        };
        out.push(v(b[i]) * 16 + v(b[i + 1]));
        i += 2;
    }
    out
}

#[test]
fn wpkh_new_accepts_compressed() {
    let d = Wpkh::new(key(G)).unwrap();
    assert_eq!(d.as_inner(), &key(G));
    assert!(d.sanity_check().is_ok());
}

#[test]
fn wpkh_new_rejects_uncompressed() {
    let r = Wpkh::new(key(G_UNCOMPRESSED));
    match r {
        Err(ScriptContextError::CompressedOnly(t)) => {
            assert_eq!(t, G_UNCOMPRESSED.as_bytes().to_vec());
        }
        _ => panic!("uncompressed key must be rejected"),
    }
}

#[test]
fn wpkh_script_pubkey_is_22_bytes_with_known_hash() {
    let d = Wpkh::new(key(G)).unwrap();
    let spk = d.script_pubkey();
    assert_eq!(spk.len(), 22);
    assert_eq!(spk, unhex("0014751e76e8199196d454941c45d1b3a323f1433bd6"));
    assert_eq!(d.inner_script(), spk);
}

#[test]
fn wpkh_address_mainnet_known_vector() {
    let d = Wpkh::new(key(G)).unwrap();
    let addr = d.address(Network::Bitcoin).unwrap();
    assert_eq!(addr, "bc1qw508d6qejxtdg4y5r3zarvary0c5xw7kv8f3t4");
}

#[test]
fn wpkh_sighash_script_code_is_p2pkh_shape() {
    let d = Wpkh::new(key(G)).unwrap();
    let code = d.ecdsa_sighash_script_code();
    assert_eq!(
        code,
        unhex("76a914751e76e8199196d454941c45d1b3a323f1433bd688ac")
    );
    assert_eq!(code.len(), 25);
}

#[test]
fn wsh_script_pubkey_is_34_bytes_with_known_hash() {
    let d = Wsh::new(ScriptExpr::Pk(key(G))).unwrap();
    let spk = d.script_pubkey();
    assert_eq!(spk.len(), 34);
    assert_eq!(
        spk,
        unhex("00201863143c14c5166804bd19203356da136c985678cd4d27a1b8c6329604903262")
    );
}

#[test]
fn wsh_inner_script_is_pk_checksig() {
    let d = Wsh::new(ScriptExpr::Pk(key(G))).unwrap();
    let mut expected = vec![0x21u8];
    expected.extend(unhex(G));
    expected.push(0xac);
    assert_eq!(d.inner_script(), expected);
    assert_eq!(d.ecdsa_sighash_script_code(), expected);
}

#[test]
fn wsh_address_mainnet_known_vector() {
    let d = Wsh::new(ScriptExpr::Pk(key(G))).unwrap();
    let addr = d.address(Network::Bitcoin);
    assert_eq!(
        addr,
        "bc1qrp33g0q5c5txsp9arysrx4k6zdkfs4nce4xj0gdcccefvpysxf3qccfmv3"
    );
}

#[test]
fn wsh_new_rejects_uncompressed_key() {
    let r = Wsh::new(ScriptExpr::Pk(key(G_UNCOMPRESSED)));
    match r {
        Err(Error::ContextError(ScriptContextError::CompressedOnly(_))) => {}
        _ => panic!("uncompressed key must be rejected"),
    }
}

#[test]
fn wsh_new_rejects_bad_threshold() {
    let r = Wsh::new(ScriptExpr::Multi(0, vec![key(G)]));
    match r {
        Err(Error::ContextError(ScriptContextError::InvalidThreshold(0, 1))) => {}
        _ => panic!("zero threshold must be rejected"),
    }
    let r = Wsh::new(ScriptExpr::Multi(2, vec![key(G)]));
    assert!(matches!(
        r,
        Err(Error::ContextError(ScriptContextError::InvalidThreshold(2, 1)))
    ));
}

#[test]
fn sortedmulti_rejects_too_many_keys() {
    let keys: Vec<DescriptorKey> = (0..21).map(|_| key(G)).collect();
    let r = Wsh::new_sortedmulti(2, keys);
    assert!(matches!(
        r,
        Err(Error::ContextError(ScriptContextError::MultisigTooManyKeys(21)))
    ));
}

#[test]
fn sortedmulti_orders_keys_canonically() {
    let d = Wsh::new_sortedmulti(2, vec![key(G3), key(G), key(G2)]).unwrap();
    match d.into_inner() {
        WshInner::SortedMulti(smv) => {
            assert_eq!(smv.k(), 2);
            assert_eq!(smv.keys(), vec![key(G), key(G2), key(G3)]);
        }
        _ => panic!("expected the sorted-multisig variant"),
    }
}

#[test]
fn wpkh_weight_bounds() {
    let d = Wpkh::new(key(G)).unwrap();
    assert_eq!(d.max_weight_to_satisfy(), 107);
    assert_eq!(d.max_satisfaction_weight(), 112);
}

#[test]
fn wsh_weight_bounds_sortedmulti() {
    let d = Wsh::new_sortedmulti(2, vec![key(G3), key(G), key(G2)]).unwrap();
    // script: pushnum(2) + three 34-byte key pushes + pushnum(3) + checkmultisig
    assert_eq!(d.max_weight_to_satisfy().unwrap(), 253);
    assert_eq!(d.max_satisfaction_weight().unwrap(), 258);
}

#[test]
fn wsh_weight_bounds_pk() {
    let d = Wsh::new(ScriptExpr::Pk(key(G))).unwrap();
    assert_eq!(d.max_weight_to_satisfy().unwrap(), 109);
    assert_eq!(d.max_satisfaction_weight().unwrap(), 114);
}

#[test]
fn wpkh_satisfaction_hit_and_miss() {
    let d = Wpkh::new(key(G)).unwrap();
    let empty = SigMap::new();
    match d.get_satisfaction(&empty) {
        Err(Error::MissingSig(k)) => assert_eq!(k, key(G)),
        _ => panic!("missing signature must be reported"),
    }
    let mut sigs = SigMap::new();
    let sig = vec![0x30u8, 0x45, 0x02, 0x21, 0x99];
    sigs.insert(key(G), sig.clone());
    let (witness, script_sig) = d.get_satisfaction(&sigs).unwrap();
    assert_eq!(witness, vec![sig.clone(), unhex(G)]);
    assert_eq!(witness[1].len(), 33);
    assert!(script_sig.is_empty());
    // the single-key path has no malleability axis
    assert_eq!(d.get_satisfaction_mall(&sigs).unwrap().0, witness);
}

#[test]
fn wsh_sortedmulti_satisfaction() {
    let d = Wsh::new_sortedmulti(2, vec![key(G3), key(G), key(G2)]).unwrap();
    let mut sigs = SigMap::new();
    let s1 = vec![0x11u8; 70];
    let s3 = vec![0x33u8; 70];
    sigs.insert(key(G), s1.clone());
    sigs.insert(key(G3), s3.clone());
    let (witness, script_sig) = d.get_satisfaction(&sigs).unwrap();
    // dummy element, then signatures in canonical key order, then the script
    assert_eq!(witness.len(), 4);
    assert_eq!(witness[0], Vec::<u8>::new());
    assert_eq!(witness[1], s1);
    assert_eq!(witness[2], s3);
    assert_eq!(witness[3], d.inner_script());
    assert!(script_sig.is_empty());

    let mut one = SigMap::new();
    one.insert(key(G2), s1.clone());
    assert!(matches!(d.get_satisfaction(&one), Err(Error::CouldNotSatisfy)));
}

#[test]
fn wsh_pk_satisfaction_appends_witness_script() {
    let d = Wsh::new(ScriptExpr::Pk(key(G))).unwrap();
    let mut sigs = SigMap::new();
    let sig = vec![0x42u8; 71];
    sigs.insert(key(G), sig.clone());
    let (witness, _) = d.get_satisfaction(&sigs).unwrap();
    assert_eq!(witness, vec![sig, d.inner_script()]);
    let (witness_mall, _) = d.get_satisfaction_mall(&sigs).unwrap();
    assert_eq!(witness_mall, witness);
}

#[test]
fn wpkh_plan_available_and_unavailable() {
    let d = Wpkh::new(key(G)).unwrap();
    let mut assets = KeySet::new();
    assets.insert(key(G));
    let plan = d.plan_satisfaction(&assets);
    assert!(plan.has_sig);
    assert_eq!(plan.relative_timelock, None);
    assert_eq!(plan.absolute_timelock, None);
    match plan.stack {
        Witness::Stack(v) => {
            assert_eq!(
                v,
                vec![
                    Placeholder::EcdsaSigPk(key(G)),
                    Placeholder::Pubkey(key(G), 34)
                ]
            );
        }
        _ => panic!("plan must be available"),
    }
    let none = KeySet::new();
    assert!(matches!(d.plan_satisfaction(&none).stack, Witness::Unavailable));
    assert!(matches!(
        d.plan_satisfaction_mall(&none).stack,
        Witness::Unavailable
    ));
}

#[test]
fn wsh_plan_sortedmulti() {
    let d = Wsh::new_sortedmulti(2, vec![key(G3), key(G), key(G2)]).unwrap();
    let mut assets = KeySet::new();
    assets.insert(key(G));
    assets.insert(key(G3));
    let plan = d.plan_satisfaction(&assets);
    match plan.stack {
        Witness::Stack(v) => {
            assert_eq!(
                v,
                vec![
                    Placeholder::PushZero,
                    Placeholder::EcdsaSigPk(key(G)),
                    Placeholder::EcdsaSigPk(key(G3)),
                ]
            );
        }
        _ => panic!("plan must be available"),
    }
    let mut short = KeySet::new();
    short.insert(key(G2));
    assert!(matches!(d.plan_satisfaction(&short).stack, Witness::Unavailable));
}

#[test]
fn translation_is_all_or_nothing() {
    let d = Wsh::new_sortedmulti(3, vec![key(G), key(G2), key(G3)]).unwrap();
    // a mapping that fails on one of the three keys
    let mut partial = MapTranslator::new();
    partial.insert(key(G), key(G));
    partial.insert(key(G2), key(G2));
    let r = d.translate_pk(&partial);
    assert!(matches!(r, Err(TranslateErr::TranslatorErr(_))));
    // the original is untouched and still satisfies its own contract
    assert!(d.sanity_check().is_ok());
    // a total mapping translates the whole descriptor
    let mut total = MapTranslator::new();
    total.insert(key(G), key(G));
    total.insert(key(G2), key(G2));
    total.insert(key(G3), key(G3));
    let translated = d.translate_pk(&total).unwrap();
    assert_eq!(translated, d);
}

#[test]
fn wpkh_translation_errors_are_distinguished() {
    let d = Wpkh::new(key(G)).unwrap();
    let none = MapTranslator::new();
    assert!(matches!(
        d.translate_pk(&none),
        Err(TranslateErr::TranslatorErr(_))
    ));
    let mut to_uncompressed = MapTranslator::new();
    to_uncompressed.insert(key(G), key(G_UNCOMPRESSED));
    assert!(matches!(
        d.translate_pk(&to_uncompressed),
        Err(TranslateErr::OuterError(Error::ContextError(_)))
    ));
    let mut swap = MapTranslator::new();
    swap.insert(key(G), key(G2));
    let translated = d.translate_pk(&swap).unwrap();
    assert_eq!(translated.as_inner(), &key(G2));
}

#[test]
fn lift_yields_policy_of_inner() {
    let d = Wpkh::new(key(G)).unwrap();
    assert_eq!(d.lift().unwrap(), Policy::Key(key(G)));

    let d = Wsh::new(ScriptExpr::Pk(key(G))).unwrap();
    assert_eq!(d.lift().unwrap(), Policy::Key(key(G)));

    let d = Wsh::new_sortedmulti(2, vec![key(G3), key(G), key(G2)]).unwrap();
    let lifted = d.lift().unwrap();
    assert_eq!(lifted, Policy::Threshold(2, vec![key(G), key(G2), key(G3)]));
    // lifting the descriptor equals lifting its wrapped variant
    match d.into_inner() {
        WshInner::SortedMulti(smv) => assert_eq!(smv.lift(), lifted),
        _ => panic!("expected the sorted-multisig variant"),
    }
}

#[test]
fn varint_length_follows_bitcoin_rules() {
    assert_eq!(segwit_descriptors::varint_len(0), 1);
    assert_eq!(segwit_descriptors::varint_len(0xFC), 1);
    assert_eq!(segwit_descriptors::varint_len(0xFD), 3);
    assert_eq!(segwit_descriptors::varint_len(0xFFFF), 3);
    assert_eq!(segwit_descriptors::varint_len(0x10000), 5);
}

#[test]
fn sortedmulti_accepts_twenty_keys_and_duplicates() {
    // the largest key list the context admits
    let twenty: Vec<DescriptorKey> = (0..20).map(|_| key(G)).collect();
    let d = Wsh::new_sortedmulti(20, twenty).unwrap();
    assert!(d.sanity_check().is_ok());
    // equal keys are kept with their multiplicity
    let dup = Wsh::new_sortedmulti(2, vec![key(G2), key(G), key(G2)]).unwrap();
    match dup.into_inner() {
        WshInner::SortedMulti(smv) => {
            assert_eq!(smv.keys(), vec![key(G), key(G2), key(G2)]);
        }
        _ => panic!("expected the sorted-multisig variant"),
    }
}

#[test]
fn wsh_plan_pk_variant() {
    let d = Wsh::new(ScriptExpr::Pk(key(G))).unwrap();
    let mut assets = KeySet::new();
    assets.insert(key(G));
    match d.plan_satisfaction(&assets).stack {
        Witness::Stack(v) => assert_eq!(v, vec![Placeholder::EcdsaSigPk(key(G))]),
        _ => panic!("plan must be available"),
    }
    assert!(matches!(
        d.plan_satisfaction_mall(&KeySet::new()).stack,
        Witness::Unavailable
    ));
}
