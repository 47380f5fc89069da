use vstd::prelude::*;

verus! {

/// The network an address is rendered for.
#[derive(Clone, Copy, PartialEq, Eq, Debug)]
pub enum Network {
    Bitcoin,
    Testnet,
    Signet,
    Regtest,
}

/// Spec-level tag of a network, so address contracts can name the
/// network as a plain value.
pub open spec fn spec_network_id(n: Network) -> int {
    match n {
        Network::Bitcoin => 0int,
        Network::Testnet => 1int,
        Network::Signet => 2int,
        Network::Regtest => 3int,
    }
}

/// The SHA-256 digest of a byte string.
pub uninterp spec fn sha256_of(b: Seq<u8>) -> Seq<u8>;

/// The HASH160 digest (SHA-256 then RIPEMD-160) of a byte string.
pub uninterp spec fn hash160_of(b: Seq<u8>) -> Seq<u8>;

/// The bech32 pay-to-witness-script-hash address of a witness script on
/// a network.
pub uninterp spec fn p2wsh_addr_of(script: Seq<u8>, net: int) -> Seq<char>;

/// The bech32 pay-to-witness-public-key-hash address of a compressed key
/// on a network.
pub uninterp spec fn p2wpkh_addr_of(key: Seq<u8>, net: int) -> Seq<char>;

/// Whether key bytes are accepted as a valid compressed curve point;
/// a function of the bytes alone.
pub uninterp spec fn p2wpkh_valid_of(key: Seq<u8>) -> bool;

/// Relies on bitcoin::hashes::sha256::Hash::hash: the digest is 32 bytes
/// and depends on the input bytes alone.
#[verifier::external_body]
pub fn sha256(b: &Vec<u8>) -> (r: Vec<u8>)
    ensures
        r@ == sha256_of(b@),
        r@.len() == 32,
{
    let h = <bitcoin::hashes::sha256::Hash as bitcoin::hashes::Hash>::hash(b.as_slice());
    <bitcoin::hashes::sha256::Hash as bitcoin::hashes::Hash>::to_byte_array(h).to_vec()
}

/// Relies on bitcoin::hashes::hash160::Hash::hash: the digest is 20
/// bytes and depends on the input bytes alone.
#[verifier::external_body]
pub fn hash160(b: &Vec<u8>) -> (r: Vec<u8>)
    ensures
        r@ == hash160_of(b@),
        r@.len() == 20,
{
    let h = <bitcoin::hashes::hash160::Hash as bitcoin::hashes::Hash>::hash(b.as_slice());
    <bitcoin::hashes::hash160::Hash as bitcoin::hashes::Hash>::to_byte_array(h).to_vec()
}

/// Relies on bitcoin::Address::p2wsh, rendered through Display: the
/// address depends on the witness script and the chosen prefix alone.
#[verifier::external_body]
pub fn p2wsh_address(script: &Vec<u8>, network: Network) -> (r: String)
    ensures
        r@ == p2wsh_addr_of(script@, spec_network_id(network)),
{
    let s = bitcoin::ScriptBuf::from(script.clone());
    let hrp = match network {
        Network::Bitcoin => bitcoin::KnownHrp::Mainnet,
        Network::Testnet => bitcoin::KnownHrp::Testnets,
        Network::Signet => bitcoin::KnownHrp::Testnets,
        Network::Regtest => bitcoin::KnownHrp::Regtest,
    };
    bitcoin::Address::p2wsh(s.as_script(), hrp).to_string()
}

/// Relies on bitcoin::key::CompressedPublicKey::from_slice and
/// bitcoin::Address::p2wpkh: key validation depends on the bytes alone
/// (named `p2wpkh_valid_of`), and the address on the key and the chosen
/// prefix alone. Yields nothing exactly where the bytes are not a valid
/// compressed point.
#[verifier::external_body]
pub fn p2wpkh_address(key: &Vec<u8>, network: Network) -> (r: Option<String>)
    ensures
        r is Some <==> p2wpkh_valid_of(key@),
        r is Some ==> r->0@ == p2wpkh_addr_of(key@, spec_network_id(network)),
{
    let cpk = match bitcoin::key::CompressedPublicKey::from_slice(key.as_slice()) {
        Ok(c) => c,
        Err(_) => {
            return None;
        },
    };
    let hrp = match network {
        Network::Bitcoin => bitcoin::KnownHrp::Mainnet,
        Network::Testnet => bitcoin::KnownHrp::Testnets,
        Network::Signet => bitcoin::KnownHrp::Testnets,
        Network::Regtest => bitcoin::KnownHrp::Regtest,
    };
    Some(bitcoin::Address::p2wpkh(&cpk, hrp).to_string())
}

} // verus!
