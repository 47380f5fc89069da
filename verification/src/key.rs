use vstd::prelude::*;
use crate::errors::Error;

verus! {

/// Value of a hex character, or -1 where the character is not a hex digit.
/// Both cases are read; the canonical printed form is lowercase.
pub open spec fn spec_hex_val(c: u8) -> int {
    if 48 <= c && c <= 57 {
        c - 48
    } else if 97 <= c && c <= 102 {
        c - 87
    } else if 65 <= c && c <= 70 {
        c - 55
    } else {
        -1
    }
}

/// Every character of `s` is a hex digit.
pub open spec fn spec_is_hex(s: Seq<u8>) -> bool {
    forall|i: int| 0 <= i < s.len() ==> spec_hex_val(#[trigger] s[i]) >= 0
}

/// The bytes encoded by an even-length hex string.
pub open spec fn spec_hex_decode(s: Seq<u8>) -> Seq<u8> {
    Seq::new((s.len() / 2) as nat, |i: int| (spec_hex_val(s[2 * i]) * 16 + spec_hex_val(s[2 * i + 1])) as u8)
}

/// The lowercase hex character for a value in `0..16`.
pub open spec fn spec_hex_digit(n: int) -> u8 {
    if n < 10 {
        (48 + n) as u8
    } else {
        (87 + n) as u8
    }
}

/// The lowercase hex encoding of `b`.
pub open spec fn spec_hex_encode(b: Seq<u8>) -> Seq<u8> {
    Seq::new((b.len() * 2) as nat, |i: int| if i % 2 == 0 {
        spec_hex_digit(b[i / 2] as int / 16)
    } else {
        spec_hex_digit(b[i / 2] as int % 16)
    })
}

/// Decoding the hex encoding of any byte string gives it back.
pub proof fn lemma_hex_round_trip(b: Seq<u8>)
    ensures
        spec_is_hex(spec_hex_encode(b)),
        spec_hex_encode(b).len() == b.len() * 2,
        spec_hex_decode(spec_hex_encode(b)) == b,
{
    let e = spec_hex_encode(b);
    assert forall|i: int| 0 <= i < e.len() implies spec_hex_val(#[trigger] e[i]) >= 0 by {
        if i % 2 == 0 {
            assert(e[i] == spec_hex_digit(b[i / 2] as int / 16));
        } else {
            assert(e[i] == spec_hex_digit(b[i / 2] as int % 16));
        }
    }
    let d = spec_hex_decode(e);
    assert forall|i: int| 0 <= i < b.len() implies d[i] == b[i] by {
        assert(e[2 * i] == spec_hex_digit(b[i] as int / 16));
        assert(e[2 * i + 1] == spec_hex_digit(b[i] as int % 16));
        assert(spec_hex_val(spec_hex_digit(b[i] as int / 16)) == b[i] as int / 16);
        assert(spec_hex_val(spec_hex_digit(b[i] as int % 16)) == b[i] as int % 16);
        assert(b[i] as int / 16 * 16 + b[i] as int % 16 == b[i] as int);
    }
    assert(d =~= b);
}

/// The hex text of a nonempty byte string is a usable grammar token:
/// nonempty, with no structural character inside.
pub proof fn lemma_hex_token_wf(b: Seq<u8>)
    requires
        b.len() > 0,
    ensures
        crate::expression::spec_token_wf(spec_hex_encode(b)),
{
    let e = spec_hex_encode(b);
    assert(e.len() == 2 * b.len());
    assert forall|i: int| 0 <= i < e.len() implies !crate::expression::spec_is_delim(
        #[trigger] e[i]) by {
        if i % 2 == 0 {
            assert(e[i] == spec_hex_digit(b[i / 2] as int / 16));
        } else {
            assert(e[i] == spec_hex_digit(b[i / 2] as int % 16));
        }
    }
}

/// Well-formedness of a serialized public key: a 33-byte compressed
/// encoding tagged 0x02 or 0x03, or a 65-byte uncompressed encoding
/// tagged 0x04.
pub open spec fn spec_key_wf(b: Seq<u8>) -> bool {
    (b.len() == 33 && (b[0] == 2 || b[0] == 3)) || (b.len() == 65 && b[0] == 4)
}

/// A public key as the wallet sees it: its serialized bytes. Construction
/// only succeeds on a well-formed serialization, so every value of this
/// type satisfies `spec_key_wf` of its view.
#[derive(Debug, PartialEq, Eq, PartialOrd, Ord, Hash)]
pub struct DescriptorKey {
    bytes: Vec<u8>,
}

impl View for DescriptorKey {
    type V = Seq<u8>;

    closed spec fn view(&self) -> Seq<u8> {
        self.bytes@
    }
}

impl Clone for DescriptorKey {
    /// Cloning a key keeps its bytes.
    fn clone(&self) -> (r: Self)
        ensures
            r@ == self@,
    {
        DescriptorKey { bytes: clone_bytes(&self.bytes) }
    }
}

/// Byte-for-byte copy of a byte vector.
pub fn clone_bytes(v: &Vec<u8>) -> (r: Vec<u8>)
    ensures
        r@ == v@,
{
    let mut r: Vec<u8> = Vec::new();
    let mut i: usize = 0;
    while i < v.len()
        invariant
            i <= v.len(),
            r@ == v@.subrange(0, i as int),
        decreases v.len() - i,
    {
        r.push(v[i]);
        i = i + 1;
        assert(r@ =~= v@.subrange(0, i as int));
    }
    assert(r@ =~= v@);
    r
}

/// Byte-for-byte equality of two byte vectors.
pub fn bytes_eq(a: &Vec<u8>, b: &Vec<u8>) -> (r: bool)
    ensures
        r == (a@ == b@),
{
    if a.len() != b.len() {
        assert(a@ != b@);
        return false;
    }
    let mut i: usize = 0;
    while i < a.len()
        invariant
            i <= a.len(),
            a@.len() == b@.len(),
            forall|j: int| 0 <= j < i ==> a@[j] == b@[j],
        decreases a.len() - i,
    {
        if a[i] != b[i] {
            return false;
        }
        i = i + 1;
    }
    assert(a@ =~= b@);
    true
}

impl DescriptorKey {
    /// The key's serialization is well formed; holds of every constructed key.
    pub open spec fn wf(&self) -> bool {
        spec_key_wf(self@)
    }

    /// The key has a compressed serialization.
    pub open spec fn spec_compressed(&self) -> bool {
        self@.len() == 33
    }

    /// Builds a key from its serialized bytes; succeeds exactly on a
    /// well-formed compressed or uncompressed encoding.
    pub fn from_bytes(bytes: Vec<u8>) -> (r: Result<DescriptorKey, Error>)
        ensures
            r is Ok <==> spec_key_wf(bytes@),
            r is Ok ==> r->Ok_0@ == bytes@ && r->Ok_0.wf(),
            r is Err ==> crate::errors::is_bad_key_err(r->Err_0, spec_hex_encode(bytes@)),
    {
        let ok = if bytes.len() == 33 {
            bytes[0] == 2 || bytes[0] == 3
        } else if bytes.len() == 65 {
            bytes[0] == 4
        } else {
            false
        };
        if ok {
            Ok(DescriptorKey { bytes })
        } else {
            Err(Error::BadKey(hex_encode(&bytes)))
        }
    }

    /// The serialized bytes, by reference.
    pub fn bytes(&self) -> (r: &Vec<u8>)
        ensures
            r@ == self@,
    {
        &self.bytes
    }

    /// The serialized bytes, as an owned vector.
    pub fn to_bytes(&self) -> (r: Vec<u8>)
        ensures
            r@ == self@,
    {
        clone_bytes(&self.bytes)
    }

    /// Number of bytes in the serialization: 33 compressed, 65 uncompressed.
    pub fn serialized_len(&self) -> (r: usize)
        ensures
            r == self@.len(),
    {
        self.bytes.len()
    }

    /// Whether the key's serialization is the uncompressed form.
    pub fn is_uncompressed(&self) -> (r: bool)
        ensures
            r == (self@.len() == 65),
    {
        self.bytes.len() == 65
    }

    /// Structural equality of two keys.
    pub fn key_equals(&self, other: &DescriptorKey) -> (r: bool)
        ensures
            r == (self@ == other@),
    {
        bytes_eq(&self.bytes, &other.bytes)
    }

    /// Reads a key from its hex text; succeeds exactly on an even-length
    /// hex string whose decoded bytes are a well-formed key.
    pub fn from_hex(t: &Vec<u8>) -> (r: Result<DescriptorKey, Error>)
        ensures
            r is Ok <==> (t@.len() % 2 == 0 && spec_is_hex(t@) && spec_key_wf(spec_hex_decode(t@))),
            r is Ok ==> r->Ok_0@ == spec_hex_decode(t@) && r->Ok_0.wf(),
            r is Err ==> r->Err_0 is BadKey,
    {
        if t.len() % 2 != 0 {
            return Err(Error::BadKey(clone_bytes(t)));
        }
        match hex_decode(t) {
            Some(bytes) => {
                let ghost dec = bytes@;
                match DescriptorKey::from_bytes(bytes) {
                    Ok(k) => Ok(k),
                    Err(_) => Err(Error::BadKey(clone_bytes(t))),
                }
            },
            None => Err(Error::BadKey(clone_bytes(t))),
        }
    }

    /// The key's canonical lowercase hex text.
    pub fn to_hex(&self) -> (r: Vec<u8>)
        ensures
            r@ == spec_hex_encode(self@),
    {
        hex_encode(&self.bytes)
    }
}

/// Lowercase hex text of `v`.
pub fn hex_encode(v: &Vec<u8>) -> (r: Vec<u8>)
    ensures
        r@ == spec_hex_encode(v@),
{
    let mut r: Vec<u8> = Vec::new();
    let mut i: usize = 0;
    while i < v.len()
        invariant
            i <= v.len(),
            r@.len() == 2 * i,
            forall|j: int| 0 <= j < r@.len() ==> r@[j] == spec_hex_encode(v@)[j],
        decreases v.len() - i,
    {
        let b = v[i];
        let hi = b / 16;
        let lo = b % 16;
        let c_hi = if hi < 10 { 48 + hi } else { 87 + hi };
        let c_lo = if lo < 10 { 48 + lo } else { 87 + lo };
        r.push(c_hi);
        r.push(c_lo);
        i = i + 1;
    }
    assert(r@ =~= spec_hex_encode(v@));
    r
}

/// Bytes of an even-length hex text; `None` where some character is not
/// a hex digit.
pub fn hex_decode(t: &Vec<u8>) -> (r: Option<Vec<u8>>)
    requires
        t@.len() % 2 == 0,
    ensures
        r is Some <==> spec_is_hex(t@),
        r is Some ==> r->0@ == spec_hex_decode(t@),
{
    let mut out: Vec<u8> = Vec::new();
    let mut i: usize = 0;
    while i + 1 < t.len()
        invariant
            t@.len() % 2 == 0,
            i % 2 == 0,
            i <= t.len(),
            out@.len() == i / 2,
            forall|j: int| 0 <= j < i ==> spec_hex_val(#[trigger] t@[j]) >= 0,
            forall|j: int| 0 <= j < out@.len() ==> out@[j] == spec_hex_decode(t@)[j],
        decreases t.len() - i,
    {
        let hi = hex_val(t[i]);
        let lo = hex_val(t[i + 1]);
        match (hi, lo) {
            (Some(h), Some(l)) => {
                out.push(h * 16 + l);
                i = i + 2;
            },
            _ => {
                return None;
            },
        }
    }
    assert(i == t.len());
    assert(out@ =~= spec_hex_decode(t@));
    Some(out)
}

/// Value of one hex character.
pub fn hex_val(c: u8) -> (r: Option<u8>)
    ensures
        r is Some <==> spec_hex_val(c) >= 0,
        r is Some ==> r->0 == spec_hex_val(c),
{
    if 48 <= c && c <= 57 {
        Some(c - 48)
    } else if 97 <= c && c <= 102 {
        Some(c - 87)
    } else if 65 <= c && c <= 70 {
        Some(c - 55)
    } else {
        None
    }
}

} // verus!
