use vstd::prelude::*;
use crate::errors::TranslatorError;
use crate::key::{DescriptorKey, spec_key_wf};
use crate::satisfy::{Satisfier, AssetProvider, Translator};

verus! {

/// One signature a map oracle holds: a key and the signature bytes.
pub struct SigEntry {
    pub key: DescriptorKey,
    pub sig: Vec<u8>,
}

/// Whether some entry carries the key `pk`; the first match decides.
pub open spec fn spec_map_has(es: Seq<SigEntry>, pk: Seq<u8>) -> bool
    decreases es.len(),
{
    if es.len() == 0 {
        false
    } else if es[0].key@ == pk {
        true
    } else {
        spec_map_has(es.drop_first(), pk)
    }
}

/// The signature of the first entry carrying the key `pk`.
pub open spec fn spec_map_sig(es: Seq<SigEntry>, pk: Seq<u8>) -> Seq<u8>
    decreases es.len(),
{
    if es.len() == 0 {
        Seq::empty()
    } else if es[0].key@ == pk {
        es[0].sig@
    } else {
        spec_map_sig(es.drop_first(), pk)
    }
}

/// A signature oracle backed by a list of key-signature pairs; the
/// simplest satisfier a wallet or a test can hand to satisfaction.
pub struct SigMap {
    entries: Vec<SigEntry>,
}

impl SigMap {
    /// An oracle holding nothing.
    pub fn new() -> (r: SigMap)
        ensures
            r@.len() == 0,
    {
        SigMap { entries: Vec::new() }
    }

    /// Records a signature for a key.
    pub fn insert(&mut self, key: DescriptorKey, sig: Vec<u8>)
        ensures
            final(self)@ == old(self)@.push(SigEntry { key, sig }),
    {
        self.entries.push(SigEntry { key, sig });
    }
}

impl View for SigMap {
    type V = Seq<SigEntry>;

    closed spec fn view(&self) -> Seq<SigEntry> {
        self.entries@
    }
}

impl Satisfier for SigMap {
    open spec fn spec_has_sig(&self, pk: Seq<u8>) -> bool {
        spec_map_has(self@, pk)
    }

    open spec fn spec_sig(&self, pk: Seq<u8>) -> Seq<u8> {
        spec_map_sig(self@, pk)
    }

    fn lookup_ecdsa_sig(&self, pk: &DescriptorKey) -> (r: Option<Vec<u8>>) {
        let mut i: usize = 0;
        proof {
            assert(self@.skip(0) =~= self@);
        }
        while i < self.entries.len()
            invariant
                i <= self@.len(),
                spec_map_has(self@, pk@) == spec_map_has(self@.skip(i as int), pk@),
                spec_map_has(self@, pk@) ==> spec_map_sig(self@, pk@) == spec_map_sig(
                    self@.skip(i as int),
                    pk@,
                ),
            decreases self@.len() - i,
        {
            proof {
                assert(self@.skip(i as int).drop_first() =~= self@.skip(i as int + 1));
                assert(self@.skip(i as int)[0] == self@[i as int]);
            }
            if self.entries[i].key.key_equals(pk) {
                return Some(crate::key::clone_bytes(&self.entries[i].sig));
            }
            i = i + 1;
        }
        assert(self@.skip(i as int) =~= Seq::<SigEntry>::empty());
        None
    }
}

/// Whether some key of the list is `pk`.
pub open spec fn spec_set_has(ks: Seq<DescriptorKey>, pk: Seq<u8>) -> bool
    decreases ks.len(),
{
    if ks.len() == 0 {
        false
    } else if ks[0]@ == pk {
        true
    } else {
        spec_set_has(ks.drop_first(), pk)
    }
}

/// An availability oracle backed by a list of keys: a signature is
/// available exactly for the listed keys. Used for planning, without
/// secret material.
pub struct KeySet {
    keys: Vec<DescriptorKey>,
}

impl KeySet {
    /// An oracle reporting nothing available.
    pub fn new() -> (r: KeySet)
        ensures
            r@.len() == 0,
    {
        KeySet { keys: Vec::new() }
    }

    /// Marks a key available.
    pub fn insert(&mut self, key: DescriptorKey)
        ensures
            final(self)@ == old(self)@.push(key),
    {
        self.keys.push(key);
    }
}

impl View for KeySet {
    type V = Seq<DescriptorKey>;

    closed spec fn view(&self) -> Seq<DescriptorKey> {
        self.keys@
    }
}

impl AssetProvider for KeySet {
    open spec fn spec_has_sig(&self, pk: Seq<u8>) -> bool {
        spec_set_has(self@, pk)
    }

    fn provider_lookup_ecdsa_sig(&self, pk: &DescriptorKey) -> (r: bool) {
        let mut i: usize = 0;
        proof {
            assert(self@.skip(0) =~= self@);
        }
        while i < self.keys.len()
            invariant
                i <= self@.len(),
                spec_set_has(self@, pk@) == spec_set_has(self@.skip(i as int), pk@),
            decreases self@.len() - i,
        {
            proof {
                assert(self@.skip(i as int).drop_first() =~= self@.skip(i as int + 1));
                assert(self@.skip(i as int)[0] == self@[i as int]);
            }
            if self.keys[i].key_equals(pk) {
                return true;
            }
            i = i + 1;
        }
        assert(self@.skip(i as int) =~= Seq::<DescriptorKey>::empty());
        false
    }
}

/// One rule of a map translator: which key maps to which.
pub struct TransEntry {
    pub from: DescriptorKey,
    pub to: DescriptorKey,
}

/// Whether some rule maps the key `pk` to a well-formed key; the first
/// matching rule decides.
pub open spec fn spec_trans_ok(es: Seq<TransEntry>, pk: Seq<u8>) -> bool
    decreases es.len(),
{
    if es.len() == 0 {
        false
    } else if es[0].from@ == pk {
        spec_key_wf(es[0].to@)
    } else {
        spec_trans_ok(es.drop_first(), pk)
    }
}

/// The image of `pk` under the first matching rule.
pub open spec fn spec_trans_image(es: Seq<TransEntry>, pk: Seq<u8>) -> Seq<u8>
    decreases es.len(),
{
    if es.len() == 0 {
        Seq::empty()
    } else if es[0].from@ == pk {
        es[0].to@
    } else {
        spec_trans_image(es.drop_first(), pk)
    }
}

/// A key-mapping function backed by a list of rules: a key not covered
/// by any rule fails to translate, which makes the all-or-nothing
/// behaviour of descriptor translation observable.
pub struct MapTranslator {
    entries: Vec<TransEntry>,
}

impl MapTranslator {
    /// A mapping with no rules: it fails on every key.
    pub fn new() -> (r: MapTranslator)
        ensures
            r@.len() == 0,
    {
        MapTranslator { entries: Vec::new() }
    }

    /// Adds a rule mapping one key to another.
    pub fn insert(&mut self, from: DescriptorKey, to: DescriptorKey)
        ensures
            final(self)@ == old(self)@.push(TransEntry { from, to }),
    {
        self.entries.push(TransEntry { from, to });
    }
}

impl View for MapTranslator {
    type V = Seq<TransEntry>;

    closed spec fn view(&self) -> Seq<TransEntry> {
        self.entries@
    }
}

impl Translator for MapTranslator {
    open spec fn spec_ok(&self, pk: Seq<u8>) -> bool {
        spec_trans_ok(self@, pk)
    }

    open spec fn spec_image(&self, pk: Seq<u8>) -> Seq<u8> {
        spec_trans_image(self@, pk)
    }

    fn pk(&self, pk: &DescriptorKey) -> (r: Result<DescriptorKey, TranslatorError>) {
        let mut i: usize = 0;
        proof {
            assert(self@.skip(0) =~= self@);
        }
        while i < self.entries.len()
            invariant
                i <= self@.len(),
                spec_trans_ok(self@, pk@) == spec_trans_ok(self@.skip(i as int), pk@),
                spec_trans_image(self@, pk@) == spec_trans_image(self@.skip(i as int), pk@),
            decreases self@.len() - i,
        {
            proof {
                assert(self@.skip(i as int).drop_first() =~= self@.skip(i as int + 1));
                assert(self@.skip(i as int)[0] == self@[i as int]);
            }
            if self.entries[i].from.key_equals(pk) {
                let to = &self.entries[i].to;
                let b = to.bytes();
                let wf = if b.len() == 33 {
                    b[0] == 2 || b[0] == 3
                } else if b.len() == 65 {
                    b[0] == 4
                } else {
                    false
                };
                if wf {
                    return Ok(to.clone());
                } else {
                    return Err(TranslatorError { code: 2 });
                }
            }
            i = i + 1;
        }
        assert(self@.skip(i as int) =~= Seq::<TransEntry>::empty());
        Err(TranslatorError { code: 1 })
    }
}

} // verus!
