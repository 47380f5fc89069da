use vstd::prelude::*;
use crate::key::DescriptorKey;
use crate::errors::{Error, TranslatorError};

verus! {

/// Views of a sequence of keys: each key as its serialized bytes.
pub open spec fn key_views(ks: Seq<DescriptorKey>) -> Seq<Seq<u8>> {
    ks.map_values(|k: DescriptorKey| k@)
}

/// A read-only oracle answering "do you hold a signature for this key",
/// and handing the signature out on a hit. Implemented by the wallet's
/// signing layer; the two spec functions name what the oracle holds so
/// that satisfaction contracts can say exactly when they succeed.
pub trait Satisfier {
    /// Whether the oracle holds an ECDSA signature for the key with
    /// serialization `pk`.
    spec fn spec_has_sig(&self, pk: Seq<u8>) -> bool;

    /// The signature bytes the oracle holds for `pk`.
    spec fn spec_sig(&self, pk: Seq<u8>) -> Seq<u8>;

    /// Looks up a signature for `pk`.
    fn lookup_ecdsa_sig(&self, pk: &DescriptorKey) -> (r: Option<Vec<u8>>)
        ensures
            r is Some <==> self.spec_has_sig(pk@),
            r is Some ==> r->0@ == self.spec_sig(pk@),
    ;
}

/// A capability oracle for planning: answers only whether a signature
/// could be produced, without revealing secret material.
pub trait AssetProvider {
    /// Whether a signature for `pk` is available.
    spec fn spec_has_sig(&self, pk: Seq<u8>) -> bool;

    /// Reports availability of an ECDSA signature for `pk`.
    fn provider_lookup_ecdsa_sig(&self, pk: &DescriptorKey) -> (r: bool)
        ensures
            r == self.spec_has_sig(pk@),
    ;
}

/// A caller-supplied key-mapping function used by translation. The spec
/// functions name on which keys the mapping succeeds and what it maps
/// them to, so translation can promise all-or-nothing behaviour.
pub trait Translator {
    /// Whether the mapping succeeds on the key with serialization `pk`.
    spec fn spec_ok(&self, pk: Seq<u8>) -> bool;

    /// The serialization of the mapped key.
    spec fn spec_image(&self, pk: Seq<u8>) -> Seq<u8>;

    /// Maps one key.
    fn pk(&self, pk: &DescriptorKey) -> (r: Result<DescriptorKey, TranslatorError>)
        ensures
            r is Ok <==> self.spec_ok(pk@),
            r is Ok ==> r->Ok_0@ == self.spec_image(pk@) && crate::key::spec_key_wf(
                r->Ok_0@),
    ;
}

/// Copy of a key vector, element for element.
pub fn clone_keys(ks: &Vec<DescriptorKey>) -> (r: Vec<DescriptorKey>)
    ensures
        key_views(r@) == key_views(ks@),
        r@.len() == ks@.len(),
{
    let mut r: Vec<DescriptorKey> = Vec::new();
    let mut i: usize = 0;
    while i < ks.len()
        invariant
            i <= ks.len(),
            r@.len() == i,
            forall|j: int| 0 <= j < i ==> r@[j]@ == ks@[j]@,
        decreases ks.len() - i,
    {
        r.push(ks[i].clone());
        i = i + 1;
    }
    assert(key_views(r@) =~= key_views(ks@));
    r
}

/// A symbolic stand-in for one witness-stack element of a plan.
#[derive(Debug, Clone, PartialEq, Eq)]
pub enum Placeholder {
    /// An ECDSA signature for the key, assumed to take its worst-case size.
    EcdsaSigPk(DescriptorKey),
    /// The key itself, with the byte length of its serialized push.
    Pubkey(DescriptorKey, usize),
    /// The empty stack element a checkmultisig spend starts with.
    PushZero,
}

/// The witness-stack part of a plan: either a concrete stack of
/// placeholders or the statement that no satisfaction is available.
#[derive(Debug, Clone, PartialEq, Eq)]
pub enum Witness {
    Stack(Vec<Placeholder>),
    Unavailable,
}

/// A symbolic satisfaction, recomputed per query against one provider:
/// the stack shape, whether the stack carries a signature, and any
/// timelock requirements the chosen spend path implies.
#[derive(Debug, Clone, PartialEq, Eq)]
pub struct Satisfaction {
    pub stack: Witness,
    pub has_sig: bool,
    pub relative_timelock: Option<u32>,
    pub absolute_timelock: Option<u32>,
}

/// How many of the keys `ks` the satisfier holds a signature for.
pub open spec fn spec_sat_count<S: Satisfier>(s: S, ks: Seq<Seq<u8>>) -> int
    decreases ks.len(),
{
    if ks.len() == 0 {
        0
    } else {
        (if s.spec_has_sig(ks[0]) { 1int } else { 0int }) + spec_sat_count(s, ks.drop_first())
    }
}

/// The signatures of the first `k` keys of `ks` the satisfier can sign
/// for, in key order.
pub open spec fn spec_multi_sigs<S: Satisfier>(s: S, ks: Seq<Seq<u8>>, k: int) -> Seq<Seq<u8>>
    decreases ks.len(),
{
    if k <= 0 || ks.len() == 0 {
        Seq::empty()
    } else if s.spec_has_sig(ks[0]) {
        seq![s.spec_sig(ks[0])] + spec_multi_sigs(s, ks.drop_first(), k - 1)
    } else {
        spec_multi_sigs(s, ks.drop_first(), k)
    }
}

/// How many of the keys `ks` the provider reports as available.
pub open spec fn spec_avail_count<P: AssetProvider>(p: P, ks: Seq<Seq<u8>>) -> int
    decreases ks.len(),
{
    if ks.len() == 0 {
        0
    } else {
        (if p.spec_has_sig(ks[0]) { 1int } else { 0int }) + spec_avail_count(p, ks.drop_first())
    }
}

/// The first `k` keys of `ks` the provider reports as available, in order.
pub open spec fn spec_plan_keys<P: AssetProvider>(p: P, ks: Seq<Seq<u8>>, k: int) -> Seq<Seq<u8>>
    decreases ks.len(),
{
    if k <= 0 || ks.len() == 0 {
        Seq::empty()
    } else if p.spec_has_sig(ks[0]) {
        seq![ks[0]] + spec_plan_keys(p, ks.drop_first(), k - 1)
    } else {
        spec_plan_keys(p, ks.drop_first(), k)
    }
}

/// The key bytes carried by a stack of signature placeholders.
pub open spec fn spec_ph_keys(ps: Seq<Placeholder>) -> Seq<Seq<u8>> {
    ps.map_values(|p: Placeholder| match p {
        Placeholder::EcdsaSigPk(k) => k@,
        Placeholder::Pubkey(k, _) => k@,
        Placeholder::PushZero => Seq::empty(),
    })
}

/// Collects signatures for a `k`-of-`n` condition over the keys `ks`, in
/// key order, stopping once `k` signatures are found. Succeeds exactly
/// when the oracle can sign for at least `k` of the keys.
pub fn collect_multi_sigs<S: Satisfier>(ks: &Vec<DescriptorKey>, k: usize, s: &S) -> (r: Result<
    Vec<Vec<u8>>,
    Error,
>)
    requires
        k >= 1,
    ensures
        r is Ok <==> spec_sat_count(*s, key_views(ks@)) >= k,
        r is Ok ==> r->Ok_0@.map_values(|v: Vec<u8>| v@) == spec_multi_sigs(
            *s,
            key_views(ks@),
            k as int,
        ) && r->Ok_0@.len() == k,
        r is Err ==> r->Err_0 is CouldNotSatisfy,
{
    let ghost kv = key_views(ks@);
    let mut sigs: Vec<Vec<u8>> = Vec::new();
    let mut i: usize = 0;
    proof {
        assert(kv.skip(0) =~= kv);
        assert(sigs@.map_values(|v: Vec<u8>| v@) =~= Seq::<Seq<u8>>::empty());
        assert(Seq::<Seq<u8>>::empty() + spec_multi_sigs(*s, kv, k as int) =~= spec_multi_sigs(
        *s, kv, k as int));
    }
    while i < ks.len() && sigs.len() < k
        invariant
            i <= ks.len(),
            sigs@.len() <= k,
            kv == key_views(ks@),
            kv.len() == ks@.len(),
            spec_multi_sigs(*s, kv, k as int) == sigs@.map_values(|v: Vec<u8>| v@)
                + spec_multi_sigs(*s, kv.skip(i as int), k - sigs@.len()),
            sigs@.len() == if spec_sat_count(*s, kv) - spec_sat_count(*s, kv.skip(i as int)) < k {
                spec_sat_count(*s, kv) - spec_sat_count(*s, kv.skip(i as int))
            } else {
                k as int
            },
        decreases ks.len() - i,
    {
        proof {
            assert(kv.skip(i as int).drop_first() =~= kv.skip(i as int + 1));
            assert(kv.skip(i as int)[0] == kv[i as int]);
            assert(kv[i as int] == ks@[i as int]@);
        }
        let ghost oldsigs = sigs@;
        match s.lookup_ecdsa_sig(&ks[i]) {
            Some(sig) => {
                sigs.push(sig);
                proof {
                    assert(sigs@.map_values(|v: Vec<u8>| v@) =~= oldsigs.map_values(
                    |v: Vec<u8>| v@).push(s.spec_sig(kv[i as int])));
                    assert(seq![s.spec_sig(kv[i as int])] + spec_multi_sigs(
                    *s, kv.skip(i as int + 1), k - oldsigs.len() - 1) =~= spec_multi_sigs(
                    *s, kv.skip(i as int), k - oldsigs.len()));
                    assert(oldsigs.map_values(|v: Vec<u8>| v@).push(s.spec_sig(kv[i as int]))
                        + spec_multi_sigs(*s, kv.skip(i as int + 1), k - sigs@.len())
                        =~= oldsigs.map_values(|v: Vec<u8>| v@) + spec_multi_sigs(
                    *s, kv.skip(i as int), k - oldsigs.len()));
                }
            },
            None => {
            },
        }
        i = i + 1;
    }
    if sigs.len() == k {
        proof {
            assert(spec_multi_sigs(*s, kv.skip(i as int), 0) =~= Seq::<Seq<u8>>::empty());
            assert(sigs@.map_values(|v: Vec<u8>| v@) + Seq::<Seq<u8>>::empty() =~= sigs@.map_values(
            |v: Vec<u8>| v@));
            lemma_sat_count_nonneg(*s, kv.skip(i as int));
        }
        Ok(sigs)
    } else {
        proof {
            assert(i == ks.len());
            assert(kv.skip(i as int) =~= Seq::<Seq<u8>>::empty());
        }
        Err(Error::CouldNotSatisfy)
    }
}

/// The satisfier count is never negative.
pub proof fn lemma_sat_count_nonneg<S: Satisfier>(s: S, ks: Seq<Seq<u8>>)
    ensures
        spec_sat_count(s, ks) >= 0,
    decreases ks.len(),
{
    if ks.len() > 0 {
        lemma_sat_count_nonneg(s, ks.drop_first());
    }
}

/// The availability count is never negative.
pub proof fn lemma_avail_count_nonneg<P: AssetProvider>(p: P, ks: Seq<Seq<u8>>)
    ensures
        spec_avail_count(p, ks) >= 0,
    decreases ks.len(),
{
    if ks.len() > 0 {
        lemma_avail_count_nonneg(p, ks.drop_first());
    }
}

/// Chooses `k` available keys for a planned `k`-of-`n` spend, in key
/// order. Succeeds exactly when at least `k` keys are available.
pub fn collect_multi_plan<P: AssetProvider>(ks: &Vec<DescriptorKey>, k: usize, p: &P) -> (r: Option<
    Vec<Placeholder>,
>)
    requires
        k >= 1,
    ensures
        r is Some <==> spec_avail_count(*p, key_views(ks@)) >= k,
        r is Some ==> spec_ph_keys(r->0@) == spec_plan_keys(*p, key_views(ks@), k as int)
            && r->0@.len() == k && (forall|j: int|
            0 <= j < r->0@.len() ==> #[trigger] r->0@[j] is EcdsaSigPk),
{
    let ghost kv = key_views(ks@);
    let mut phs: Vec<Placeholder> = Vec::new();
    let mut i: usize = 0;
    proof {
        assert(kv.skip(0) =~= kv);
        assert(spec_ph_keys(phs@) =~= Seq::<Seq<u8>>::empty());
        assert(Seq::<Seq<u8>>::empty() + spec_plan_keys(*p, kv, k as int) =~= spec_plan_keys(
        *p, kv, k as int));
    }
    while i < ks.len() && phs.len() < k
        invariant
            i <= ks.len(),
            phs@.len() <= k,
            kv == key_views(ks@),
            kv.len() == ks@.len(),
            forall|j: int| 0 <= j < phs@.len() ==> #[trigger] phs@[j] is EcdsaSigPk,
            spec_plan_keys(*p, kv, k as int) == spec_ph_keys(phs@) + spec_plan_keys(
                *p,
                kv.skip(i as int),
                k - phs@.len(),
            ),
            phs@.len() == if spec_avail_count(*p, kv) - spec_avail_count(*p, kv.skip(i as int))
                < k {
                spec_avail_count(*p, kv) - spec_avail_count(*p, kv.skip(i as int))
            } else {
                k as int
            },
        decreases ks.len() - i,
    {
        proof {
            assert(kv.skip(i as int).drop_first() =~= kv.skip(i as int + 1));
            assert(kv.skip(i as int)[0] == kv[i as int]);
            assert(kv[i as int] == ks@[i as int]@);
        }
        let ghost oldphs = phs@;
        if p.provider_lookup_ecdsa_sig(&ks[i]) {
            phs.push(Placeholder::EcdsaSigPk(ks[i].clone()));
            proof {
                assert(spec_ph_keys(phs@) =~= spec_ph_keys(oldphs).push(kv[i as int]));
                assert(seq![kv[i as int]] + spec_plan_keys(*p, kv.skip(i as int + 1), k
                    - oldphs.len() - 1) =~= spec_plan_keys(*p, kv.skip(i as int), k
                    - oldphs.len()));
                assert(spec_ph_keys(oldphs).push(kv[i as int]) + spec_plan_keys(
                *p, kv.skip(i as int + 1), k - phs@.len()) =~= spec_ph_keys(oldphs)
                    + spec_plan_keys(*p, kv.skip(i as int), k - oldphs.len()));
            }
        }
        i = i + 1;
    }
    if phs.len() == k {
        proof {
            assert(spec_plan_keys(*p, kv.skip(i as int), 0) =~= Seq::<Seq<u8>>::empty());
            assert(spec_ph_keys(phs@) + Seq::<Seq<u8>>::empty() =~= spec_ph_keys(phs@));
            lemma_avail_count_nonneg(*p, kv.skip(i as int));
        }
        Some(phs)
    } else {
        proof {
            assert(i == ks.len());
            assert(kv.skip(i as int) =~= Seq::<Seq<u8>>::empty());
        }
        None
    }
}

} // verus!
