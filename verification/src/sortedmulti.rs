use vstd::prelude::*;
use vstd::relations::{sorted_by, total_ordering};
use vstd::seq_lib::lemma_multiset_commutative;
use crate::errors::{Error, ScriptContextError, TranslateErr};
use crate::expression::{Subtree, GSub, spec_dec_ok, spec_dec_val, spec_dec_print, parse_dec, print_dec};
use crate::key::{DescriptorKey, spec_key_wf, spec_hex_decode, spec_hex_encode};
use crate::policy::{Policy, GPolicy};
use crate::satisfy::{Satisfier, AssetProvider, Translator, Placeholder, Witness, Satisfaction, key_views, clone_keys, collect_multi_sigs, collect_multi_plan, spec_sat_count, spec_multi_sigs, spec_avail_count, spec_plan_keys, spec_ph_keys};
use crate::script_expr::{ScriptExpr, ExprView, spec_expr_script, spec_expr_wf, spec_key_token_ok};

verus! {

/// Bytewise lexicographic order on serialized keys; a proper prefix
/// comes first. This is the canonical order multisig keys are listed in.
pub open spec fn spec_lex_le(a: Seq<u8>, b: Seq<u8>) -> bool
    decreases a.len(),
{
    if a.len() == 0 {
        true
    } else if b.len() == 0 {
        false
    } else if a[0] < b[0] {
        true
    } else if a[0] > b[0] {
        false
    } else {
        spec_lex_le(a.drop_first(), b.drop_first())
    }
}

/// The lexicographic order as a relation value.
pub open spec fn lex_leq() -> spec_fn(Seq<u8>, Seq<u8>) -> bool {
    |a: Seq<u8>, b: Seq<u8>| spec_lex_le(a, b)
}

/// One of any two byte strings comes first.
pub proof fn lemma_lex_le_total(a: Seq<u8>, b: Seq<u8>)
    ensures
        spec_lex_le(a, b) || spec_lex_le(b, a),
    decreases a.len(),
{
    if a.len() > 0 && b.len() > 0 && a[0] == b[0] {
        lemma_lex_le_total(a.drop_first(), b.drop_first());
    }
}

/// Byte strings that come before each other are equal.
pub proof fn lemma_lex_le_antisym(a: Seq<u8>, b: Seq<u8>)
    requires
        spec_lex_le(a, b),
        spec_lex_le(b, a),
    ensures
        a == b,
    decreases a.len(),
{
    if a.len() == 0 {
        assert(b.len() == 0);
        assert(a =~= b);
    } else {
        assert(b.len() > 0);
        assert(a[0] == b[0]);
        lemma_lex_le_antisym(a.drop_first(), b.drop_first());
        assert(a.len() == b.len());
        assert forall|i: int| 0 <= i < a.len() implies a[i] == b[i] by {
            if i > 0 {
                assert(a[i] == a.drop_first()[i - 1]);
                assert(b[i] == b.drop_first()[i - 1]);
            }
        }
        assert(a =~= b);
    }
}

/// The lexicographic order is transitive.
pub proof fn lemma_lex_le_trans(a: Seq<u8>, b: Seq<u8>, c: Seq<u8>)
    requires
        spec_lex_le(a, b),
        spec_lex_le(b, c),
    ensures
        spec_lex_le(a, c),
    decreases a.len(),
{
    if a.len() > 0 {
        assert(b.len() > 0);
        if c.len() > 0 && a[0] == b[0] && b[0] == c[0] {
            lemma_lex_le_trans(a.drop_first(), b.drop_first(), c.drop_first());
        }
    }
}

/// The lexicographic order is a total order in the sense the sortedness
/// lemmas of the standard proof library expect.
pub proof fn lemma_lex_total_ordering()
    ensures
        total_ordering(lex_leq()),
{
    let r = lex_leq();
    assert forall|x: Seq<u8>| #[trigger] r(x, x) by {
        lemma_lex_le_total(x, x);
    }
    assert forall|x: Seq<u8>, y: Seq<u8>| #[trigger] r(x, y) && #[trigger] r(y, x) implies x == y by {
        lemma_lex_le_antisym(x, y);
    }
    assert forall|x: Seq<u8>, y: Seq<u8>, z: Seq<u8>| #[trigger] r(x, y) && #[trigger] r(y, z)
        implies r(x, z) by {
        lemma_lex_le_trans(x, y, z);
    }
    assert forall|x: Seq<u8>, y: Seq<u8>| #[trigger] r(x, y) || #[trigger] r(y, x) by {
        lemma_lex_le_total(x, y);
    }
}

/// Whether `a` comes at or before `b` in the canonical key order.
pub fn lex_le(a: &Vec<u8>, b: &Vec<u8>) -> (r: bool)
    ensures
        r == spec_lex_le(a@, b@),
{
    let mut i: usize = 0;
    proof {
        assert(a@.skip(0) =~= a@);
        assert(b@.skip(0) =~= b@);
    }
    loop
        invariant
            i <= a@.len(),
            i <= b@.len(),
            spec_lex_le(a@, b@) == spec_lex_le(a@.skip(i as int), b@.skip(i as int)),
        decreases a@.len() - i,
    {
        proof {
            if i < a@.len() {
                assert(a@.skip(i as int).drop_first() =~= a@.skip(i as int + 1));
            }
            if i < b@.len() {
                assert(b@.skip(i as int).drop_first() =~= b@.skip(i as int + 1));
            }
        }
        if i == a.len() {
            assert(a@.skip(i as int) =~= Seq::<u8>::empty());
            return true;
        }
        if i == b.len() {
            assert(b@.skip(i as int) =~= Seq::<u8>::empty());
            assert(a@.skip(i as int).len() > 0);
            return false;
        }
        let ca = a[i];
        let cb = b[i];
        if ca < cb {
            return true;
        }
        if ca > cb {
            return false;
        }
        i = i + 1;
    }
}

/// Sorts keys into the canonical lexicographic order of their
/// serializations. The result is sorted and holds exactly the input
/// keys, with multiplicity.
#[verifier::loop_isolation(false)]
pub fn sort_keys(input: Vec<DescriptorKey>) -> (r: Vec<DescriptorKey>)
    ensures
        sorted_by(key_views(r@), lex_leq()),
        key_views(r@).to_multiset() == key_views(input@).to_multiset(),
        r@.len() == input@.len(),
{
    proof {
        broadcast use vstd::seq_lib::group_to_multiset_ensures;

    }
    let mut out: Vec<DescriptorKey> = Vec::new();
    let mut i: usize = 0;
    proof {
        assert(key_views(input@).subrange(0, 0) =~= Seq::<Seq<u8>>::empty());
        assert(key_views(out@) =~= Seq::<Seq<u8>>::empty());
        assert(Seq::<Seq<u8>>::empty().to_multiset() =~= key_views(out@).to_multiset());
    }
    while i < input.len()
        invariant
            i <= input@.len(),
            out@.len() == i,
            sorted_by(key_views(out@), lex_leq()),
            key_views(out@).to_multiset() == key_views(input@).subrange(0, i as int).to_multiset(),
        decreases input@.len() - i,
    {
        let x = input[i].clone();
        let ghost xv = x@;
        let ghost oldout = out@;
        // find the first position whose key does not come before `x`
        let mut j: usize = 0;
        while j < out.len()
            invariant
                j <= out@.len(),
                forall|m: int| 0 <= m < j ==> spec_lex_le(#[trigger] key_views(out@)[m], xv),
            decreases out@.len() - j,
        {
            if !lex_le(out[j].bytes(), x.bytes()) {
                break;
            }
            j = j + 1;
        }
        proof {
            if j < out@.len() {
                assert(!spec_lex_le(key_views(out@)[j as int], xv));
                lemma_lex_le_total(key_views(out@)[j as int], xv);
            }
        }
        out.insert(j, x);
        proof {
            let ov = key_views(oldout);
            let nv = key_views(out@);
            assert(nv =~= ov.insert(j as int, xv));
            // sortedness of the inserted sequence
            assert forall|p: int, q: int| 0 <= p < q < nv.len() implies #[trigger] lex_leq()(
                nv[p],
                nv[q],
            ) by {
                if p < j && q < j {
                    assert(nv[p] == ov[p] && nv[q] == ov[q]);
                } else if p < j && q == j {
                    assert(nv[p] == ov[p] && nv[q] == xv);
                } else if p < j && q > j {
                    assert(nv[p] == ov[p] && nv[q] == ov[q - 1]);
                } else if p == j && q > j {
                    assert(nv[p] == xv && nv[q] == ov[q - 1]);
                    assert(!spec_lex_le(ov[j as int], xv));
                    lemma_lex_le_total(ov[j as int], xv);
                    if q - 1 > j {
                        assert(lex_leq()(ov[j as int], ov[q - 1]));
                        lemma_lex_le_trans(xv, ov[j as int], ov[q - 1]);
                    }
                } else {
                    assert(p > j && q > j);
                    assert(nv[p] == ov[p - 1] && nv[q] == ov[q - 1]);
                }
            }
            // multiset bookkeeping
            assert(nv =~= ov.subrange(0, j as int) + seq![xv] + ov.subrange(
            j as int, ov.len() as int));
            lemma_multiset_commutative(ov.subrange(0, j as int) + seq![xv], ov.subrange(
            j as int, ov.len() as int));
            lemma_multiset_commutative(ov.subrange(0, j as int), seq![xv]);
            assert(ov =~= ov.subrange(0, j as int) + ov.subrange(j as int, ov.len() as int));
            lemma_multiset_commutative(ov.subrange(0, j as int), ov.subrange(
            j as int, ov.len() as int));
            assert(seq![xv].to_multiset() =~= Seq::<Seq<u8>>::empty().push(xv).to_multiset());
            assert(Seq::<Seq<u8>>::empty().push(xv).to_multiset() =~= Seq::<Seq<
                u8,
            >>::empty().to_multiset().insert(xv));
            assert(nv.to_multiset() =~= ov.to_multiset().insert(xv));
            // the freshly covered input prefix gains the same key
            let pref = key_views(input@).subrange(0, i as int);
            let pref1 = key_views(input@).subrange(0, i as int + 1);
            assert(pref1 =~= pref.push(xv));
            assert(pref1.to_multiset() =~= pref.to_multiset().insert(xv));
        }
        i = i + 1;
    }
    assert(key_views(input@).subrange(0, input@.len() as int) =~= key_views(input@));
    out
}

/// Mathematical image of a sorted multisig: the threshold and the keys
/// in canonical order.
#[verifier::ext_equal]
pub struct SmvView {
    pub k: nat,
    pub keys: Seq<Seq<u8>>,
}

/// A sorted `k`-of-`n` multisignature condition. Keys are stored in the
/// canonical lexicographic order of their serializations, so equal sets
/// of keys always serialize to the same script. Construction validates
/// the segwit-v0 rules, so an instance is never observably invalid.
#[derive(Debug, Clone, PartialEq, Eq, PartialOrd, Ord, Hash)]
pub struct SortedMultiVec {
    k: usize,
    pks: Vec<DescriptorKey>,
}

impl View for SortedMultiVec {
    type V = SmvView;

    closed spec fn view(&self) -> SmvView {
        SmvView { k: self.k as nat, keys: key_views(self.pks@) }
    }
}

/// Validity of a sorted multisig: a threshold within bounds, at most
/// twenty compressed well-formed keys, in canonical order.
pub open spec fn spec_smv_wf(v: SmvView) -> bool {
    &&& 1 <= v.k <= v.keys.len() <= 20
    &&& forall|i: int| 0 <= i < v.keys.len() ==> ((#[trigger] v.keys[i]).len() == 33
        && spec_key_wf(v.keys[i]))
    &&& sorted_by(v.keys, lex_leq())
}

/// The canonical reordering of a key list: the one sorted sequence with
/// the same keys. Well defined because a sorted sequence is unique up to
/// its multiset of elements.
pub open spec fn spec_sorted_of(s: Seq<Seq<u8>>) -> Seq<Seq<u8>> {
    choose|t: Seq<Seq<u8>>| sorted_by(t, lex_leq()) && t.to_multiset() == s.to_multiset()
}

/// Any sorted sequence with the keys of `s` is the canonical reordering
/// of `s`.
pub proof fn lemma_sorted_of_unique(s: Seq<Seq<u8>>, t: Seq<Seq<u8>>)
    requires
        sorted_by(t, lex_leq()),
        t.to_multiset() == s.to_multiset(),
    ensures
        spec_sorted_of(s) == t,
{
    assert(exists|x: Seq<Seq<u8>>|
        sorted_by(x, lex_leq()) && x.to_multiset() == s.to_multiset()) by {
        assert(sorted_by(t, lex_leq()) && t.to_multiset() == s.to_multiset());
    }
    let c = spec_sorted_of(s);
    assert(sorted_by(c, lex_leq()) && c.to_multiset() == s.to_multiset());
    lemma_lex_total_ordering();
    vstd::seq_lib::lemma_sorted_unique(c, t, lex_leq());
    assert(c =~= t);
}

/// Token name of the sorted multisignature node.
pub open spec fn spec_name_sortedmulti() -> Seq<u8> {
    seq![115u8, 111u8, 114u8, 116u8, 101u8, 100u8, 109u8, 117u8, 108u8, 116u8, 105u8]
}

/// The bytes of the sorted multisignature node name.
pub fn name_sortedmulti_vec() -> (r: Vec<u8>)
    ensures
        r@ == spec_name_sortedmulti(),
{
    let mut v: Vec<u8> = Vec::new();
    v.push(115);
    v.push(111);
    v.push(114);
    v.push(116);
    v.push(101);
    v.push(100);
    v.push(109);
    v.push(117);
    v.push(108);
    v.push(116);
    v.push(105);
    assert(v@ =~= spec_name_sortedmulti());
    v
}

/// Whether a child node parses as a sorted multisig.
pub open spec fn spec_smv_parse_ok(g: GSub) -> bool {
    &&& g.name == spec_name_sortedmulti()
    &&& g.args.len() >= 2
    &&& spec_dec_ok(g.args[0])
    &&& 1 <= spec_dec_val(g.args[0]) <= g.args.len() - 1
    &&& g.args.len() - 1 <= 20
    &&& forall|i: int| 1 <= i < g.args.len() ==> spec_key_token_ok(#[trigger] g.args[i])
}

/// The child node that prints a sorted multisig.
pub open spec fn spec_smv_sub(v: SmvView) -> GSub {
    GSub {
        name: spec_name_sortedmulti(),
        args: seq![spec_dec_print(v.k as int)] + v.keys.map_values(
            |x: Seq<u8>| spec_hex_encode(x),
        ),
    }
}

impl SortedMultiVec {
    /// Builds a sorted multisig from a threshold and keys, validating
    /// the segwit-v0 rules and putting the keys into canonical order.
    /// Succeeds exactly when the threshold is within bounds, at most
    /// twenty keys are listed and every key is usable compressed.
    #[verifier::loop_isolation(false)]
    pub fn new(k: usize, pks: Vec<DescriptorKey>) -> (r: Result<SortedMultiVec, Error>)
        ensures
            r is Ok <==> (pks@.len() <= 20 && 1 <= k <= pks@.len() && (forall|i: int|
                0 <= i < pks@.len() ==> ((#[trigger] pks@[i]@).len() == 33 && spec_key_wf(
                    pks@[i]@,
                )))),
            r is Ok ==> ({
                let v = r->Ok_0@;
                &&& v.k == k
                &&& spec_smv_wf(v)
                &&& v.keys.to_multiset() == key_views(pks@).to_multiset()
                &&& v.keys == spec_sorted_of(key_views(pks@))
            }),
            r is Err ==> r->Err_0 is ContextError,
            pks@.len() > 20 ==> (r matches Err(e) && crate::errors::is_too_many_err(
                e,
                pks@.len() as int,
            )),
            (pks@.len() <= 20 && !(1 <= k <= pks@.len())) ==> (r matches Err(e)
                && crate::errors::is_invalid_threshold_err(e, k as int, pks@.len() as int)),
            (pks@.len() <= 20 && 1 <= k <= pks@.len() && (exists|i: int|
                0 <= i < pks@.len() && !((#[trigger] pks@[i]@).len() == 33 && spec_key_wf(
                    pks@[i]@,
                )))) ==> (r matches Err(e) && crate::errors::is_compressed_only_kind(e)),
    {
        proof {
            broadcast use vstd::seq_lib::group_to_multiset_ensures;

        }
        if pks.len() > 20 {
            return Err(Error::ContextError(ScriptContextError::MultisigTooManyKeys(pks.len())));
        }
        if k < 1 || k > pks.len() {
            return Err(Error::ContextError(ScriptContextError::InvalidThreshold(k, pks.len())));
        }
        let mut i: usize = 0;
        while i < pks.len()
            invariant
                i <= pks@.len(),
                forall|j: int| 0 <= j < i ==> ((#[trigger] pks@[j]@).len() == 33 && spec_key_wf(
                    pks@[j]@,
                )),
            decreases pks@.len() - i,
        {
            let b = pks[i].bytes();
            if !(b.len() == 33 && (b[0] == 2 || b[0] == 3)) {
                proof {
                    assert(!(pks@[i as int]@.len() == 33 && spec_key_wf(pks@[i as int]@)));
                }
                return Err(Error::ContextError(ScriptContextError::CompressedOnly(
                    crate::key::hex_encode(b),
                )));
            }
            i = i + 1;
        }
        let ghost ov = key_views(pks@);
        let sorted = sort_keys(pks);
        let r = SortedMultiVec { k, pks: sorted };
        proof {
            let nv = key_views(r.pks@);
            assert forall|x: int| 0 <= x < nv.len() implies ((#[trigger] nv[x]).len() == 33
                && spec_key_wf(nv[x])) by {
                assert(nv.contains(nv[x]));
                assert(nv.to_multiset().count(nv[x]) > 0);
                assert(ov.to_multiset().count(nv[x]) > 0);
                assert(ov.contains(nv[x]));
                let y = choose|y: int| 0 <= y < ov.len() && ov[y] == nv[x];
                assert(ov[y] == pks@[y]@);
            }
            lemma_sorted_of_unique(ov, nv);
        }
        Ok(r)
    }

    /// The threshold: how many signatures a spend needs.
    pub fn k(&self) -> (r: usize)
        ensures
            r == self@.k,
    {
        self.k
    }

    /// The keys, in canonical order.
    pub fn keys(&self) -> (r: Vec<DescriptorKey>)
        ensures
            key_views(r@) == self@.keys,
    {
        clone_keys(&self.pks)
    }

    /// Structural safety; instances are validated at construction, so
    /// the re-check never fails.
    pub fn sanity_check(&self) -> (r: Result<(), Error>)
        requires
            spec_smv_wf(self@),
        ensures
            r is Ok,
    {
        Ok(())
    }

    /// Byte size of the serialized multisig script.
    pub fn script_size(&self) -> (r: usize)
        requires
            spec_smv_wf(self@),
        ensures
            r == spec_expr_script(ExprView::Multi(self@.k, self@.keys)).len(),
    {
        proof {
            crate::script_expr::lemma_key_pushes_len(self@.keys);
        }
        let kn: usize = if self.k <= 16 { 1 } else { 2 };
        let nn: usize = if self.pks.len() <= 16 { 1 } else { 2 };
        kn + 34 * self.pks.len() + nn + 1
    }

    /// Largest number of witness elements of a satisfaction: the dummy
    /// element, the `k` signatures, and the witness script.
    pub fn max_satisfaction_witness_elements(&self) -> (r: usize)
        requires
            spec_smv_wf(self@),
        ensures
            r == 2 + self@.k,
    {
        2 + self.k
    }

    /// Largest byte size of a satisfaction: the dummy element's length
    /// byte, and seventy-three bytes for each of the `k` signatures.
    pub fn max_satisfaction_size(&self) -> (r: usize)
        requires
            spec_smv_wf(self@),
        ensures
            r == 1 + 73 * self@.k,
    {
        1 + 73 * self.k
    }

    /// The serialized multisig witness script over the canonical key
    /// order.
    pub fn encode(&self) -> (r: Vec<u8>)
        requires
            spec_smv_wf(self@),
        ensures
            r@ == spec_expr_script(ExprView::Multi(self@.k, self@.keys)),
    {
        let e = ScriptExpr::Multi(self.k, clone_keys(&self.pks));
        proof {
            assert(e@ =~= ExprView::Multi(self@.k, self@.keys));
        }
        e.encode()
    }

    /// Builds the witness stack of a multisig spend: the dummy element,
    /// then signatures for the first `k` keys the oracle can sign for,
    /// in canonical key order. Succeeds exactly when the oracle can sign
    /// for at least `k` keys.
    pub fn satisfy<S: Satisfier>(&self, s: &S) -> (r: Result<Vec<Vec<u8>>, Error>)
        requires
            spec_smv_wf(self@),
        ensures
            r is Ok <==> spec_sat_count(*s, self@.keys) >= self@.k,
            r is Ok ==> r->Ok_0@.map_values(|v: Vec<u8>| v@) == seq![Seq::<u8>::empty()]
                + spec_multi_sigs(*s, self@.keys, self@.k as int),
            r is Err ==> r->Err_0 is CouldNotSatisfy,
    {
        match collect_multi_sigs(&self.pks, self.k, s) {
            Ok(sigs) => {
                let mut w = sigs;
                let ghost oldw = w@;
                w.insert(0, Vec::new());
                proof {
                    assert(w@.map_values(|v: Vec<u8>| v@) =~= seq![Seq::<u8>::empty()]
                        + oldw.map_values(|v: Vec<u8>| v@));
                }
                Ok(w)
            },
            Err(e) => Err(e),
        }
    }

    /// The worst-case witness shape under a boolean availability oracle.
    pub fn build_template<P: AssetProvider>(&self, p: &P) -> (r: Satisfaction)
        requires
            spec_smv_wf(self@),
        ensures
            r.has_sig == true,
            r.relative_timelock is None,
            r.absolute_timelock is None,
            (r.stack matches Witness::Stack(v)) <==> spec_avail_count(*p, self@.keys) >= self@.k,
            r.stack matches Witness::Stack(v) ==> v@.len() == self@.k + 1 && v@[0] is PushZero
                && spec_ph_keys(v@.skip(1)) == spec_plan_keys(*p, self@.keys, self@.k as int) && (
            forall|j: int| 1 <= j < v@.len() ==> #[trigger] v@[j] is EcdsaSigPk),
    {
        match collect_multi_plan(&self.pks, self.k, p) {
            Some(phs) => {
                let mut v = phs;
                let ghost oldv = v@;
                v.insert(0, Placeholder::PushZero);
                proof {
                    assert(v@.skip(1) =~= oldv);
                }
                Satisfaction {
                    stack: Witness::Stack(v),
                    has_sig: true,
                    relative_timelock: None,
                    absolute_timelock: None,
                }
            },
            None => Satisfaction {
                stack: Witness::Unavailable,
                has_sig: true,
                relative_timelock: None,
                absolute_timelock: None,
            },
        }
    }

    /// Maps every key through the caller's mapping function and
    /// revalidates, atomically: a mapping failure on any key, or a
    /// mapped key that is not usable compressed, yields only an error.
    #[verifier::loop_isolation(false)]
    pub fn translate_pk<T: Translator>(&self, t: &T) -> (r: Result<SortedMultiVec, TranslateErr>)
        requires
            spec_smv_wf(self@),
        ensures
            (r matches Err(TranslateErr::TranslatorErr(_))) <==> (exists|i: int|
                0 <= i < self@.keys.len() && !t.spec_ok(#[trigger] self@.keys[i])),
            r is Ok <==> ((forall|i: int|
                0 <= i < self@.keys.len() ==> t.spec_ok(#[trigger] self@.keys[i])) && (forall|
            i: int|
                0 <= i < self@.keys.len() ==> t.spec_image(#[trigger] self@.keys[i]).len()
                    == 33)),
            r is Ok ==> ({
                let v = r->Ok_0@;
                &&& v.k == self@.k
                &&& spec_smv_wf(v)
                &&& v.keys.to_multiset() == self@.keys.map_values(
                    |x: Seq<u8>| t.spec_image(x),
                ).to_multiset()
            }),
            (match r {
                Err(TranslateErr::OuterError(e)) => e is ContextError,
                _ => true,
            }),
    {
        let ghost kv = self@.keys;
        let mut mapped: Vec<DescriptorKey> = Vec::new();
        let mut i: usize = 0;
        while i < self.pks.len()
            invariant
                i <= self.pks@.len(),
                kv.len() == self.pks@.len(),
                mapped@.len() == i,
                forall|j: int| 0 <= j < kv.len() ==> #[trigger] kv[j] == self.pks@[j]@,
                forall|j: int| 0 <= j < i ==> t.spec_ok(#[trigger] kv[j]),
                forall|j: int| 0 <= j < i ==> (#[trigger] mapped@[j]@) == t.spec_image(kv[j])
                    && spec_key_wf(mapped@[j]@),
            decreases self.pks@.len() - i,
        {
            match t.pk(&self.pks[i]) {
                Ok(nk) => {
                    mapped.push(nk);
                },
                Err(e) => {
                    proof {
                        assert(!t.spec_ok(kv[i as int]));
                    }
                    return Err(TranslateErr::TranslatorErr(e));
                },
            }
            i = i + 1;
        }
        let ghost mv = key_views(mapped@);
        proof {
            assert(mv =~= kv.map_values(|x: Seq<u8>| t.spec_image(x)));
        }
        match Self::new(self.k, mapped) {
            Ok(smv) => {
                proof {
                    assert forall|x: int| 0 <= x < kv.len() implies t.spec_image(
                        #[trigger] kv[x]).len() == 33 by {
                        assert(mv[x] == t.spec_image(kv[x]));
                    }
                }
                Ok(smv)
            },
            Err(e) => {
                proof {
                    if forall|x: int| 0 <= x < kv.len() ==> t.spec_image(#[trigger] kv[x]).len()
                        == 33 {
                        assert forall|x: int| 0 <= x < mv.len() implies ((#[trigger] mv[x]).len()
                            == 33 && spec_key_wf(mv[x])) by {
                            assert(mv[x] == t.spec_image(kv[x]));
                        }
                        assert(false);
                    }
                }
                Err(TranslateErr::OuterError(e))
            },
        }
    }

    /// Lifts the multisig to its abstract policy: a threshold over the
    /// keys.
    pub fn lift(&self) -> (r: Policy)
        ensures
            r@ == GPolicy::Threshold(self@.k, self@.keys),
    {
        let r = Policy::Threshold(self.k, clone_keys(&self.pks));
        proof {
            assert(r@ =~= GPolicy::Threshold(self@.k, self@.keys));
        }
        r
    }

    /// Reads a sorted multisig from a parsed child node. Succeeds
    /// exactly on a well-shaped node: the right name, a threshold token
    /// and at most twenty key tokens, each reading back as a compressed
    /// key, with the threshold within bounds. A node of another name or
    /// arity is reported with its name and argument count.
    #[verifier::loop_isolation(false)]
    pub fn from_sub(st: &Subtree) -> (r: Result<SortedMultiVec, Error>)
        ensures
            r is Ok <==> spec_smv_parse_ok(st@),
            r is Ok ==> ({
                let v = r->Ok_0@;
                &&& v.k == spec_dec_val(st@.args[0])
                &&& spec_smv_wf(v)
                &&& v.keys == spec_sorted_of(st@.args.skip(1).map_values(
                    |tk: Seq<u8>| spec_hex_decode(tk),
                ))
            }),
            (!(st@.name == spec_name_sortedmulti() && st@.args.len() >= 2)) ==> (r matches Err(e)
                && crate::errors::is_unexpected_err(e, st@.name, st@.args.len() as int)),
            (st@.name == spec_name_sortedmulti() && st@.args.len() >= 2 && !spec_dec_ok(
                st@.args[0],
            )) ==> (r matches Err(e) && crate::errors::is_bad_number_err(e, st@.args[0])),
            (st@.name == spec_name_sortedmulti() && st@.args.len() >= 2 && spec_dec_ok(
                st@.args[0],
            ) && (exists|j: int|
                1 <= j < st@.args.len() && !spec_key_token_ok(#[trigger] st@.args[j]))) ==> (
            r matches Err(e) && (e is BadKey || crate::errors::is_compressed_only_kind(e))),
            (st@.name == spec_name_sortedmulti() && st@.args.len() >= 2 && spec_dec_ok(
                st@.args[0],
            ) && (forall|j: int|
                1 <= j < st@.args.len() ==> spec_key_token_ok(#[trigger] st@.args[j]))
                && st@.args.len() - 1 > 20) ==> (r matches Err(e)
                && crate::errors::is_too_many_err(e, st@.args.len() - 1)),
            (st@.name == spec_name_sortedmulti() && st@.args.len() >= 2 && spec_dec_ok(
                st@.args[0],
            ) && (forall|j: int|
                1 <= j < st@.args.len() ==> spec_key_token_ok(#[trigger] st@.args[j]))
                && st@.args.len() - 1 <= 20 && !(1 <= spec_dec_val(st@.args[0]) <= st@.args.len()
                - 1)) ==> (r matches Err(e) && crate::errors::is_invalid_threshold_err(
                e,
                spec_dec_val(st@.args[0]),
                st@.args.len() - 1,
            )),
    {
        let smv_name = name_sortedmulti_vec();
        proof {
            assert(st@.name == st.name@);
            assert(st@.args.len() == st.args@.len());
            assert(forall|j: int| 0 <= j < st.args@.len() ==> (#[trigger] st@.args[j])
                == st.args@[j]@);
        }
        if !(crate::key::bytes_eq(&st.name, &smv_name) && st.args.len() >= 2) {
            return Err(Error::Unexpected(crate::key::clone_bytes(&st.name), st.args.len()));
        }
        let k = match parse_dec(&st.args[0]) {
            Some(n) => n,
            None => {
                return Err(Error::BadNumber(crate::key::clone_bytes(&st.args[0])));
            },
        };
        let mut keys: Vec<DescriptorKey> = Vec::new();
        let mut i: usize = 1;
        while i < st.args.len()
            invariant
                1 <= i <= st.args@.len(),
                keys@.len() == i - 1,
                forall|j: int| 1 <= j < i ==> spec_key_token_ok(#[trigger] st@.args[j]),
                forall|j: int| 0 <= j < keys@.len() ==> (#[trigger] keys@[j]@) == spec_hex_decode(
                    st@.args[j + 1],
                ) && keys@[j]@.len() == 33 && spec_key_wf(keys@[j]@),
            decreases st.args@.len() - i,
        {
            match DescriptorKey::from_hex(&st.args[i]) {
                Ok(key) => {
                    if key.serialized_len() != 33 {
                        proof {
                            assert(!spec_key_token_ok(st@.args[i as int]));
                        }
                        return Err(Error::ContextError(ScriptContextError::CompressedOnly(
                            crate::key::clone_bytes(&st.args[i]),
                        )));
                    }
                    keys.push(key);
                },
                Err(e) => {
                    proof {
                        assert(!spec_key_token_ok(st@.args[i as int]));
                    }
                    return Err(e);
                },
            }
            i = i + 1;
        }
        proof {
            assert(key_views(keys@) =~= st@.args.skip(1).map_values(
            |tk: Seq<u8>| spec_hex_decode(tk)));
        }
        match Self::new(k, keys) {
            Ok(smv) => Ok(smv),
            Err(e) => Err(e),
        }
    }

    /// Prints the multisig as a child node: its name, the threshold and
    /// the keys in canonical order.
    #[verifier::loop_isolation(false)]
    pub fn to_sub(&self) -> (r: Subtree)
        requires
            spec_smv_wf(self@),
        ensures
            r@ == spec_smv_sub(self@),
    {
        let mut args: Vec<Vec<u8>> = Vec::new();
        args.push(print_dec(self.k));
        let mut i: usize = 0;
        while i < self.pks.len()
            invariant
                i <= self.pks@.len(),
                args@.len() == i + 1,
                args@[0]@ == spec_dec_print(self@.k as int),
                forall|j: int| 1 <= j < args@.len() ==> (#[trigger] args@[j]@) == spec_hex_encode(
                    self.pks@[j - 1]@,
                ),
            decreases self.pks@.len() - i,
        {
            args.push(self.pks[i].to_hex());
            i = i + 1;
        }
        let r = Subtree { name: name_sortedmulti_vec(), args };
        proof {
            let exp = spec_smv_sub(self@);
            assert forall|j: int| 0 <= j < r@.args.len() implies r@.args[j] == exp.args[j] by {
                if j >= 1 {
                    assert(exp.args[j] == self@.keys.map_values(
                    |x: Seq<u8>| spec_hex_encode(x))[j - 1]);
                    assert(self@.keys[j - 1] == self.pks@[j - 1]@);
                }
            }
            assert(r@.args =~= exp.args);
            assert(r@ =~= exp);
        }
        r
    }
}

/// Printing a valid sorted multisig and parsing the node back yields a
/// structurally equal multisig.
pub proof fn lemma_smv_round_trip(v: SmvView)
    requires
        spec_smv_wf(v),
    ensures
        spec_smv_parse_ok(spec_smv_sub(v)),
        spec_dec_val(spec_smv_sub(v).args[0]) == v.k,
        spec_sorted_of(spec_smv_sub(v).args.skip(1).map_values(
            |tk: Seq<u8>| spec_hex_decode(tk),
        )) == v.keys,
{
    let g = spec_smv_sub(v);
    crate::expression::lemma_dec_round_trip(v.k as int);
    assert(g.args[0] == spec_dec_print(v.k as int));
    assert forall|i: int| 1 <= i < g.args.len() implies spec_key_token_ok(
        #[trigger] g.args[i]) by {
        assert(g.args[i] == spec_hex_encode(v.keys[i - 1]));
        crate::key::lemma_hex_round_trip(v.keys[i - 1]);
    }
    let decoded = g.args.skip(1).map_values(|tk: Seq<u8>| spec_hex_decode(tk));
    assert forall|i: int| 0 <= i < v.keys.len() implies decoded[i] == v.keys[i] by {
        assert(g.args.skip(1)[i] == spec_hex_encode(v.keys[i]));
        crate::key::lemma_hex_round_trip(v.keys[i]);
    }
    assert(decoded =~= v.keys);
    lemma_sorted_of_unique(decoded, v.keys);
}

} // verus!
