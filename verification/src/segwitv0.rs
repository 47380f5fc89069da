use vstd::prelude::*;
use crate::crypto::{Network, sha256, hash160, p2wsh_address, p2wpkh_address, sha256_of, hash160_of, p2wsh_addr_of, p2wpkh_addr_of, p2wpkh_valid_of, spec_network_id};
use crate::errors::{Error, ScriptContextError, TranslateErr};
use crate::expression::{Tree, Subtree, GTree, GSub, parse_tree, print_tree, spec_print_tree, spec_dec_val, spec_dec_ok};
use crate::key::{DescriptorKey, spec_key_wf, spec_hex_decode, spec_hex_encode, spec_is_hex, bytes_eq, clone_bytes};
use crate::policy::{Policy, GPolicy};
use crate::satisfy::{Satisfier, AssetProvider, Translator, Placeholder, Witness, Satisfaction, key_views, spec_sat_count, spec_multi_sigs, spec_avail_count, spec_plan_keys, spec_ph_keys};
use crate::script_expr::{ScriptExpr, ExprView, spec_expr_wf, spec_expr_script, spec_expr_keys, spec_max_sat_elems, spec_max_sat_size, spec_expr_sub, spec_expr_parse_ok, spec_expr_parsed, spec_name_pk, spec_name_multi, spec_key_token_ok};
use crate::sortedmulti::{SortedMultiVec, SmvView, spec_smv_wf, spec_smv_sub, spec_smv_parse_ok, spec_name_sortedmulti, spec_sorted_of, lemma_smv_round_trip};
use crate::spec_varint_len;
use crate::varint_len;

verus! {

/// Token name of the script-hash descriptor node.
pub open spec fn spec_name_wsh() -> Seq<u8> {
    seq![119u8, 115u8, 104u8]
}

/// Token name of the key-hash descriptor node.
pub open spec fn spec_name_wpkh() -> Seq<u8> {
    seq![119u8, 112u8, 107u8, 104u8]
}

/// The bytes of the script-hash node name.
pub fn name_wsh_vec() -> (r: Vec<u8>)
    ensures
        r@ == spec_name_wsh(),
{
    let mut v: Vec<u8> = Vec::new();
    v.push(119);
    v.push(115);
    v.push(104);
    assert(v@ =~= spec_name_wsh());
    v
}

/// The bytes of the key-hash node name.
pub fn name_wpkh_vec() -> (r: Vec<u8>)
    ensures
        r@ == spec_name_wpkh(),
{
    let mut v: Vec<u8> = Vec::new();
    v.push(119);
    v.push(112);
    v.push(107);
    v.push(104);
    assert(v@ =~= spec_name_wpkh());
    v
}

/// Mathematical image of a script-hash descriptor's content.
#[verifier::ext_equal]
pub enum WshView {
    SortedMulti(SmvView),
    Ms(ExprView),
}

/// The content of a script-hash descriptor: a sorted multisig or a
/// generic script expression, both already validated under the
/// segwit-v0 rules.
#[derive(Debug, Clone, PartialEq, Eq, PartialOrd, Ord, Hash)]
pub enum WshInner {
    /// A sorted multisignature list.
    SortedMulti(SortedMultiVec),
    /// A generic script expression.
    Ms(ScriptExpr),
}

impl View for WshInner {
    type V = WshView;

    open spec fn view(&self) -> WshView {
        match self {
            WshInner::SortedMulti(s) => WshView::SortedMulti(s@),
            WshInner::Ms(e) => WshView::Ms(e@),
        }
    }
}

/// A segwit-v0 script-hash descriptor: wraps one validated inner
/// variant and yields its script, address, satisfaction, weight
/// bounds, policy lift and key translation.
#[derive(Debug, Clone, PartialEq, Eq, PartialOrd, Ord, Hash)]
pub struct Wsh {
    inner: WshInner,
}

impl View for Wsh {
    type V = WshView;

    closed spec fn view(&self) -> WshView {
        self.inner@
    }
}

/// Validity of a script-hash descriptor's content.
pub open spec fn spec_wsh_wf(v: WshView) -> bool {
    match v {
        WshView::SortedMulti(s) => spec_smv_wf(s),
        WshView::Ms(e) => spec_expr_wf(e),
    }
}

/// The serialized witness script the descriptor commits to.
pub open spec fn spec_wsh_script(v: WshView) -> Seq<u8> {
    match v {
        WshView::SortedMulti(s) => spec_expr_script(ExprView::Multi(s.k, s.keys)),
        WshView::Ms(e) => spec_expr_script(e),
    }
}

/// Largest number of witness-stack elements of a satisfaction,
/// counting the witness script as one element.
pub open spec fn spec_wsh_elems(v: WshView) -> int {
    match v {
        WshView::SortedMulti(s) => s.k as int + 2,
        WshView::Ms(e) => spec_max_sat_elems(e),
    }
}

/// Largest byte size of a satisfaction, excluding the witness script.
pub open spec fn spec_wsh_sat_size(v: WshView) -> int {
    match v {
        WshView::SortedMulti(s) => 1 + 73 * (s.k as int),
        WshView::Ms(e) => spec_max_sat_size(e),
    }
}

/// The keys the descriptor mentions, in stored order.
pub open spec fn spec_wsh_keys(v: WshView) -> Seq<Seq<u8>> {
    match v {
        WshView::SortedMulti(s) => s.keys,
        WshView::Ms(e) => spec_expr_keys(e),
    }
}

/// The current weight bound: the witness grows by the stack-count
/// varint difference, the script-size varint, the script, and the
/// worst-case satisfaction bytes.
pub open spec fn spec_wsh_max_weight(v: WshView) -> int {
    spec_varint_len(spec_wsh_elems(v) as nat) - 1 + spec_varint_len(spec_wsh_script(v).len())
        + spec_wsh_script(v).len() + spec_wsh_sat_size(v)
}

/// The superseded weight bound, kept under its historical name: it adds
/// a four-byte legacy signature-script allowance and counts the
/// stack-count varint without differencing. Not interchangeable with
/// the current bound.
pub open spec fn spec_wsh_legacy_weight(v: WshView) -> int {
    4 + spec_varint_len(spec_wsh_script(v).len()) + spec_wsh_script(v).len() + spec_varint_len(
        spec_wsh_elems(v) as nat,
    ) + spec_wsh_sat_size(v)
}

/// Whether the oracle can satisfy the descriptor's condition.
pub open spec fn spec_wsh_sat_ok<S: Satisfier>(s: S, v: WshView) -> bool {
    match v {
        WshView::SortedMulti(m) => spec_sat_count(s, m.keys) >= m.k,
        WshView::Ms(e) => match e {
            ExprView::Pk(pk) => s.spec_has_sig(pk),
            ExprView::Multi(k, ks) => spec_sat_count(s, ks) >= k,
        },
    }
}

/// The witness stack of the inner condition, before the witness script
/// is appended.
pub open spec fn spec_wsh_inner_witness<S: Satisfier>(s: S, v: WshView) -> Seq<Seq<u8>> {
    match v {
        WshView::SortedMulti(m) => seq![Seq::<u8>::empty()] + spec_multi_sigs(
            s,
            m.keys,
            m.k as int,
        ),
        WshView::Ms(e) => match e {
            ExprView::Pk(pk) => seq![s.spec_sig(pk)],
            ExprView::Multi(k, ks) => seq![Seq::<u8>::empty()] + spec_multi_sigs(s, ks, k as int),
        },
    }
}

/// Whether the availability oracle can plan a satisfaction.
pub open spec fn spec_wsh_plan_ok<P: AssetProvider>(p: P, v: WshView) -> bool {
    match v {
        WshView::SortedMulti(m) => spec_avail_count(p, m.keys) >= m.k,
        WshView::Ms(e) => match e {
            ExprView::Pk(pk) => p.spec_has_sig(pk),
            ExprView::Multi(k, ks) => spec_avail_count(p, ks) >= k,
        },
    }
}

/// The witness script of a validly constructed descriptor stays under
/// the segwit-v0 script-size limit by a wide margin.
pub proof fn lemma_wsh_script_len(v: WshView)
    requires
        spec_wsh_wf(v),
    ensures
        spec_wsh_script(v).len() <= 685,
{
    match v {
        WshView::SortedMulti(s) => {
            crate::script_expr::lemma_key_pushes_len(s.keys);
        },
        WshView::Ms(e) => {
            match e {
                ExprView::Pk(_) => {
                },
                ExprView::Multi(_, ks) => {
                    crate::script_expr::lemma_key_pushes_len(ks);
                },
            }
        },
    }
}

/// The parsed expression that prints a script-hash descriptor.
pub open spec fn spec_wsh_gtree(v: WshView) -> GTree {
    GTree {
        name: spec_name_wsh(),
        args: seq![
            match v {
                WshView::SortedMulti(m) => spec_smv_sub(m),
                WshView::Ms(e) => spec_expr_sub(e),
            },
        ],
    }
}

/// Whether a parsed expression reads as a script-hash descriptor.
pub open spec fn spec_wsh_parse_ok(g: GTree) -> bool {
    &&& g.name == spec_name_wsh()
    &&& g.args.len() == 1
    &&& (if g.args[0].name == spec_name_sortedmulti() {
        spec_smv_parse_ok(g.args[0])
    } else {
        spec_expr_parse_ok(g.args[0])
    })
}

/// The content a well-shaped expression parses to.
pub open spec fn spec_wsh_parsed(g: GTree) -> WshView {
    if g.args[0].name == spec_name_sortedmulti() {
        WshView::SortedMulti(
            SmvView {
                k: spec_dec_val(g.args[0].args[0]) as nat,
                keys: spec_sorted_of(
                    g.args[0].args.skip(1).map_values(|t: Seq<u8>| spec_hex_decode(t)),
                ),
            },
        )
    } else {
        WshView::Ms(spec_expr_parsed(g.args[0]))
    }
}

impl Wsh {
    /// Wraps a script expression after running the segwit-v0 top-level
    /// checks; fails with a context error exactly where they fail.
    pub fn new(ms: ScriptExpr) -> (r: Result<Wsh, Error>)
        ensures
            r is Ok <==> spec_expr_wf(ms@),
            r is Ok ==> r->Ok_0@ == WshView::Ms(ms@) && spec_wsh_wf(r->Ok_0@),
            r is Err ==> r->Err_0 is ContextError,
    {
        match ms.check_context() {
            Ok(()) => Ok(Wsh { inner: WshInner::Ms(ms) }),
            Err(e) => Err(e),
        }
    }

    /// Builds a sorted-multisig descriptor, delegating the per-key and
    /// threshold validation to the sorted-multisig constructor.
    pub fn new_sortedmulti(k: usize, pks: Vec<DescriptorKey>) -> (r: Result<Wsh, Error>)
        ensures
            r is Ok <==> (pks@.len() <= 20 && 1 <= k <= pks@.len() && (forall|i: int|
                0 <= i < pks@.len() ==> ((#[trigger] pks@[i]@).len() == 33 && spec_key_wf(
                    pks@[i]@,
                )))),
            r is Ok ==> ({
                let v = r->Ok_0@;
                &&& v matches WshView::SortedMulti(m) && m.k == k && m.keys == spec_sorted_of(
                    key_views(pks@),
                ) && m.keys.to_multiset() == key_views(pks@).to_multiset()
                &&& spec_wsh_wf(v)
            }),
            r is Err ==> r->Err_0 is ContextError,
    {
        match SortedMultiVec::new(k, pks) {
            Ok(smv) => Ok(Wsh { inner: WshInner::SortedMulti(smv) }),
            Err(e) => Err(e),
        }
    }

    /// Gives up the wrapper and yields the inner variant.
    pub fn into_inner(self) -> (r: WshInner)
        ensures
            r@ == self@,
    {
        self.inner
    }

    /// The inner variant, by reference.
    pub fn as_inner(&self) -> (r: &WshInner)
        ensures
            r@ == self@,
    {
        &self.inner
    }

    /// Re-checks the wrapped variant's structural safety; instances are
    /// validated at construction, so the re-check never fails.
    pub fn sanity_check(&self) -> (r: Result<(), Error>)
        requires
            spec_wsh_wf(self@),
        ensures
            r is Ok,
    {
        match &self.inner {
            WshInner::SortedMulti(smv) => smv.sanity_check(),
            WshInner::Ms(ms) => ms.sanity_check(),
        }
    }

    /// Upper bound, in weight units, on the witness growth of a
    /// satisfied input: stack-count varint difference, script-size
    /// varint, script, and worst-case satisfaction bytes, with every
    /// signature at seventy-three bytes. Never fails for the conditions
    /// this context admits.
    pub fn max_weight_to_satisfy(&self) -> (r: Result<u64, Error>)
        requires
            spec_wsh_wf(self@),
        ensures
            r is Ok && r->Ok_0 == spec_wsh_max_weight(self@),
    {
        proof {
            lemma_wsh_script_len(self@);
        }
        let (script_size, max_sat_elems, max_sat_size): (usize, usize, usize) = match &self.inner {
            WshInner::SortedMulti(smv) => (
                smv.script_size(),
                smv.max_satisfaction_witness_elements(),
                smv.max_satisfaction_size(),
            ),
            WshInner::Ms(ms) => {
                let elems = match ms.max_satisfaction_witness_elements() {
                    Ok(n) => n,
                    Err(e) => {
                        return Err(e);
                    },
                };
                let size = match ms.max_satisfaction_size() {
                    Ok(n) => n,
                    Err(e) => {
                        return Err(e);
                    },
                };
                (ms.script_size(), elems, size)
            },
        };
        let stack_varint_diff = varint_len(max_sat_elems) - varint_len(0);
        Ok((stack_varint_diff + varint_len(script_size) + script_size + max_sat_size) as u64)
    }

    /// The superseded weight bound, kept for callers of the older
    /// counting convention: adds a four-byte legacy signature-script
    /// allowance and does not difference the stack-count varint. Never
    /// fails for the conditions this context admits.
    pub fn max_satisfaction_weight(&self) -> (r: Result<usize, Error>)
        requires
            spec_wsh_wf(self@),
        ensures
            r is Ok && r->Ok_0 == spec_wsh_legacy_weight(self@),
    {
        proof {
            lemma_wsh_script_len(self@);
        }
        let (script_size, max_sat_elems, max_sat_size): (usize, usize, usize) = match &self.inner {
            WshInner::SortedMulti(smv) => (
                smv.script_size(),
                smv.max_satisfaction_witness_elements(),
                smv.max_satisfaction_size(),
            ),
            WshInner::Ms(ms) => {
                let elems = match ms.max_satisfaction_witness_elements() {
                    Ok(n) => n,
                    Err(e) => {
                        return Err(e);
                    },
                };
                let size = match ms.max_satisfaction_size() {
                    Ok(n) => n,
                    Err(e) => {
                        return Err(e);
                    },
                };
                (ms.script_size(), elems, size)
            },
        };
        Ok(4 + varint_len(script_size) + script_size + varint_len(max_sat_elems) + max_sat_size)
    }

    /// The serialized witness script: the pre-hash bytes a spend must
    /// reveal.
    pub fn inner_script(&self) -> (r: Vec<u8>)
        requires
            spec_wsh_wf(self@),
        ensures
            r@ == spec_wsh_script(self@),
    {
        match &self.inner {
            WshInner::SortedMulti(smv) => smv.encode(),
            WshInner::Ms(ms) => ms.encode(),
        }
    }

    /// The pre-taproot signature-hash script code; for this descriptor
    /// it is the witness script itself.
    pub fn ecdsa_sighash_script_code(&self) -> (r: Vec<u8>)
        requires
            spec_wsh_wf(self@),
        ensures
            r@ == spec_wsh_script(self@),
    {
        self.inner_script()
    }

    /// The output script: the witness version byte, a push of
    /// thirty-two bytes, and the SHA-256 of the witness script —
    /// thirty-four bytes in all.
    pub fn script_pubkey(&self) -> (r: Vec<u8>)
        requires
            spec_wsh_wf(self@),
        ensures
            r@ == seq![0u8, 32u8] + sha256_of(spec_wsh_script(self@)),
            r@.len() == 34,
    {
        let script = self.inner_script();
        let h = sha256(&script);
        let mut out: Vec<u8> = Vec::new();
        out.push(0);
        out.push(32);
        crate::expression::append_bytes(&mut out, &h);
        assert(out@ =~= seq![0u8, 32u8] + sha256_of(spec_wsh_script(self@)));
        out
    }

    /// The same commitment rendered as a network-prefixed bech32
    /// address.
    pub fn address(&self, network: Network) -> (r: String)
        requires
            spec_wsh_wf(self@),
        ensures
            r@ == p2wsh_addr_of(spec_wsh_script(self@), spec_network_id(network)),
    {
        let script = self.inner_script();
        p2wsh_address(&script, network)
    }

    /// Builds the full witness of a non-malleable spend: the inner
    /// condition's stack with the witness script appended, and an empty
    /// legacy signature script. Succeeds exactly when the oracle can
    /// satisfy the inner condition.
    pub fn get_satisfaction<S: Satisfier>(&self, satisfier: &S) -> (r: Result<
        (Vec<Vec<u8>>, Vec<u8>),
        Error,
    >)
        requires
            spec_wsh_wf(self@),
        ensures
            r is Ok <==> spec_wsh_sat_ok(*satisfier, self@),
            r is Ok ==> r->Ok_0.0@.map_values(|v: Vec<u8>| v@) == spec_wsh_inner_witness(
                *satisfier,
                self@,
            ).push(spec_wsh_script(self@)) && r->Ok_0.1@.len() == 0,
            r is Err ==> (r->Err_0 is MissingSig || r->Err_0 is CouldNotSatisfy),
    {
        let inner = match &self.inner {
            WshInner::SortedMulti(smv) => smv.satisfy(satisfier),
            WshInner::Ms(ms) => ms.satisfy(satisfier),
        };
        match inner {
            Ok(mut witness) => {
                let ghost oldw = witness@;
                let script = self.inner_script();
                witness.push(script);
                proof {
                    assert(witness@.map_values(|v: Vec<u8>| v@) =~= oldw.map_values(
                    |v: Vec<u8>| v@).push(spec_wsh_script(self@)));
                }
                Ok((witness, Vec::new()))
            },
            Err(e) => Err(e),
        }
    }

    /// Builds the full witness of a possibly malleable spend. The
    /// conditions this context admits have a unique minimal witness, so
    /// the result coincides with the non-malleable path.
    pub fn get_satisfaction_mall<S: Satisfier>(&self, satisfier: &S) -> (r: Result<
        (Vec<Vec<u8>>, Vec<u8>),
        Error,
    >)
        requires
            spec_wsh_wf(self@),
        ensures
            r is Ok <==> spec_wsh_sat_ok(*satisfier, self@),
            r is Ok ==> r->Ok_0.0@.map_values(|v: Vec<u8>| v@) == spec_wsh_inner_witness(
                *satisfier,
                self@,
            ).push(spec_wsh_script(self@)) && r->Ok_0.1@.len() == 0,
            r is Err ==> (r->Err_0 is MissingSig || r->Err_0 is CouldNotSatisfy),
    {
        let inner = match &self.inner {
            WshInner::SortedMulti(smv) => smv.satisfy(satisfier),
            WshInner::Ms(ms) => ms.satisfy_malleable(satisfier),
        };
        match inner {
            Ok(mut witness) => {
                let ghost oldw = witness@;
                let script = self.inner_script();
                witness.push(script);
                proof {
                    assert(witness@.map_values(|v: Vec<u8>| v@) =~= oldw.map_values(
                    |v: Vec<u8>| v@).push(spec_wsh_script(self@)));
                }
                Ok((witness, Vec::new()))
            },
            Err(e) => Err(e),
        }
    }

    /// A symbolic plan of the inner condition under a boolean
    /// availability oracle: a placeholder stack where enough keys are
    /// available, "unavailable" otherwise. Always a signature-bearing
    /// plan without timelocks.
    pub fn plan_satisfaction<P: AssetProvider>(&self, provider: &P) -> (r: Satisfaction)
        requires
            spec_wsh_wf(self@),
        ensures
            r.has_sig == true,
            r.relative_timelock is None,
            r.absolute_timelock is None,
            (r.stack matches Witness::Stack(v)) <==> spec_wsh_plan_ok(*provider, self@),
            r.stack matches Witness::Stack(v) ==> (match self@ {
                WshView::SortedMulti(m) => v@.len() == m.k + 1 && v@[0] is PushZero
                    && spec_ph_keys(v@.skip(1)) == spec_plan_keys(*provider, m.keys, m.k as int)
                    && (forall|j: int| 1 <= j < v@.len() ==> #[trigger] v@[j] is EcdsaSigPk),
                WshView::Ms(e) => match e {
                    ExprView::Pk(pk) => v@.len() == 1 && (v@[0] matches Placeholder::EcdsaSigPk(x)
                        && x@ == pk),
                    ExprView::Multi(k, ks) => v@.len() == k + 1 && v@[0] is PushZero
                        && spec_ph_keys(v@.skip(1)) == spec_plan_keys(*provider, ks, k as int)
                        && (forall|j: int| 1 <= j < v@.len() ==> #[trigger] v@[j] is EcdsaSigPk),
                },
            }),
    {
        match &self.inner {
            WshInner::SortedMulti(smv) => smv.build_template(provider),
            WshInner::Ms(ms) => ms.build_template(provider),
        }
    }

    /// The malleable planning path; identical to the non-malleable one
    /// for the conditions this context admits.
    pub fn plan_satisfaction_mall<P: AssetProvider>(&self, provider: &P) -> (r: Satisfaction)
        requires
            spec_wsh_wf(self@),
        ensures
            r.has_sig == true,
            r.relative_timelock is None,
            r.absolute_timelock is None,
            (r.stack matches Witness::Stack(v)) <==> spec_wsh_plan_ok(*provider, self@),
            r.stack matches Witness::Stack(v) ==> (match self@ {
                WshView::SortedMulti(m) => v@.len() == m.k + 1 && v@[0] is PushZero
                    && spec_ph_keys(v@.skip(1)) == spec_plan_keys(*provider, m.keys, m.k as int)
                    && (forall|j: int| 1 <= j < v@.len() ==> #[trigger] v@[j] is EcdsaSigPk),
                WshView::Ms(e) => match e {
                    ExprView::Pk(pk) => v@.len() == 1 && (v@[0] matches Placeholder::EcdsaSigPk(x)
                        && x@ == pk),
                    ExprView::Multi(k, ks) => v@.len() == k + 1 && v@[0] is PushZero
                        && spec_ph_keys(v@.skip(1)) == spec_plan_keys(*provider, ks, k as int)
                        && (forall|j: int| 1 <= j < v@.len() ==> #[trigger] v@[j] is EcdsaSigPk),
                },
            }),
    {
        self.plan_satisfaction(provider)
    }

    /// Maps every embedded key through the caller's mapping function,
    /// atomically: a failure on any key, or a failed re-validation of
    /// the mapped content, yields only an error and the original stays
    /// untouched.
    pub fn translate_pk<T: Translator>(&self, t: &T) -> (r: Result<Wsh, TranslateErr>)
        requires
            spec_wsh_wf(self@),
        ensures
            (r matches Err(TranslateErr::TranslatorErr(_))) <==> (exists|i: int|
                0 <= i < spec_wsh_keys(self@).len() && !t.spec_ok(
                    #[trigger] spec_wsh_keys(self@)[i],
                )),
            r is Ok <==> ((forall|i: int|
                0 <= i < spec_wsh_keys(self@).len() ==> t.spec_ok(
                    #[trigger] spec_wsh_keys(self@)[i],
                )) && (forall|i: int|
                0 <= i < spec_wsh_keys(self@).len() ==> t.spec_image(
                    #[trigger] spec_wsh_keys(self@)[i],
                ).len() == 33)),
            r is Ok ==> spec_wsh_wf(r->Ok_0@) && (match (self@, r->Ok_0@) {
                (WshView::SortedMulti(m), WshView::SortedMulti(m2)) => m2.k == m.k
                    && m2.keys.to_multiset() == m.keys.map_values(
                    |x: Seq<u8>| t.spec_image(x),
                ).to_multiset(),
                (WshView::Ms(e), WshView::Ms(e2)) => e2 == (match e {
                    ExprView::Pk(pk) => ExprView::Pk(t.spec_image(pk)),
                    ExprView::Multi(k, ks) => ExprView::Multi(
                        k,
                        ks.map_values(|x: Seq<u8>| t.spec_image(x)),
                    ),
                }),
                _ => false,
            }),
            (match r {
                Err(TranslateErr::OuterError(e)) => e is ContextError,
                _ => true,
            }),
    {
        match &self.inner {
            WshInner::SortedMulti(smv) => {
                match smv.translate_pk(t) {
                    Ok(s2) => Ok(Wsh { inner: WshInner::SortedMulti(s2) }),
                    Err(e) => Err(e),
                }
            },
            WshInner::Ms(ms) => {
                match ms.translate_pk(t) {
                    Ok(e2) => Ok(Wsh { inner: WshInner::Ms(e2) }),
                    Err(e) => Err(e),
                }
            },
        }
    }

    /// The keys the descriptor mentions, in stored order.
    pub fn keys(&self) -> (r: Vec<DescriptorKey>)
        ensures
            key_views(r@) == spec_wsh_keys(self@),
    {
        match &self.inner {
            WshInner::SortedMulti(smv) => smv.keys(),
            WshInner::Ms(ms) => ms.keys(),
        }
    }

    /// Lifts the descriptor to its abstract policy: whatever its
    /// wrapped variant lifts to. Never fails for the conditions this
    /// context admits.
    pub fn lift(&self) -> (r: Result<Policy, Error>)
        ensures
            r is Ok,
            r->Ok_0@ == (match self@ {
                WshView::SortedMulti(m) => GPolicy::Threshold(m.k, m.keys),
                WshView::Ms(e) => match e {
                    ExprView::Pk(k) => GPolicy::Key(k),
                    ExprView::Multi(k, ks) => GPolicy::Threshold(k, ks),
                },
            }),
    {
        match &self.inner {
            WshInner::SortedMulti(smv) => Ok(smv.lift()),
            WshInner::Ms(ms) => Ok(ms.lift()),
        }
    }

    /// Reads a script-hash descriptor from a parsed expression: the
    /// node must be named `wsh` with exactly one argument; a child
    /// named `sortedmulti` is read by the sorted-multisig grammar, any
    /// other child as a script expression, re-running the segwit-v0
    /// checks. A wrong name or arity is reported with the observed node
    /// name and argument count.
    pub fn from_tree(top: &Tree) -> (r: Result<Wsh, Error>)
        ensures
            r is Ok <==> spec_wsh_parse_ok(top@),
            r is Ok ==> r->Ok_0@ == spec_wsh_parsed(top@) && spec_wsh_wf(r->Ok_0@),
            (!(top@.name == spec_name_wsh() && top@.args.len() == 1)) ==> (r matches Err(e)
                && crate::errors::is_unexpected_err(e, top@.name, top@.args.len() as int)),
            (top@.name == spec_name_wsh() && top@.args.len() == 1 && top@.args[0].name
                == spec_name_sortedmulti() && top@.args[0].args.len() < 2) ==> (r matches Err(e)
                && crate::errors::is_unexpected_err(
                e,
                top@.args[0].name,
                top@.args[0].args.len() as int,
            )),
            (top@.name == spec_name_wsh() && top@.args.len() == 1 && top@.args[0].name
                != spec_name_sortedmulti() && !(top@.args[0].name == spec_name_pk()
                && top@.args[0].args.len() == 1) && !(top@.args[0].name == spec_name_multi()
                && top@.args[0].args.len() >= 2)) ==> (r matches Err(e)
                && crate::errors::is_unexpected_err(
                e,
                top@.args[0].name,
                top@.args[0].args.len() as int,
            )),
            (top@.name == spec_name_wsh() && top@.args.len() == 1 && ((top@.args[0].name
                == spec_name_sortedmulti() && top@.args[0].args.len() >= 2) || (top@.args[0].name
                == spec_name_multi() && top@.args[0].args.len() >= 2)) && !spec_dec_ok(
                top@.args[0].args[0],
            )) ==> (r matches Err(e) && crate::errors::is_bad_number_err(
                e,
                top@.args[0].args[0],
            )),
            (top@.name == spec_name_wsh() && top@.args.len() == 1 && ((top@.args[0].name
                == spec_name_sortedmulti() && top@.args[0].args.len() >= 2) || (top@.args[0].name
                == spec_name_multi() && top@.args[0].args.len() >= 2)) && spec_dec_ok(
                top@.args[0].args[0],
            ) && (exists|j: int|
                1 <= j < top@.args[0].args.len() && !spec_key_token_ok(
                    #[trigger] top@.args[0].args[j],
                ))) ==> (r matches Err(e) && (e is BadKey
                || crate::errors::is_compressed_only_kind(e))),
            (top@.name == spec_name_wsh() && top@.args.len() == 1 && top@.args[0].name
                == spec_name_pk() && top@.args[0].args.len() == 1 && !(
            top@.args[0].args[0].len() % 2 == 0 && spec_is_hex(top@.args[0].args[0])
                && spec_key_wf(spec_hex_decode(top@.args[0].args[0])))) ==> (r matches Err(e)
                && e is BadKey),
            (top@.name == spec_name_wsh() && top@.args.len() == 1 && top@.args[0].name
                == spec_name_pk() && top@.args[0].args.len() == 1 && top@.args[0].args[0].len()
                % 2 == 0 && spec_is_hex(top@.args[0].args[0]) && spec_key_wf(
                spec_hex_decode(top@.args[0].args[0]),
            ) && spec_hex_decode(top@.args[0].args[0]).len() == 65) ==> (r matches Err(e)
                && crate::errors::is_compressed_only_err(e, top@.args[0].args[0])),
    {
        let wsh_name = name_wsh_vec();
        proof {
            assert(top@.name == top.name@);
            assert(top@.args.len() == top.args@.len());
            assert(forall|j: int| 0 <= j < top.args@.len() ==> (#[trigger] top@.args[j])
                == top.args@[j]@);
        }
        if !(bytes_eq(&top.name, &wsh_name) && top.args.len() == 1) {
            return Err(Error::Unexpected(clone_bytes(&top.name), top.args.len()));
        }
        let child = &top.args[0];
        let smv_name = crate::sortedmulti::name_sortedmulti_vec();
        if bytes_eq(&child.name, &smv_name) {
            match SortedMultiVec::from_sub(child) {
                Ok(smv) => {
                    let r = Wsh { inner: WshInner::SortedMulti(smv) };
                    proof {
                        assert(r@ =~= spec_wsh_parsed(top@));
                    }
                    Ok(r)
                },
                Err(e) => Err(e),
            }
        } else {
            match ScriptExpr::from_sub(child) {
                Ok(ms) => {
                    match ms.check_context() {
                        Ok(()) => {
                            let r = Wsh { inner: WshInner::Ms(ms) };
                            proof {
                                assert(r@ =~= spec_wsh_parsed(top@));
                            }
                            Ok(r)
                        },
                        Err(e) => Err(e),
                    }
                },
                Err(e) => Err(e),
            }
        }
    }

    /// Prints the descriptor as a parsed expression: `wsh` wrapping the
    /// inner variant's own printed form.
    pub fn to_tree(&self) -> (r: Tree)
        requires
            spec_wsh_wf(self@),
        ensures
            r@ == spec_wsh_gtree(self@),
    {
        let sub = match &self.inner {
            WshInner::SortedMulti(smv) => smv.to_sub(),
            WshInner::Ms(ms) => ms.to_sub(),
        };
        let mut args: Vec<Subtree> = Vec::new();
        args.push(sub);
        let r = Tree { name: name_wsh_vec(), args };
        proof {
            assert(r@.args =~= spec_wsh_gtree(self@).args);
            assert(r@ =~= spec_wsh_gtree(self@));
        }
        r
    }

    /// The descriptor's textual form, as bytes of the canonical
    /// grammar.
    pub fn descriptor_bytes(&self) -> (r: Vec<u8>)
        requires
            spec_wsh_wf(self@),
        ensures
            r@ == spec_print_tree(spec_wsh_gtree(self@)),
    {
        let t = self.to_tree();
        print_tree(&t)
    }

    /// The textual form under its historical name. The grammar here
    /// carries no checksum, so this is the whole textual form.
    pub fn to_string_no_checksum(&self) -> (r: Vec<u8>)
        requires
            spec_wsh_wf(self@),
        ensures
            r@ == spec_print_tree(spec_wsh_gtree(self@)),
    {
        self.descriptor_bytes()
    }

    /// Reads a descriptor from its textual form. Whatever this accepts
    /// is well formed, and the input is exactly the canonical printed
    /// form of an expression tree that parses to the returned content.
    pub fn parse_descriptor(s: &Vec<u8>) -> (r: Result<Wsh, Error>)
        ensures
            r is Ok ==> spec_wsh_wf(r->Ok_0@),
            r is Ok ==> (exists|g: GTree|
                spec_wsh_parse_ok(g) && r->Ok_0@ == spec_wsh_parsed(g) && s@
                    == #[trigger] spec_print_tree(g)),
            forall|v: WshView| (spec_wsh_wf(v) && s@ == #[trigger] spec_print_tree(
                spec_wsh_gtree(v),
            )) ==> (r is Ok && r->Ok_0@ == v),
    {
        let parsed = parse_tree(s);
        proof {
            assert forall|v: WshView| spec_wsh_wf(v) && s@ == spec_print_tree(
                spec_wsh_gtree(v)) implies (parsed is Ok && parsed->Ok_0@ == spec_wsh_gtree(
                v,
            )) by {
                lemma_wsh_gtree_wf(v);
                assert(crate::expression::spec_tree_text(s@, spec_wsh_gtree(v)));
            }
        }
        let t = match parsed {
            Ok(t) => t,
            Err(e) => {
                return Err(e);
            },
        };
        let ghost g = t@;
        proof {
            assert forall|v: WshView| spec_wsh_wf(v) && s@ == spec_print_tree(
                spec_wsh_gtree(v)) implies (spec_wsh_parse_ok(g) && spec_wsh_parsed(g)
                == v) by {
                lemma_wsh_round_trip(v);
            }
        }
        match Wsh::from_tree(&t) {
            Ok(d) => {
                proof {
                    assert(spec_wsh_parse_ok(g) && d@ == spec_wsh_parsed(g) && s@
                        == spec_print_tree(g));
                }
                Ok(d)
            },
            Err(e) => Err(e),
        }
    }
}

/// Printing a valid script-hash descriptor and parsing the expression
/// back yields structurally equal content: the textual grammar
/// round-trips.
pub proof fn lemma_wsh_round_trip(v: WshView)
    requires
        spec_wsh_wf(v),
    ensures
        spec_wsh_parse_ok(spec_wsh_gtree(v)),
        spec_wsh_parsed(spec_wsh_gtree(v)) == v,
{
    let g = spec_wsh_gtree(v);
    match v {
        WshView::SortedMulti(m) => {
            lemma_smv_round_trip(m);
            assert(g.args[0] == spec_smv_sub(m));
            assert(spec_wsh_parsed(g) =~= v);
        },
        WshView::Ms(e) => {
            crate::script_expr::lemma_expr_round_trip(e);
            assert(g.args[0] == spec_expr_sub(e));
            assert(spec_name_pk().len() != spec_name_sortedmulti().len());
            assert(spec_name_multi().len() != spec_name_sortedmulti().len());
            assert(g.args[0].name != spec_name_sortedmulti());
            assert(spec_wsh_parsed(g) =~= v);
        },
    }
}

/// Validity of a key-hash descriptor's key: usable in compressed form.
pub open spec fn spec_wpkh_wf(k: Seq<u8>) -> bool {
    k.len() == 33 && spec_key_wf(k)
}

/// The parsed expression that prints a key-hash descriptor.
pub open spec fn spec_wpkh_gtree(k: Seq<u8>) -> GTree {
    GTree {
        name: spec_name_wpkh(),
        args: seq![GSub { name: spec_hex_encode(k), args: Seq::empty() }],
    }
}

/// Whether a parsed expression reads as a key-hash descriptor: the node
/// `wpkh` with exactly one leaf argument whose token decodes to a
/// compressed well-formed key.
pub open spec fn spec_wpkh_parse_ok(g: GTree) -> bool {
    &&& g.name == spec_name_wpkh()
    &&& g.args.len() == 1
    &&& g.args[0].args.len() == 0
    &&& g.args[0].name.len() % 2 == 0
    &&& spec_is_hex(g.args[0].name)
    &&& spec_key_wf(spec_hex_decode(g.args[0].name))
    &&& spec_hex_decode(g.args[0].name).len() == 33
}

/// The key a well-shaped expression parses to.
pub open spec fn spec_wpkh_parsed(g: GTree) -> Seq<u8> {
    spec_hex_decode(g.args[0].name)
}

/// A segwit-v0 key-hash descriptor: wraps exactly one key, which must
/// be usable in compressed form, and yields its script, address,
/// satisfaction, weight bound, policy lift and key translation.
#[derive(Debug, Clone, PartialEq, Eq, PartialOrd, Ord, Hash)]
pub struct Wpkh {
    pk: DescriptorKey,
}

impl View for Wpkh {
    type V = Seq<u8>;

    closed spec fn view(&self) -> Seq<u8> {
        self.pk@
    }
}

impl Wpkh {
    /// Wraps a key; fails with the compressed-only context error
    /// exactly where the key is not usable compressed.
    pub fn new(pk: DescriptorKey) -> (r: Result<Wpkh, ScriptContextError>)
        requires
            pk.wf(),
        ensures
            r is Ok <==> spec_wpkh_wf(pk@),
            r is Ok ==> r->Ok_0@ == pk@,
            r is Err ==> (r->Err_0 matches ScriptContextError::CompressedOnly(t) && t@
                == spec_hex_encode(pk@)),
    {
        if pk.is_uncompressed() {
            let t = pk.to_hex();
            Err(ScriptContextError::CompressedOnly(t))
        } else {
            Ok(Wpkh { pk })
        }
    }

    /// Gives up the wrapper and yields the key.
    pub fn into_inner(self) -> (r: DescriptorKey)
        ensures
            r@ == self@,
    {
        self.pk
    }

    /// The key, by reference.
    pub fn as_inner(&self) -> (r: &DescriptorKey)
        ensures
            r@ == self@,
    {
        &self.pk
    }

    /// Re-checks the compressed-only constraint independently of the
    /// constructor, as a defense against values built around it.
    pub fn sanity_check(&self) -> (r: Result<(), Error>)
        ensures
            r is Ok <==> self@.len() != 65,
            r is Err ==> crate::errors::is_compressed_only_err(r->Err_0, spec_hex_encode(self@)),
    {
        if self.pk.is_uncompressed() {
            Err(Error::ContextError(ScriptContextError::CompressedOnly(self.pk.to_hex())))
        } else {
            Ok(())
        }
    }

    /// Upper bound, in weight units, on the witness growth of a
    /// satisfied input: the stack-count varint difference plus a
    /// worst-case signature and the key push — one hundred and seven
    /// for a compressed key.
    pub fn max_weight_to_satisfy(&self) -> (r: u64)
        requires
            spec_wpkh_wf(self@),
        ensures
            r == 107,
    {
        let stack_items_size = 73 + 1 + self.pk.serialized_len();
        let stack_varint_diff = varint_len(2) - varint_len(0);
        (stack_varint_diff + stack_items_size) as u64
    }

    /// The superseded weight bound, kept for callers of the older
    /// counting convention: a four-byte legacy allowance, a one-byte
    /// stack count, the worst-case signature and the key push.
    pub fn max_satisfaction_weight(&self) -> (r: usize)
        requires
            spec_wpkh_wf(self@),
        ensures
            r == 112,
    {
        4 + 1 + 73 + 1 + self.pk.serialized_len()
    }

    /// Maps the key through the caller's mapping function; a mapping
    /// failure and a failed re-validation of the mapped key are told
    /// apart in the error.
    pub fn translate_pk<T: Translator>(&self, t: &T) -> (r: Result<Wpkh, TranslateErr>)
        requires
            spec_wpkh_wf(self@),
        ensures
            (r matches Err(TranslateErr::TranslatorErr(_))) <==> !t.spec_ok(self@),
            r is Ok <==> (t.spec_ok(self@) && t.spec_image(self@).len() == 33),
            r is Ok ==> r->Ok_0@ == t.spec_image(self@),
            (match r {
                Err(TranslateErr::OuterError(e)) => e is ContextError,
                _ => true,
            }),
    {
        match t.pk(&self.pk) {
            Ok(nk) => {
                match Wpkh::new(nk) {
                    Ok(w) => Ok(w),
                    Err(e) => Err(TranslateErr::OuterError(Error::ContextError(e))),
                }
            },
            Err(e) => Err(TranslateErr::TranslatorErr(e)),
        }
    }

    /// The output script: the witness version byte, a push of twenty
    /// bytes, and the HASH160 of the compressed key — twenty-two bytes
    /// in all.
    pub fn script_pubkey(&self) -> (r: Vec<u8>)
        requires
            spec_wpkh_wf(self@),
        ensures
            r@ == seq![0u8, 20u8] + hash160_of(self@),
            r@.len() == 22,
    {
        let h = hash160(self.pk.bytes());
        let mut out: Vec<u8> = Vec::new();
        out.push(0);
        out.push(20);
        crate::expression::append_bytes(&mut out, &h);
        assert(out@ =~= seq![0u8, 20u8] + hash160_of(self@));
        out
    }

    /// The same commitment rendered as a network-prefixed bech32
    /// address. Yields a value exactly where the key bytes are a valid
    /// compressed curve point, which the byte-level model cannot decide
    /// itself.
    pub fn address(&self, network: Network) -> (r: Option<String>)
        requires
            spec_wpkh_wf(self@),
        ensures
            r is Some <==> p2wpkh_valid_of(self@),
            r is Some ==> r->0@ == p2wpkh_addr_of(self@, spec_network_id(network)),
    {
        p2wpkh_address(self.pk.bytes(), network)
    }

    /// For a key-hash output there is no separate witness script: the
    /// output script itself commits to the key hash.
    pub fn inner_script(&self) -> (r: Vec<u8>)
        requires
            spec_wpkh_wf(self@),
        ensures
            r@ == seq![0u8, 20u8] + hash160_of(self@),
            r@.len() == 22,
    {
        self.script_pubkey()
    }

    /// The signature-hash script code of this witness version: the
    /// legacy pay-to-public-key-hash shape over the same key hash,
    /// twenty-five bytes.
    pub fn ecdsa_sighash_script_code(&self) -> (r: Vec<u8>)
        requires
            spec_wpkh_wf(self@),
        ensures
            r@ == seq![0x76u8, 0xa9u8, 0x14u8] + hash160_of(self@) + seq![0x88u8, 0xacu8],
            r@.len() == 25,
    {
        let h = hash160(self.pk.bytes());
        let mut out: Vec<u8> = Vec::new();
        out.push(0x76);
        out.push(0xa9);
        out.push(0x14);
        crate::expression::append_bytes(&mut out, &h);
        out.push(0x88);
        out.push(0xac);
        assert(out@ =~= seq![0x76u8, 0xa9u8, 0x14u8] + hash160_of(self@) + seq![0x88u8, 0xacu8]);
        out
    }

    /// Builds the witness of a spend: the signature and the key bytes,
    /// with an empty legacy signature script. Fails with the
    /// missing-signature error naming the key exactly when the oracle
    /// holds no signature for it.
    pub fn get_satisfaction<S: Satisfier>(&self, satisfier: &S) -> (r: Result<
        (Vec<Vec<u8>>, Vec<u8>),
        Error,
    >)
        requires
            spec_wpkh_wf(self@),
        ensures
            r is Ok <==> satisfier.spec_has_sig(self@),
            r is Ok ==> r->Ok_0.0@.map_values(|v: Vec<u8>| v@) == seq![
                satisfier.spec_sig(self@),
                self@,
            ] && r->Ok_0.1@.len() == 0,
            r is Err ==> crate::errors::is_missing_sig_err(r->Err_0, self@),
    {
        match satisfier.lookup_ecdsa_sig(&self.pk) {
            Some(sig) => {
                let mut witness: Vec<Vec<u8>> = Vec::new();
                witness.push(sig);
                witness.push(self.pk.to_bytes());
                proof {
                    assert(witness@.map_values(|v: Vec<u8>| v@) =~= seq![
                        satisfier.spec_sig(self@),
                        self@,
                    ]);
                }
                Ok((witness, Vec::new()))
            },
            None => Err(Error::MissingSig(self.pk.clone())),
        }
    }

    /// A single-signature witness has no malleability axis, so the
    /// malleable path is the non-malleable one.
    pub fn get_satisfaction_mall<S: Satisfier>(&self, satisfier: &S) -> (r: Result<
        (Vec<Vec<u8>>, Vec<u8>),
        Error,
    >)
        requires
            spec_wpkh_wf(self@),
        ensures
            r is Ok <==> satisfier.spec_has_sig(self@),
            r is Ok ==> r->Ok_0.0@.map_values(|v: Vec<u8>| v@) == seq![
                satisfier.spec_sig(self@),
                self@,
            ] && r->Ok_0.1@.len() == 0,
            r is Err ==> crate::errors::is_missing_sig_err(r->Err_0, self@),
    {
        self.get_satisfaction(satisfier)
    }

    /// A symbolic plan: where the provider reports the key available, a
    /// two-element stack of a signature placeholder and the key tagged
    /// with its push length; otherwise "unavailable". Always a
    /// signature-bearing plan without timelocks.
    pub fn plan_satisfaction<P: AssetProvider>(&self, provider: &P) -> (r: Satisfaction)
        requires
            spec_wpkh_wf(self@),
        ensures
            r.has_sig == true,
            r.relative_timelock is None,
            r.absolute_timelock is None,
            (r.stack matches Witness::Stack(v)) <==> provider.spec_has_sig(self@),
            r.stack matches Witness::Stack(v) ==> v@.len() == 2 && (v@[0] matches
            Placeholder::EcdsaSigPk(x) && x@ == self@) && (v@[1] matches Placeholder::Pubkey(
                y,
                l,
            ) && y@ == self@ && l == 34),
    {
        if provider.provider_lookup_ecdsa_sig(&self.pk) {
            let mut v: Vec<Placeholder> = Vec::new();
            v.push(Placeholder::EcdsaSigPk(self.pk.clone()));
            let len = 1 + self.pk.serialized_len();
            v.push(Placeholder::Pubkey(self.pk.clone(), len));
            Satisfaction {
                stack: Witness::Stack(v),
                has_sig: true,
                relative_timelock: None,
                absolute_timelock: None,
            }
        } else {
            Satisfaction {
                stack: Witness::Unavailable,
                has_sig: true,
                relative_timelock: None,
                absolute_timelock: None,
            }
        }
    }

    /// The malleable planning path; identical to the non-malleable one.
    pub fn plan_satisfaction_mall<P: AssetProvider>(&self, provider: &P) -> (r: Satisfaction)
        requires
            spec_wpkh_wf(self@),
        ensures
            r.has_sig == true,
            r.relative_timelock is None,
            r.absolute_timelock is None,
            (r.stack matches Witness::Stack(v)) <==> provider.spec_has_sig(self@),
            r.stack matches Witness::Stack(v) ==> v@.len() == 2 && (v@[0] matches
            Placeholder::EcdsaSigPk(x) && x@ == self@) && (v@[1] matches Placeholder::Pubkey(
                y,
                l,
            ) && y@ == self@ && l == 34),
    {
        self.plan_satisfaction(provider)
    }

    /// Lifts the descriptor to its abstract policy: a single key leaf
    /// holding the embedded key. Never fails.
    pub fn lift(&self) -> (r: Result<Policy, Error>)
        ensures
            r is Ok,
            r->Ok_0@ == GPolicy::Key(self@),
    {
        Ok(Policy::Key(self.pk.clone()))
    }

    /// Reads a key-hash descriptor from a parsed expression: the node
    /// must be named `wpkh` with exactly one leaf argument read through
    /// the key's own string grammar; an uncompressed key is rejected
    /// with the compressed-only context error. A wrong name or arity is
    /// reported with the observed node name and argument count.
    pub fn from_tree(top: &Tree) -> (r: Result<Wpkh, Error>)
        ensures
            r is Ok <==> spec_wpkh_parse_ok(top@),
            r is Ok ==> r->Ok_0@ == spec_wpkh_parsed(top@) && spec_wpkh_wf(r->Ok_0@),
            (!(top@.name == spec_name_wpkh() && top@.args.len() == 1)) ==> (r matches Err(e)
                && crate::errors::is_unexpected_err(e, top@.name, top@.args.len() as int)),
            (top@.name == spec_name_wpkh() && top@.args.len() == 1 && top@.args[0].args.len()
                != 0) ==> (r matches Err(e) && crate::errors::is_unexpected_err(
                e,
                top@.args[0].name,
                top@.args[0].args.len() as int,
            )),
            (top@.name == spec_name_wpkh() && top@.args.len() == 1 && top@.args[0].args.len()
                == 0 && !(top@.args[0].name.len() % 2 == 0 && spec_is_hex(top@.args[0].name)
                && spec_key_wf(spec_hex_decode(top@.args[0].name)))) ==> (r matches Err(e) && e
                is BadKey),
            (top@.name == spec_name_wpkh() && top@.args.len() == 1 && top@.args[0].args.len()
                == 0 && top@.args[0].name.len() % 2 == 0 && spec_is_hex(top@.args[0].name)
                && spec_key_wf(spec_hex_decode(top@.args[0].name)) && spec_hex_decode(
                top@.args[0].name,
            ).len() == 65) ==> (r matches Err(e) && crate::errors::is_compressed_only_err(
                e,
                spec_hex_encode(spec_hex_decode(top@.args[0].name)),
            )),
    {
        let wpkh_name = name_wpkh_vec();
        proof {
            assert(top@.name == top.name@);
            assert(top@.args.len() == top.args@.len());
            assert(forall|j: int| 0 <= j < top.args@.len() ==> (#[trigger] top@.args[j])
                == top.args@[j]@);
        }
        if !(bytes_eq(&top.name, &wpkh_name) && top.args.len() == 1) {
            return Err(Error::Unexpected(clone_bytes(&top.name), top.args.len()));
        }
        let child = &top.args[0];
        proof {
            assert(top@.args[0] == child@);
        }
        if child.args.len() != 0 {
            return Err(Error::Unexpected(clone_bytes(&child.name), child.args.len()));
        }
        assert(child@.args =~= Seq::<Seq<u8>>::empty());
        let key = match DescriptorKey::from_hex(&child.name) {
            Ok(k) => k,
            Err(e) => {
                return Err(e);
            },
        };
        if key.is_uncompressed() {
            return Err(Error::ContextError(ScriptContextError::CompressedOnly(key.to_hex())));
        }
        Ok(Wpkh { pk: key })
    }

    /// Prints the descriptor as a parsed expression: `wpkh` wrapping
    /// the key's hex text as a leaf.
    pub fn to_tree(&self) -> (r: Tree)
        requires
            spec_wpkh_wf(self@),
        ensures
            r@ == spec_wpkh_gtree(self@),
    {
        let mut args: Vec<Subtree> = Vec::new();
        args.push(Subtree { name: self.pk.to_hex(), args: Vec::new() });
        let r = Tree { name: name_wpkh_vec(), args };
        proof {
            assert(r@.args[0] =~= spec_wpkh_gtree(self@).args[0]);
            assert(r@.args =~= spec_wpkh_gtree(self@).args);
            assert(r@ =~= spec_wpkh_gtree(self@));
        }
        r
    }

    /// The descriptor's textual form, as bytes of the canonical
    /// grammar.
    pub fn descriptor_bytes(&self) -> (r: Vec<u8>)
        requires
            spec_wpkh_wf(self@),
        ensures
            r@ == spec_print_tree(spec_wpkh_gtree(self@)),
    {
        let t = self.to_tree();
        print_tree(&t)
    }

    /// The textual form under its historical name. The grammar here
    /// carries no checksum, so this is the whole textual form.
    pub fn to_string_no_checksum(&self) -> (r: Vec<u8>)
        requires
            spec_wpkh_wf(self@),
        ensures
            r@ == spec_print_tree(spec_wpkh_gtree(self@)),
    {
        self.descriptor_bytes()
    }

    /// Reads a descriptor from its textual form. Whatever this accepts
    /// is well formed, and the input is exactly the canonical printed
    /// form of an expression tree that parses to the returned key.
    pub fn parse_descriptor(s: &Vec<u8>) -> (r: Result<Wpkh, Error>)
        ensures
            r is Ok ==> spec_wpkh_wf(r->Ok_0@),
            r is Ok ==> (exists|g: GTree|
                spec_wpkh_parse_ok(g) && r->Ok_0@ == spec_wpkh_parsed(g) && s@
                    == #[trigger] spec_print_tree(g)),
            forall|k: Seq<u8>| (spec_wpkh_wf(k) && s@ == #[trigger] spec_print_tree(
                spec_wpkh_gtree(k),
            )) ==> (r is Ok && r->Ok_0@ == k),
    {
        let parsed = parse_tree(s);
        proof {
            assert forall|k: Seq<u8>| spec_wpkh_wf(k) && s@ == spec_print_tree(
                spec_wpkh_gtree(k)) implies (parsed is Ok && parsed->Ok_0@ == spec_wpkh_gtree(
                k,
            )) by {
                lemma_wpkh_gtree_wf(k);
                assert(crate::expression::spec_tree_text(s@, spec_wpkh_gtree(k)));
            }
        }
        let t = match parsed {
            Ok(t) => t,
            Err(e) => {
                return Err(e);
            },
        };
        let ghost g = t@;
        proof {
            assert forall|k: Seq<u8>| spec_wpkh_wf(k) && s@ == spec_print_tree(
                spec_wpkh_gtree(k)) implies (spec_wpkh_parse_ok(g) && spec_wpkh_parsed(g)
                == k) by {
                lemma_wpkh_round_trip(k);
            }
        }
        match Wpkh::from_tree(&t) {
            Ok(d) => {
                proof {
                    assert(spec_wpkh_parse_ok(g) && d@ == spec_wpkh_parsed(g) && s@
                        == spec_print_tree(g));
                }
                Ok(d)
            },
            Err(e) => Err(e),
        }
    }
}

/// Printing a valid key-hash descriptor and parsing the expression back
/// yields the same key: the textual grammar round-trips.
pub proof fn lemma_wpkh_round_trip(k: Seq<u8>)
    requires
        spec_wpkh_wf(k),
    ensures
        spec_wpkh_parse_ok(spec_wpkh_gtree(k)),
        spec_wpkh_parsed(spec_wpkh_gtree(k)) == k,
{
    crate::key::lemma_hex_round_trip(k);
    assert(spec_wpkh_gtree(k).args[0].name == spec_hex_encode(k));
}

/// The printed expression of a valid key-hash descriptor is a
/// well-formed single-argument tree.
pub proof fn lemma_wpkh_gtree_wf(k: Seq<u8>)
    requires
        spec_wpkh_wf(k),
    ensures
        crate::expression::spec_tree_wf(spec_wpkh_gtree(k)),
        spec_wpkh_gtree(k).args.len() == 1,
{
    crate::key::lemma_hex_token_wf(k);
    let g = spec_wpkh_gtree(k);
    assert forall|i: int| 0 <= i < g.name.len() implies !crate::expression::spec_is_delim(
        #[trigger] g.name[i]) by {
    }
    assert(crate::expression::spec_sub_wf(g.args[0]));
    assert forall|i: int| 0 <= i < g.args.len() implies crate::expression::spec_sub_wf(
        #[trigger] g.args[i]) by {
        assert(i == 0);
    }
}

/// The printed expression of a valid script-hash descriptor is a
/// well-formed single-argument tree.
pub proof fn lemma_wsh_gtree_wf(v: WshView)
    requires
        spec_wsh_wf(v),
    ensures
        crate::expression::spec_tree_wf(spec_wsh_gtree(v)),
        spec_wsh_gtree(v).args.len() == 1,
{
    let g = spec_wsh_gtree(v);
    assert forall|i: int| 0 <= i < g.name.len() implies !crate::expression::spec_is_delim(
        #[trigger] g.name[i]) by {
    }
    let sub = g.args[0];
    match v {
        WshView::SortedMulti(m) => {
            assert(sub == spec_smv_sub(m));
            assert forall|i: int| 0 <= i < sub.name.len() implies !crate::expression::spec_is_delim(
                #[trigger] sub.name[i]) by {
            }
            crate::expression::lemma_dec_token_wf(m.k as int);
            assert(sub.args[0] == crate::expression::spec_dec_print(m.k as int));
            assert forall|i: int| 0 <= i < sub.args.len() implies
                crate::expression::spec_token_wf(#[trigger] sub.args[i]) by {
                if i > 0 {
                    assert(sub.args[i] == spec_hex_encode(m.keys[i - 1]));
                    crate::key::lemma_hex_token_wf(m.keys[i - 1]);
                }
            }
        },
        WshView::Ms(e) => {
            match e {
                ExprView::Pk(k) => {
                    assert(sub == spec_expr_sub(e));
                    assert forall|i: int| 0 <= i < sub.name.len() implies
                        !crate::expression::spec_is_delim(#[trigger] sub.name[i]) by {
                    }
                    crate::key::lemma_hex_token_wf(k);
                    assert forall|i: int| 0 <= i < sub.args.len() implies
                        crate::expression::spec_token_wf(#[trigger] sub.args[i]) by {
                        assert(i == 0);
                        assert(sub.args[0] == spec_hex_encode(k));
                    }
                },
                ExprView::Multi(k, ks) => {
                    assert(sub == spec_expr_sub(e));
                    assert forall|i: int| 0 <= i < sub.name.len() implies
                        !crate::expression::spec_is_delim(#[trigger] sub.name[i]) by {
                    }
                    crate::expression::lemma_dec_token_wf(k as int);
                    assert(sub.args[0] == crate::expression::spec_dec_print(k as int));
                    assert forall|i: int| 0 <= i < sub.args.len() implies
                        crate::expression::spec_token_wf(#[trigger] sub.args[i]) by {
                        if i > 0 {
                            assert(sub.args[i] == spec_hex_encode(ks[i - 1]));
                            crate::key::lemma_hex_token_wf(ks[i - 1]);
                        }
                    }
                },
            }
        },
    }
    assert forall|i: int| 0 <= i < g.args.len() implies crate::expression::spec_sub_wf(
        #[trigger] g.args[i]) by {
        assert(i == 0);
    }
}

/// The string-level half of the round-trip law for key-hash
/// descriptors: any well-formed parse of text equal to a valid
/// descriptor's printed form yields that descriptor's key. Together
/// with parse soundness — whatever the parser accepts prints back to
/// exactly the input — the textual grammar cannot round-trip to
/// different content.
pub proof fn lemma_wpkh_string_round_trip(k: Seq<u8>, g: GTree)
    requires
        spec_wpkh_wf(k),
        crate::expression::spec_tree_wf(g),
        spec_wpkh_parse_ok(g),
        spec_print_tree(g) == spec_print_tree(spec_wpkh_gtree(k)),
    ensures
        spec_wpkh_parsed(g) == k,
{
    lemma_wpkh_gtree_wf(k);
    crate::expression::lemma_print_tree_injective(g, spec_wpkh_gtree(k));
    lemma_wpkh_round_trip(k);
}

/// The string-level half of the round-trip law for script-hash
/// descriptors: any well-formed parse of text equal to a valid
/// descriptor's printed form yields that descriptor's content.
pub proof fn lemma_wsh_string_round_trip(v: WshView, g: GTree)
    requires
        spec_wsh_wf(v),
        crate::expression::spec_tree_wf(g),
        spec_wsh_parse_ok(g),
        spec_print_tree(g) == spec_print_tree(spec_wsh_gtree(v)),
    ensures
        spec_wsh_parsed(g) == v,
{
    lemma_wsh_gtree_wf(v);
    crate::expression::lemma_print_tree_injective(g, spec_wsh_gtree(v));
    lemma_wsh_round_trip(v);
}

} // verus!
