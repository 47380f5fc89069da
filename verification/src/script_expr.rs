use vstd::prelude::*;
use crate::errors::{Error, ScriptContextError, TranslateErr};
use crate::expression::{Subtree, GSub, spec_dec_ok, spec_dec_val, spec_dec_print, parse_dec, print_dec, lemma_dec_round_trip};
use crate::key::{DescriptorKey, spec_key_wf, spec_is_hex, spec_hex_decode, spec_hex_encode, lemma_hex_round_trip, bytes_eq};
use crate::policy::{Policy, GPolicy};
use crate::satisfy::{Satisfier, AssetProvider, Translator, Placeholder, Witness, Satisfaction, key_views, clone_keys, collect_multi_sigs, collect_multi_plan, spec_sat_count, spec_multi_sigs, spec_avail_count, spec_plan_keys, spec_ph_keys};

verus! {

/// Mathematical image of a script expression.
#[verifier::ext_equal]
pub enum ExprView {
    /// A single-key check.
    Pk(Seq<u8>),
    /// A plain `k`-of-`n` multisignature check over the listed keys,
    /// in the order given.
    Multi(nat, Seq<Seq<u8>>),
}

/// A script expression usable under the segwit-v0 context: a single-key
/// check or a plain multisignature check. Values are plain data; the
/// segwit-v0 rules are checked by the descriptor constructors through
/// [`ScriptExpr::check`].
#[derive(Debug, Clone, PartialEq, Eq, PartialOrd, Ord, Hash)]
pub enum ScriptExpr {
    Pk(DescriptorKey),
    Multi(usize, Vec<DescriptorKey>),
}

impl View for ScriptExpr {
    type V = ExprView;

    open spec fn view(&self) -> ExprView {
        match self {
            ScriptExpr::Pk(k) => ExprView::Pk(k@),
            ScriptExpr::Multi(k, ks) => ExprView::Multi(*k as nat, key_views(ks@)),
        }
    }
}

/// The segwit-v0 validity of an expression: compressed well-formed keys
/// only, and multisig thresholds within protocol bounds.
pub open spec fn spec_expr_wf(v: ExprView) -> bool {
    match v {
        ExprView::Pk(k) => k.len() == 33 && spec_key_wf(k),
        ExprView::Multi(k, ks) => {
            &&& 1 <= k <= ks.len()
            &&& ks.len() <= 20
            &&& forall|i: int| 0 <= i < ks.len() ==> ((#[trigger] ks[i]).len() == 33 && spec_key_wf(ks[i]))
        },
    }
}

/// The keys an expression mentions, in order.
pub open spec fn spec_expr_keys(v: ExprView) -> Seq<Seq<u8>> {
    match v {
        ExprView::Pk(k) => seq![k],
        ExprView::Multi(_, ks) => ks,
    }
}

/// Script encoding of a small number: one opcode up to sixteen, a
/// one-byte push above.
pub open spec fn spec_pushnum(n: int) -> Seq<u8> {
    if n <= 16 {
        seq![(0x50 + n) as u8]
    } else {
        seq![1u8, n as u8]
    }
}

/// Concatenated pushes of compressed keys: a length byte and the key.
pub open spec fn spec_key_pushes(ks: Seq<Seq<u8>>) -> Seq<u8>
    decreases ks.len(),
{
    if ks.len() == 0 {
        Seq::empty()
    } else {
        seq![33u8] + ks[0] + spec_key_pushes(ks.drop_first())
    }
}

/// The serialized witness script of an expression: a key push followed by
/// a signature check, or a `k`-of-`n` checkmultisig.
pub open spec fn spec_expr_script(v: ExprView) -> Seq<u8> {
    match v {
        ExprView::Pk(k) => seq![33u8] + k + seq![0xacu8],
        ExprView::Multi(k, ks) => spec_pushnum(k as int) + spec_key_pushes(ks) + spec_pushnum(
            ks.len() as int,
        ) + seq![0xaeu8],
    }
}

/// Largest number of witness-stack elements a satisfaction can take,
/// counting the witness script as one element.
pub open spec fn spec_max_sat_elems(v: ExprView) -> int {
    match v {
        ExprView::Pk(_) => 2int,
        ExprView::Multi(k, _) => k as int + 2,
    }
}

/// Largest byte size of a satisfaction, with every signature at its
/// worst-case 73 bytes including its length prefix.
pub open spec fn spec_max_sat_size(v: ExprView) -> int {
    match v {
        ExprView::Pk(_) => 73int,
        ExprView::Multi(k, _) => 1 + 73 * (k as int),
    }
}

/// Appending one key appends one push.
pub proof fn lemma_key_pushes_push(ks: Seq<Seq<u8>>, x: Seq<u8>)
    ensures
        spec_key_pushes(ks.push(x)) == spec_key_pushes(ks) + seq![33u8] + x,
    decreases ks.len(),
{
    if ks.len() == 0 {
        assert(ks.push(x).drop_first() =~= Seq::<Seq<u8>>::empty());
        assert(ks.push(x)[0] == x);
        assert(spec_key_pushes(Seq::<Seq<u8>>::empty()) == Seq::<u8>::empty());
        assert(spec_key_pushes(ks.push(x)) == seq![33u8] + x + spec_key_pushes(
        Seq::<Seq<u8>>::empty()));
        assert(seq![33u8] + x + Seq::<u8>::empty() =~= seq![33u8] + x);
        assert(spec_key_pushes(ks) + seq![33u8] + x =~= seq![33u8] + x);
    } else {
        assert(ks.push(x).drop_first() =~= ks.drop_first().push(x));
        lemma_key_pushes_push(ks.drop_first(), x);
        assert(spec_key_pushes(ks.push(x)) == seq![33u8] + ks[0] + (spec_key_pushes(
        ks.drop_first()) + seq![33u8] + x));
        assert(seq![33u8] + ks[0] + (spec_key_pushes(ks.drop_first()) + seq![33u8] + x) =~= (
        seq![33u8] + ks[0] + spec_key_pushes(ks.drop_first())) + seq![33u8] + x);
    }
}

/// Thirty-four bytes for each compressed key push.
pub proof fn lemma_key_pushes_len(ks: Seq<Seq<u8>>)
    requires
        forall|i: int| 0 <= i < ks.len() ==> (#[trigger] ks[i]).len() == 33,
    ensures
        spec_key_pushes(ks).len() == 34 * ks.len(),
    decreases ks.len(),
{
    if ks.len() > 0 {
        assert(forall|i: int| 0 <= i < ks.drop_first().len() ==> (#[trigger] ks.drop_first()[
        i]).len() == 33);
        lemma_key_pushes_len(ks.drop_first());
    }
}

/// Token name of the single-key node.
pub open spec fn spec_name_pk() -> Seq<u8> {
    seq![112u8, 107u8]
}

/// Token name of the plain multisignature node.
pub open spec fn spec_name_multi() -> Seq<u8> {
    seq![109u8, 117u8, 108u8, 116u8, 105u8]
}

/// The bytes of the single-key node name.
pub fn name_pk_vec() -> (r: Vec<u8>)
    ensures
        r@ == spec_name_pk(),
{
    let mut v: Vec<u8> = Vec::new();
    v.push(112);
    v.push(107);
    assert(v@ =~= spec_name_pk());
    v
}

/// The bytes of the plain multisignature node name.
pub fn name_multi_vec() -> (r: Vec<u8>)
    ensures
        r@ == spec_name_multi(),
{
    let mut v: Vec<u8> = Vec::new();
    v.push(109);
    v.push(117);
    v.push(108);
    v.push(116);
    v.push(105);
    assert(v@ =~= spec_name_multi());
    v
}

/// A token that reads as a compressed key: even-length hex whose decoded
/// bytes are a well-formed 33-byte key.
pub open spec fn spec_key_token_ok(t: Seq<u8>) -> bool {
    &&& t.len() % 2 == 0
    &&& spec_is_hex(t)
    &&& spec_key_wf(spec_hex_decode(t))
    &&& spec_hex_decode(t).len() == 33
}

/// Whether a child node parses as a script expression.
pub open spec fn spec_expr_parse_ok(g: GSub) -> bool {
    if g.name == spec_name_pk() && g.args.len() == 1 {
        spec_key_token_ok(g.args[0])
    } else if g.name == spec_name_multi() && g.args.len() >= 2 {
        &&& spec_dec_ok(g.args[0])
        &&& 1 <= spec_dec_val(g.args[0]) <= g.args.len() - 1
        &&& g.args.len() - 1 <= 20
        &&& forall|i: int| 1 <= i < g.args.len() ==> spec_key_token_ok(#[trigger] g.args[i])
    } else {
        false
    }
}

/// The expression a well-shaped child node parses to.
pub open spec fn spec_expr_parsed(g: GSub) -> ExprView {
    if g.name == spec_name_pk() && g.args.len() == 1 {
        ExprView::Pk(spec_hex_decode(g.args[0]))
    } else {
        ExprView::Multi(
            spec_dec_val(g.args[0]) as nat,
            g.args.skip(1).map_values(|t: Seq<u8>| spec_hex_decode(t)),
        )
    }
}

/// The child node that prints an expression.
pub open spec fn spec_expr_sub(v: ExprView) -> GSub {
    match v {
        ExprView::Pk(k) => GSub { name: spec_name_pk(), args: seq![spec_hex_encode(k)] },
        ExprView::Multi(k, ks) => GSub {
            name: spec_name_multi(),
            args: seq![spec_dec_print(k as int)] + ks.map_values(|x: Seq<u8>| spec_hex_encode(x)),
        },
    }
}

/// Printing a valid expression and parsing the node back yields the
/// expression: the textual grammar round-trips below the descriptor level.
pub proof fn lemma_expr_round_trip(v: ExprView)
    requires
        spec_expr_wf(v),
    ensures
        spec_expr_parse_ok(spec_expr_sub(v)),
        spec_expr_parsed(spec_expr_sub(v)) == v,
{
    let g = spec_expr_sub(v);
    match v {
        ExprView::Pk(k) => {
            lemma_hex_round_trip(k);
            assert(g.args[0] == spec_hex_encode(k));
        },
        ExprView::Multi(k, ks) => {
            assert(spec_name_multi().len() != spec_name_pk().len());
            assert(g.name != spec_name_pk());
            lemma_dec_round_trip(k as int);
            assert(g.args[0] == spec_dec_print(k as int));
            assert forall|i: int| 1 <= i < g.args.len() implies spec_key_token_ok(
                #[trigger] g.args[i]) by {
                assert(g.args[i] == spec_hex_encode(ks[i - 1]));
                lemma_hex_round_trip(ks[i - 1]);
            }
            let parsed = g.args.skip(1).map_values(|t: Seq<u8>| spec_hex_decode(t));
            assert forall|i: int| 0 <= i < ks.len() implies parsed[i] == ks[i] by {
                assert(g.args.skip(1)[i] == spec_hex_encode(ks[i]));
                lemma_hex_round_trip(ks[i]);
            }
            assert(parsed =~= ks);
            assert(spec_expr_parsed(g) =~= v);
        },
    }
}

impl ScriptExpr {
    /// Runs the segwit-v0 validity rules, reporting the first violation
    /// as a context error: an uncompressed or malformed key, a
    /// threshold out of bounds, or too many multisig keys.
    #[verifier::loop_isolation(false)]
    pub fn check_context(&self) -> (r: Result<(), Error>)
        ensures
            r is Ok <==> spec_expr_wf(self@),
            r is Err ==> r->Err_0 is ContextError,
    {
        match self {
            ScriptExpr::Pk(k) => {
                let b = k.bytes();
                if b.len() == 33 && (b[0] == 2 || b[0] == 3) {
                    Ok(())
                } else {
                    Err(Error::ContextError(ScriptContextError::CompressedOnly(k.to_hex())))
                }
            },
            ScriptExpr::Multi(k, ks) => {
                assert(key_views(ks@).len() == ks@.len());
                if ks.len() > 20 {
                    return Err(Error::ContextError(ScriptContextError::MultisigTooManyKeys(
                        ks.len(),
                    )));
                }
                if *k < 1 || *k > ks.len() {
                    return Err(Error::ContextError(ScriptContextError::InvalidThreshold(
                        *k,
                        ks.len(),
                    )));
                }
                let mut i: usize = 0;
                while i < ks.len()
                    invariant
                        i <= ks@.len(),
                        forall|j: int| 0 <= j < i ==> ((#[trigger] ks@[j]@).len() == 33
                            && spec_key_wf(ks@[j]@)),
                    decreases ks@.len() - i,
                {
                    let b = ks[i].bytes();
                    if !(b.len() == 33 && (b[0] == 2 || b[0] == 3)) {
                        proof {
                            assert(key_views(ks@)[i as int] == ks@[i as int]@);
                            assert(!((key_views(ks@)[i as int]).len() == 33 && spec_key_wf(
                            key_views(ks@)[i as int])));
                        }
                        return Err(Error::ContextError(ScriptContextError::CompressedOnly(
                            ks[i].to_hex(),
                        )));
                    }
                    i = i + 1;
                }
                assert(forall|j: int| 0 <= j < key_views(ks@).len() ==> (#[trigger] key_views(
                ks@)[j]) == ks@[j]@);
                Ok(())
            },
        }
    }

    /// Byte size of the serialized witness script.
    pub fn script_size(&self) -> (r: usize)
        requires
            spec_expr_wf(self@),
        ensures
            r == spec_expr_script(self@).len(),
    {
        match self {
            ScriptExpr::Pk(_) => 35,
            ScriptExpr::Multi(k, ks) => {
                proof {
                    lemma_key_pushes_len(key_views(ks@));
                }
                let kn: usize = if *k <= 16 { 1 } else { 2 };
                let nn: usize = if ks.len() <= 16 { 1 } else { 2 };
                kn + 34 * ks.len() + nn + 1
            },
        }
    }

    /// Serialized witness script of the expression.
    #[verifier::loop_isolation(false)]
    pub fn encode(&self) -> (r: Vec<u8>)
        requires
            spec_expr_wf(self@),
        ensures
            r@ == spec_expr_script(self@),
    {
        match self {
            ScriptExpr::Pk(k) => {
                let mut out: Vec<u8> = Vec::new();
                out.push(33);
                crate::expression::append_bytes(&mut out, k.bytes());
                out.push(0xac);
                assert(out@ =~= spec_expr_script(self@));
                out
            },
            ScriptExpr::Multi(k, ks) => {
                let mut out: Vec<u8> = Vec::new();
                push_num(&mut out, *k);
                let mut i: usize = 0;
                while i < ks.len()
                    invariant
                        i <= ks@.len(),
                        spec_expr_wf(self@),
                        self@ == ExprView::Multi(*k as nat, key_views(ks@)),
                        1 <= *k <= ks@.len() <= 20,
                        out@ == spec_pushnum(*k as int) + spec_key_pushes(
                            key_views(ks@).subrange(0, i as int),
                        ),
                    decreases ks@.len() - i,
                {
                    let ghost pref = key_views(ks@).subrange(0, i as int);
                    out.push(33);
                    crate::expression::append_bytes(&mut out, ks[i].bytes());
                    proof {
                        lemma_key_pushes_push(pref, key_views(ks@)[i as int]);
                        assert(pref.push(key_views(ks@)[i as int]) =~= key_views(ks@).subrange(
                        0, i as int + 1));
                        assert(out@ =~= spec_pushnum(*k as int) + spec_key_pushes(
                        key_views(ks@).subrange(0, i as int + 1)));
                    }
                    i = i + 1;
                }
                assert(key_views(ks@).subrange(0, ks@.len() as int) =~= key_views(ks@));
                push_num(&mut out, ks.len());
                out.push(0xae);
                assert(out@ =~= spec_expr_script(self@));
                out
            },
        }
    }

    /// Largest number of witness elements of a satisfaction; never fails
    /// for the expressions this context admits.
    pub fn max_satisfaction_witness_elements(&self) -> (r: Result<usize, Error>)
        requires
            spec_expr_wf(self@),
        ensures
            r is Ok && r->Ok_0 == spec_max_sat_elems(self@),
    {
        match self {
            ScriptExpr::Pk(_) => Ok(2),
            ScriptExpr::Multi(k, _) => Ok(*k + 2),
        }
    }

    /// Largest byte size of a satisfaction; never fails for the
    /// expressions this context admits.
    pub fn max_satisfaction_size(&self) -> (r: Result<usize, Error>)
        requires
            spec_expr_wf(self@),
        ensures
            r is Ok && r->Ok_0 == spec_max_sat_size(self@),
    {
        match self {
            ScriptExpr::Pk(_) => Ok(73),
            ScriptExpr::Multi(k, _) => Ok(1 + 73 * *k),
        }
    }

    /// Structural safety of the expression. The expressions this context
    /// admits are always spendable, so the check never fails.
    pub fn sanity_check(&self) -> (r: Result<(), Error>)
        requires
            spec_expr_wf(self@),
        ensures
            r is Ok,
    {
        Ok(())
    }

    /// The keys the expression mentions, in order.
    pub fn keys(&self) -> (r: Vec<DescriptorKey>)
        ensures
            key_views(r@) == spec_expr_keys(self@),
    {
        match self {
            ScriptExpr::Pk(k) => {
                let mut v: Vec<DescriptorKey> = Vec::new();
                v.push(k.clone());
                assert(key_views(v@) =~= spec_expr_keys(self@));
                v
            },
            ScriptExpr::Multi(_, ks) => {
                let r = clone_keys(ks);
                r
            },
        }
    }

    /// Builds a witness stack satisfying the expression: one signature
    /// for the single-key check, a dummy element and `k` signatures in
    /// key order for the multisignature check. Succeeds exactly when the
    /// oracle holds the needed signatures.
    pub fn satisfy<S: Satisfier>(&self, s: &S) -> (r: Result<Vec<Vec<u8>>, Error>)
        requires
            spec_expr_wf(self@),
        ensures
            match self@ {
                ExprView::Pk(pk) => {
                    &&& (r is Ok <==> s.spec_has_sig(pk))
                    &&& (r is Ok ==> r->Ok_0@.map_values(|v: Vec<u8>| v@) == seq![s.spec_sig(pk)])
                    &&& (r is Err ==> crate::errors::is_missing_sig_err(r->Err_0, pk))
                },
                ExprView::Multi(k, ks) => {
                    &&& (r is Ok <==> spec_sat_count(*s, ks) >= k)
                    &&& (r is Ok ==> r->Ok_0@.map_values(|v: Vec<u8>| v@) == seq![Seq::<u8>::empty()]
                        + spec_multi_sigs(*s, ks, k as int))
                    &&& (r is Err ==> r->Err_0 is CouldNotSatisfy)
                },
            },
    {
        match self {
            ScriptExpr::Pk(k) => {
                match s.lookup_ecdsa_sig(k) {
                    Some(sig) => {
                        let mut w: Vec<Vec<u8>> = Vec::new();
                        w.push(sig);
                        assert(w@.map_values(|v: Vec<u8>| v@) =~= seq![s.spec_sig(k@)]);
                        Ok(w)
                    },
                    None => Err(Error::MissingSig(k.clone())),
                }
            },
            ScriptExpr::Multi(k, ks) => {
                match collect_multi_sigs(ks, *k, s) {
                    Ok(sigs) => {
                        let mut w = sigs;
                        let ghost oldw = w@;
                        w.insert(0, Vec::new());
                        proof {
                            assert(w@.map_values(|v: Vec<u8>| v@) =~= seq![Seq::<u8>::empty()]
                                + oldw.map_values(|v: Vec<u8>| v@));
                        }
                        Ok(w)
                    },
                    Err(e) => Err(e),
                }
            },
        }
    }

    /// Builds a witness stack that satisfies the expression, allowing any
    /// valid witness. The expressions this context admits have a unique
    /// minimal witness, so this coincides with the non-malleable path.
    pub fn satisfy_malleable<S: Satisfier>(&self, s: &S) -> (r: Result<Vec<Vec<u8>>, Error>)
        requires
            spec_expr_wf(self@),
        ensures
            match self@ {
                ExprView::Pk(pk) => {
                    &&& (r is Ok <==> s.spec_has_sig(pk))
                    &&& (r is Ok ==> r->Ok_0@.map_values(|v: Vec<u8>| v@) == seq![s.spec_sig(pk)])
                    &&& (r is Err ==> crate::errors::is_missing_sig_err(r->Err_0, pk))
                },
                ExprView::Multi(k, ks) => {
                    &&& (r is Ok <==> spec_sat_count(*s, ks) >= k)
                    &&& (r is Ok ==> r->Ok_0@.map_values(|v: Vec<u8>| v@) == seq![Seq::<u8>::empty()]
                        + spec_multi_sigs(*s, ks, k as int))
                    &&& (r is Err ==> r->Err_0 is CouldNotSatisfy)
                },
            },
    {
        self.satisfy(s)
    }

    /// The worst-case witness shape under a boolean availability oracle:
    /// placeholders standing for the elements a real satisfaction would
    /// push, or "unavailable" where too few keys are usable.
    pub fn build_template<P: AssetProvider>(&self, p: &P) -> (r: Satisfaction)
        requires
            spec_expr_wf(self@),
        ensures
            r.has_sig == true,
            r.relative_timelock is None,
            r.absolute_timelock is None,
            match self@ {
                ExprView::Pk(pk) => {
                    if p.spec_has_sig(pk) {
                        r.stack matches Witness::Stack(v) && v@.len() == 1 && (v@[0] matches
                        Placeholder::EcdsaSigPk(x) && x@ == pk)
                    } else {
                        r.stack is Unavailable
                    }
                },
                ExprView::Multi(k, ks) => {
                    if spec_avail_count(*p, ks) >= k {
                        r.stack matches Witness::Stack(v) && v@.len() == k + 1 && v@[0]
                            is PushZero && spec_ph_keys(v@.skip(1)) == spec_plan_keys(
                            *p,
                            ks,
                            k as int,
                        ) && (forall|j: int| 1 <= j < v@.len() ==> #[trigger] v@[j] is EcdsaSigPk)
                    } else {
                        r.stack is Unavailable
                    }
                },
            },
    {
        match self {
            ScriptExpr::Pk(k) => {
                if p.provider_lookup_ecdsa_sig(k) {
                    let mut v: Vec<Placeholder> = Vec::new();
                    v.push(Placeholder::EcdsaSigPk(k.clone()));
                    Satisfaction {
                        stack: Witness::Stack(v),
                        has_sig: true,
                        relative_timelock: None,
                        absolute_timelock: None,
                    }
                } else {
                    Satisfaction {
                        stack: Witness::Unavailable,
                        has_sig: true,
                        relative_timelock: None,
                        absolute_timelock: None,
                    }
                }
            },
            ScriptExpr::Multi(k, ks) => {
                match collect_multi_plan(ks, *k, p) {
                    Some(phs) => {
                        let mut v = phs;
                        let ghost oldv = v@;
                        v.insert(0, Placeholder::PushZero);
                        proof {
                            assert(v@.skip(1) =~= oldv);
                        }
                        Satisfaction {
                            stack: Witness::Stack(v),
                            has_sig: true,
                            relative_timelock: None,
                            absolute_timelock: None,
                        }
                    },
                    None => Satisfaction {
                        stack: Witness::Unavailable,
                        has_sig: true,
                        relative_timelock: None,
                        absolute_timelock: None,
                    },
                }
            },
        }
    }

    /// Maps every key of the expression through the caller's mapping
    /// function, atomically: any mapping failure, or a mapped key that is
    /// not usable compressed, yields only an error.
    #[verifier::loop_isolation(false)]
    pub fn translate_pk<T: Translator>(&self, t: &T) -> (r: Result<ScriptExpr, TranslateErr>)
        requires
            spec_expr_wf(self@),
        ensures
            (r matches Err(TranslateErr::TranslatorErr(_))) <==> (exists|i: int|
                0 <= i < spec_expr_keys(self@).len() && !t.spec_ok(
                    #[trigger] spec_expr_keys(self@)[i],
                )),
            r is Ok <==> ((forall|i: int|
                0 <= i < spec_expr_keys(self@).len() ==> t.spec_ok(
                    #[trigger] spec_expr_keys(self@)[i],
                )) && (forall|i: int|
                0 <= i < spec_expr_keys(self@).len() ==> t.spec_image(
                    #[trigger] spec_expr_keys(self@)[i],
                ).len() == 33)),
            r is Ok ==> spec_expr_wf(r->Ok_0@) && r->Ok_0@ == (match self@ {
                ExprView::Pk(pk) => ExprView::Pk(t.spec_image(pk)),
                ExprView::Multi(k, ks) => ExprView::Multi(
                    k,
                    ks.map_values(|x: Seq<u8>| t.spec_image(x)),
                ),
            }),
            (match r {
                Err(TranslateErr::OuterError(e)) => e is ContextError,
                _ => true,
            }),
    {
        match self {
            ScriptExpr::Pk(k) => {
                proof {
                    assert(spec_expr_keys(self@) =~= seq![k@]);
                    assert(spec_expr_keys(self@)[0] == k@);
                }
                match t.pk(k) {
                    Ok(nk) => {
                        if nk.serialized_len() == 33 {
                            Ok(ScriptExpr::Pk(nk))
                        } else {
                            Err(TranslateErr::OuterError(Error::ContextError(
                                ScriptContextError::CompressedOnly(nk.to_hex()),
                            )))
                        }
                    },
                    Err(e) => Err(TranslateErr::TranslatorErr(e)),
                }
            },
            ScriptExpr::Multi(k, ks) => {
                let ghost kv = key_views(ks@);
                proof {
                    assert(spec_expr_keys(self@) == kv);
                    assert(forall|j: int| 0 <= j < kv.len() ==> (#[trigger] kv[j]) == ks@[j]@);
                }
                let mut mapped: Vec<DescriptorKey> = Vec::new();
                let mut i: usize = 0;
                while i < ks.len()
                    invariant
                        i <= ks@.len(),
                        kv == key_views(ks@),
                        mapped@.len() == i,
                        forall|j: int| 0 <= j < i ==> t.spec_ok(#[trigger] kv[j]),
                        forall|j: int| 0 <= j < i ==> (#[trigger] mapped@[j]@) == t.spec_image(
                            kv[j],
                        ) && spec_key_wf(mapped@[j]@),
                    decreases ks@.len() - i,
                {
                    match t.pk(&ks[i]) {
                        Ok(nk) => {
                            mapped.push(nk);
                        },
                        Err(e) => {
                            proof {
                                assert(spec_expr_keys(self@)[i as int] == kv[i as int]);
                                assert(!t.spec_ok(spec_expr_keys(self@)[i as int]));
                            }
                            return Err(TranslateErr::TranslatorErr(e));
                        },
                    }
                    i = i + 1;
                }
                let mut j: usize = 0;
                while j < mapped.len()
                    invariant
                        mapped@.len() == ks@.len(),
                        kv == key_views(ks@),
                        j <= mapped@.len(),
                        forall|x: int| 0 <= x < mapped@.len() ==> t.spec_ok(#[trigger] kv[x]),
                        forall|x: int| 0 <= x < mapped@.len() ==> (#[trigger] mapped@[x]@)
                            == t.spec_image(kv[x]) && spec_key_wf(mapped@[x]@),
                        forall|x: int| 0 <= x < j ==> (#[trigger] mapped@[x]@).len() == 33,
                    decreases mapped@.len() - j,
                {
                    if mapped[j].serialized_len() != 33 {
                        proof {
                            assert(spec_expr_keys(self@)[j as int] == kv[j as int]);
                            assert(t.spec_image(spec_expr_keys(self@)[j as int]).len() != 33);
                            assert(forall|x: int| 0 <= x < kv.len() ==> #[trigger] spec_expr_keys(
                            self@)[x] == kv[x]);
                        }
                        return Err(TranslateErr::OuterError(Error::ContextError(
                            ScriptContextError::CompressedOnly(mapped[j].to_hex()),
                        )));
                    }
                    j = j + 1;
                }
                let r = ScriptExpr::Multi(*k, mapped);
                proof {
                    assert(key_views(mapped@) =~= kv.map_values(|x: Seq<u8>| t.spec_image(x)));
                    assert forall|x: int| 0 <= x < kv.len() implies t.spec_ok(
                        #[trigger] spec_expr_keys(self@)[x]) && t.spec_image(
                        spec_expr_keys(self@)[x]).len() == 33 by {
                        assert(spec_expr_keys(self@)[x] == kv[x]);
                        assert(t.spec_image(kv[x]) == mapped@[x]@);
                    }
                }
                Ok(r)
            },
        }
    }

    /// Lifts the expression to its abstract policy: a key leaf, or a
    /// threshold over the listed keys.
    pub fn lift(&self) -> (r: Policy)
        ensures
            r@ == (match self@ {
                ExprView::Pk(k) => GPolicy::Key(k),
                ExprView::Multi(k, ks) => GPolicy::Threshold(k, ks),
            }),
    {
        match self {
            ScriptExpr::Pk(k) => Policy::Key(k.clone()),
            ScriptExpr::Multi(k, ks) => {
                let r = Policy::Threshold(*k, clone_keys(ks));
                proof {
                    assert(r@ =~= GPolicy::Threshold(*k as nat, key_views(ks@)));
                }
                r
            },
        }
    }

    /// Reads an expression from a parsed child node; succeeds exactly on
    /// a well-shaped `pk` or `multi` node whose tokens read back as the
    /// grammar demands. A node of any other name or arity is reported
    /// with its name and argument count.
    #[verifier::loop_isolation(false)]
    pub fn from_sub(st: &Subtree) -> (r: Result<ScriptExpr, Error>)
        ensures
            r is Ok <==> spec_expr_parse_ok(st@),
            r is Ok ==> r->Ok_0@ == spec_expr_parsed(st@) && spec_expr_wf(r->Ok_0@),
            (!(st@.name == spec_name_pk() && st@.args.len() == 1) && !(st@.name
                == spec_name_multi() && st@.args.len() >= 2)) ==> (r matches Err(e)
                && crate::errors::is_unexpected_err(e, st@.name, st@.args.len() as int)),
            (st@.name == spec_name_pk() && st@.args.len() == 1 && !(st@.args[0].len() % 2 == 0
                && spec_is_hex(st@.args[0]) && spec_key_wf(spec_hex_decode(st@.args[0]))))
                ==> (r matches Err(e) && e is BadKey),
            (st@.name == spec_name_pk() && st@.args.len() == 1 && st@.args[0].len() % 2 == 0
                && spec_is_hex(st@.args[0]) && spec_key_wf(spec_hex_decode(st@.args[0]))
                && spec_hex_decode(st@.args[0]).len() == 65) ==> (r matches Err(e)
                && crate::errors::is_compressed_only_err(e, st@.args[0])),
            (st@.name == spec_name_multi() && st@.args.len() >= 2 && !spec_dec_ok(st@.args[0]))
                ==> (r matches Err(e) && crate::errors::is_bad_number_err(e, st@.args[0])),
            (st@.name == spec_name_multi() && st@.args.len() >= 2 && spec_dec_ok(st@.args[0])
                && (exists|j: int|
                1 <= j < st@.args.len() && !spec_key_token_ok(#[trigger] st@.args[j]))) ==> (
            r matches Err(e) && (e is BadKey || crate::errors::is_compressed_only_kind(e))),
            (st@.name == spec_name_multi() && st@.args.len() >= 2 && spec_dec_ok(st@.args[0])
                && (forall|j: int|
                1 <= j < st@.args.len() ==> spec_key_token_ok(#[trigger] st@.args[j])) && !(1
                <= spec_dec_val(st@.args[0]) <= st@.args.len() - 1)) ==> (r matches Err(e)
                && crate::errors::is_invalid_threshold_err(
                e,
                spec_dec_val(st@.args[0]),
                st@.args.len() - 1,
            )),
            (st@.name == spec_name_multi() && st@.args.len() >= 2 && spec_dec_ok(st@.args[0])
                && (forall|j: int|
                1 <= j < st@.args.len() ==> spec_key_token_ok(#[trigger] st@.args[j])) && 1
                <= spec_dec_val(st@.args[0]) <= st@.args.len() - 1 && st@.args.len() - 1 > 20)
                ==> (r matches Err(e) && crate::errors::is_too_many_err(e, st@.args.len() - 1)),
    {
        let pk_name = name_pk_vec();
        let multi_name = name_multi_vec();
        proof {
            assert(st@.name == st.name@);
            assert(st@.args.len() == st.args@.len());
            assert(forall|j: int| 0 <= j < st.args@.len() ==> (#[trigger] st@.args[j])
                == st.args@[j]@);
        }
        if bytes_eq(&st.name, &pk_name) && st.args.len() == 1 {
            match DescriptorKey::from_hex(&st.args[0]) {
                Ok(k) => {
                    if k.serialized_len() == 33 {
                        let r = ScriptExpr::Pk(k);
                        Ok(r)
                    } else {
                        Err(Error::ContextError(ScriptContextError::CompressedOnly(
                            crate::key::clone_bytes(&st.args[0]),
                        )))
                    }
                },
                Err(e) => Err(e),
            }
        } else if bytes_eq(&st.name, &multi_name) && st.args.len() >= 2 {
            let k = match parse_dec(&st.args[0]) {
                Some(n) => n,
                None => {
                    return Err(Error::BadNumber(crate::key::clone_bytes(&st.args[0])));
                },
            };
            let mut keys: Vec<DescriptorKey> = Vec::new();
            let mut i: usize = 1;
            while i < st.args.len()
                invariant
                    1 <= i <= st.args@.len(),
                    keys@.len() == i - 1,
                    forall|j: int| 1 <= j < i ==> spec_key_token_ok(#[trigger] st@.args[j]),
                    forall|j: int| 0 <= j < keys@.len() ==> (#[trigger] keys@[j]@)
                        == spec_hex_decode(st@.args[j + 1]) && keys@[j]@.len() == 33
                        && spec_key_wf(keys@[j]@),
                decreases st.args@.len() - i,
            {
                match DescriptorKey::from_hex(&st.args[i]) {
                    Ok(key) => {
                        if key.serialized_len() != 33 {
                            proof {
                                assert(st@.args[i as int] == st.args@[i as int]@);
                                assert(!spec_key_token_ok(st@.args[i as int]));
                            }
                            return Err(Error::ContextError(ScriptContextError::CompressedOnly(
                                crate::key::clone_bytes(&st.args[i]),
                            )));
                        }
                        keys.push(key);
                    },
                    Err(e) => {
                        proof {
                            assert(st@.args[i as int] == st.args@[i as int]@);
                            assert(!spec_key_token_ok(st@.args[i as int]));
                        }
                        return Err(e);
                    },
                }
                i = i + 1;
            }
            if k < 1 || k > keys.len() {
                return Err(Error::ContextError(ScriptContextError::InvalidThreshold(
                    k,
                    keys.len(),
                )));
            }
            if keys.len() > 20 {
                return Err(Error::ContextError(ScriptContextError::MultisigTooManyKeys(
                    keys.len(),
                )));
            }
            let r = ScriptExpr::Multi(k, keys);
            proof {
                assert(key_views(keys@) =~= st@.args.skip(1).map_values(
                |tk: Seq<u8>| spec_hex_decode(tk)));
            }
            Ok(r)
        } else {
            Err(Error::Unexpected(crate::key::clone_bytes(&st.name), st.args.len()))
        }
    }

    /// Prints the expression as a child node of the descriptor grammar.
    #[verifier::loop_isolation(false)]
    pub fn to_sub(&self) -> (r: Subtree)
        requires
            spec_expr_wf(self@),
        ensures
            r@ == spec_expr_sub(self@),
    {
        match self {
            ScriptExpr::Pk(k) => {
                let mut args: Vec<Vec<u8>> = Vec::new();
                args.push(k.to_hex());
                let r = Subtree { name: name_pk_vec(), args };
                assert(r@ =~= spec_expr_sub(self@));
                r
            },
            ScriptExpr::Multi(k, ks) => {
                let mut args: Vec<Vec<u8>> = Vec::new();
                args.push(print_dec(*k));
                let mut i: usize = 0;
                while i < ks.len()
                    invariant
                        i <= ks@.len(),
                        *k as int <= 99,
                        args@.len() == i + 1,
                        args@[0]@ == spec_dec_print(*k as int),
                        forall|j: int| 1 <= j < args@.len() ==> (#[trigger] args@[j]@)
                            == spec_hex_encode(ks@[j - 1]@),
                    decreases ks@.len() - i,
                {
                    args.push(ks[i].to_hex());
                    i = i + 1;
                }
                let r = Subtree { name: name_multi_vec(), args };
                proof {
                    let exp = spec_expr_sub(self@);
                    assert forall|j: int| 0 <= j < r@.args.len() implies r@.args[j] == exp.args[j]
                    by {
                        if j >= 1 {
                            assert(exp.args[j] == key_views(ks@).map_values(
                            |x: Seq<u8>| spec_hex_encode(x))[j - 1]);
                        }
                    }
                    assert(r@.args =~= exp.args);
                    assert(r@ =~= exp);
                }
                r
            },
        }
    }
}

/// Appends the script encoding of a small number.
pub fn push_num(out: &mut Vec<u8>, n: usize)
    requires
        1 <= n <= 20,
    ensures
        final(out)@ == old(out)@ + spec_pushnum(n as int),
{
    if n <= 16 {
        out.push((0x50 + n) as u8);
        assert(out@ =~= old(out)@ + spec_pushnum(n as int));
    } else {
        out.push(1);
        out.push(n as u8);
        assert(out@ =~= old(out)@ + spec_pushnum(n as int));
    }
}

} // verus!
