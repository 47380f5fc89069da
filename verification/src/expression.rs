use vstd::prelude::*;
use crate::errors::Error;
use crate::key::clone_bytes;

verus! {

/// Mathematical image of a child node: a token name and leaf-token arguments.
#[verifier::ext_equal]
pub struct GSub {
    pub name: Seq<u8>,
    pub args: Seq<Seq<u8>>,
}

/// Mathematical image of a parsed expression: a top-level name whose
/// arguments are child nodes. The grammar of this crate nests at most
/// twice, so the tree is modelled with that fixed depth.
#[verifier::ext_equal]
pub struct GTree {
    pub name: Seq<u8>,
    pub args: Seq<GSub>,
}

/// A child node of a parsed expression: a name, and leaf tokens as
/// arguments. A leaf is a child with no arguments.
#[derive(Debug, Clone, PartialEq, Eq)]
pub struct Subtree {
    pub name: Vec<u8>,
    pub args: Vec<Vec<u8>>,
}

/// A parsed expression: the top-level node name and its children.
#[derive(Debug, Clone, PartialEq, Eq)]
pub struct Tree {
    pub name: Vec<u8>,
    pub args: Vec<Subtree>,
}

impl View for Subtree {
    type V = GSub;

    open spec fn view(&self) -> GSub {
        GSub { name: self.name@, args: self.args@.map_values(|a: Vec<u8>| a@) }
    }
}

impl View for Tree {
    type V = GTree;

    open spec fn view(&self) -> GTree {
        GTree { name: self.name@, args: self.args@.map_values(|s: Subtree| s@) }
    }
}

/// The three characters that structure the grammar.
pub open spec fn spec_is_delim(c: u8) -> bool {
    c == 40 || c == 41 || c == 44
}

/// A usable token: nonempty, with no structural character inside.
pub open spec fn spec_token_wf(t: Seq<u8>) -> bool {
    t.len() > 0 && forall|i: int| 0 <= i < t.len() ==> !spec_is_delim(#[trigger] t[i])
}

pub open spec fn spec_sub_wf(st: GSub) -> bool {
    &&& spec_token_wf(st.name)
    &&& forall|i: int| 0 <= i < st.args.len() ==> spec_token_wf(#[trigger] st.args[i])
}

pub open spec fn spec_tree_wf(t: GTree) -> bool {
    &&& spec_token_wf(t.name)
    &&& forall|i: int| 0 <= i < t.args.len() ==> spec_sub_wf(#[trigger] t.args[i])
}

/// Comma-separated joining of parts.
pub open spec fn spec_join(parts: Seq<Seq<u8>>) -> Seq<u8>
    decreases parts.len(),
{
    if parts.len() == 0 {
        Seq::empty()
    } else if parts.len() == 1 {
        parts[0]
    } else {
        parts[0] + seq![44u8] + spec_join(parts.drop_first())
    }
}

/// Printed form of a child node: its name, and for a non-leaf the
/// parenthesized comma-separated arguments.
pub open spec fn spec_print_sub(st: GSub) -> Seq<u8> {
    if st.args.len() == 0 {
        st.name
    } else {
        st.name + seq![40u8] + spec_join(st.args) + seq![41u8]
    }
}

pub open spec fn spec_printed_subs(args: Seq<GSub>) -> Seq<Seq<u8>> {
    args.map_values(|s: GSub| spec_print_sub(s))
}

/// Printed form of an expression.
pub open spec fn spec_print_tree(t: GTree) -> Seq<u8> {
    if t.args.len() == 0 {
        t.name
    } else {
        t.name + seq![40u8] + spec_join(spec_printed_subs(t.args)) + seq![41u8]
    }
}

/// Appending one part to a joined sequence appends a comma and the part,
/// except at the front.
pub proof fn lemma_join_push(parts: Seq<Seq<u8>>, p: Seq<u8>)
    ensures
        parts.len() == 0 ==> spec_join(parts.push(p)) == p,
        parts.len() > 0 ==> spec_join(parts.push(p)) == spec_join(parts) + seq![44u8] + p,
    decreases parts.len(),
{
    if parts.len() == 0 {
        assert(spec_join(parts.push(p)) == parts.push(p)[0]);
        assert(parts.push(p)[0] == p);
    } else if parts.len() == 1 {
        let q = parts.push(p);
        assert(q.len() == 2);
        assert(q[0] == parts[0]);
        assert(q.drop_first() =~= seq![p]);
        assert(spec_join(q) == q[0] + seq![44u8] + spec_join(q.drop_first()));
        assert(spec_join(seq![p]) == p);
    } else {
        let q = parts.push(p);
        assert(q.drop_first() =~= parts.drop_first().push(p));
        lemma_join_push(parts.drop_first(), p);
        assert(spec_join(q) == q[0] + seq![44u8] + spec_join(parts.drop_first().push(p)));
        assert(q[0] == parts[0]);
        assert(parts[0] + seq![44u8] + (spec_join(parts.drop_first()) + seq![44u8] + p) =~= (
        parts[0] + seq![44u8] + spec_join(parts.drop_first())) + seq![44u8] + p);
    }
}

/// Appends `v` to `out`.
pub fn append_bytes(out: &mut Vec<u8>, v: &Vec<u8>)
    ensures
        final(out)@ == old(out)@ + v@,
{
    let mut i: usize = 0;
    while i < v.len()
        invariant
            i <= v.len(),
            out@ == old(out)@ + v@.subrange(0, i as int),
        decreases v.len() - i,
    {
        out.push(v[i]);
        i = i + 1;
        assert(out@ =~= old(out)@ + v@.subrange(0, i as int));
    }
    assert(out@ =~= old(out)@ + v@);
}

/// Printed bytes of a child node.
pub fn print_sub(st: &Subtree) -> (r: Vec<u8>)
    ensures
        r@ == spec_print_sub(st@),
{
    let mut out = clone_bytes(&st.name);
    if st.args.len() == 0 {
        return out;
    }
    out.push(40);
    let mut i: usize = 0;
    while i < st.args.len()
        invariant
            i <= st.args.len(),
            st.args.len() > 0,
            out@ == st.name@ + seq![40u8] + spec_join(st@.args.subrange(0, i as int)),
        decreases st.args.len() - i,
    {
        if i > 0 {
            out.push(44);
        }
        append_bytes(&mut out, &st.args[i]);
        proof {
            let pref = st@.args.subrange(0, i as int);
            lemma_join_push(pref, st@.args[i as int]);
            assert(pref.push(st@.args[i as int]) =~= st@.args.subrange(0, i as int + 1));
        }
        i = i + 1;
    }
    assert(st@.args.subrange(0, st.args.len() as int) =~= st@.args);
    out.push(41);
    assert(out@ =~= spec_print_sub(st@));
    out
}

/// Printed bytes of an expression: the structural inverse of parsing.
pub fn print_tree(t: &Tree) -> (r: Vec<u8>)
    ensures
        r@ == spec_print_tree(t@),
{
    let mut out = clone_bytes(&t.name);
    if t.args.len() == 0 {
        return out;
    }
    out.push(40);
    let mut i: usize = 0;
    while i < t.args.len()
        invariant
            i <= t.args.len(),
            t.args.len() > 0,
            out@ == t.name@ + seq![40u8] + spec_join(spec_printed_subs(t@.args.subrange(0, i as int))),
        decreases t.args.len() - i,
    {
        if i > 0 {
            out.push(44);
        }
        let piece = print_sub(&t.args[i]);
        append_bytes(&mut out, &piece);
        proof {
            let pref = spec_printed_subs(t@.args.subrange(0, i as int));
            lemma_join_push(pref, spec_print_sub(t@.args[i as int]));
            assert(pref.push(spec_print_sub(t@.args[i as int])) =~= spec_printed_subs(
            t@.args.subrange(0, i as int + 1)));
        }
        i = i + 1;
    }
    assert(spec_printed_subs(t@.args.subrange(0, t.args.len() as int)) =~= spec_printed_subs(
    t@.args));
    out.push(41);
    assert(out@ =~= spec_print_tree(t@));
    out
}

/// First position at or after `pos` holding a structural character, or the
/// end of the input.
pub fn scan_token(s: &Vec<u8>, pos: usize) -> (r: usize)
    requires
        pos <= s@.len(),
    ensures
        pos <= r <= s@.len(),
        forall|j: int| pos <= j < r ==> !spec_is_delim(#[trigger] s@[j]),
        r < s@.len() ==> spec_is_delim(s@[r as int]),
{
    let mut i = pos;
    while i < s.len()
        invariant
            pos <= i <= s@.len(),
            forall|j: int| pos <= j < i ==> !spec_is_delim(#[trigger] s@[j]),
        decreases s.len() - i,
    {
        let c = s[i];
        if c == 40 || c == 41 || c == 44 {
            return i;
        }
        i = i + 1;
    }
    i
}

/// Copy of `s[a..b]`.
pub fn copy_range(s: &Vec<u8>, a: usize, b: usize) -> (r: Vec<u8>)
    requires
        a <= b <= s@.len(),
    ensures
        r@ == s@.subrange(a as int, b as int),
{
    let mut out: Vec<u8> = Vec::new();
    let mut i = a;
    while i < b
        invariant
            a <= i <= b <= s@.len(),
            out@ == s@.subrange(a as int, i as int),
        decreases b - i,
    {
        out.push(s[i]);
        i = i + 1;
        assert(out@ =~= s@.subrange(a as int, i as int));
    }
    out
}


/// The suffix of `s` at `pos` reads as one printed child node followed
/// by a closing or separating character: the shape the parser meets
/// while reading a descriptor's argument list.
pub open spec fn spec_sub_at(s: Seq<u8>, pos: int, a: GSub, t: Seq<u8>) -> bool {
    &&& 0 <= pos <= s.len()
    &&& spec_sub_wf(a)
    &&& t.len() > 0
    &&& (t[0] == 41 || t[0] == 44)
    &&& s.skip(pos) == spec_print_sub(a) + t
}

/// The whole of `s` is the printed form of a well-formed expression
/// with exactly one argument: the shape every descriptor prints.
pub open spec fn spec_tree_text(s: Seq<u8>, g: GTree) -> bool {
    &&& spec_tree_wf(g)
    &&& g.args.len() == 1
    &&& s == spec_print_tree(g)
}

/// What `spec_sub_at` says of the characters of `s`.
pub proof fn lemma_sub_at_facts(s: Seq<u8>, pos: int, a: GSub, t: Seq<u8>)
    requires
        spec_sub_at(s, pos, a, t),
    ensures
        pos + a.name.len() < s.len(),
        s.len() == pos + spec_print_sub(a).len() + t.len(),
        forall|i: int| 0 <= i < a.name.len() ==> s[pos + i] == a.name[i],
        forall|i: int| pos <= i < pos + a.name.len() ==> !spec_is_delim(#[trigger] s[i]),
        a.args.len() == 0 ==> s[pos + a.name.len()] == t[0],
        a.args.len() > 0 ==> s[pos + a.name.len()] == 40,
{
    let pr = spec_print_sub(a);
    assert(s.skip(pos).len() == s.len() - pos);
    assert(forall|i: int| 0 <= i < s.len() - pos ==> #[trigger] s.skip(pos)[i] == s[pos + i]);
    assert forall|i: int| 0 <= i < a.name.len() implies s[pos + i] == a.name[i] by {
        assert(s.skip(pos)[i] == (pr + t)[i]);
        assert((pr + t)[i] == pr[i]);
        assert(pr[i] == a.name[i]);
    }
    assert forall|i: int| pos <= i < pos + a.name.len() implies !spec_is_delim(
        #[trigger] s[i]) by {
        assert(s[i] == a.name[i - pos]);
    }
    if a.args.len() == 0 {
        assert(s.skip(pos)[a.name.len() as int] == (pr + t)[a.name.len() as int]);
        assert((pr + t)[a.name.len() as int] == t[0]);
    } else {
        assert(s.skip(pos)[a.name.len() as int] == (pr + t)[a.name.len() as int]);
        assert((pr + t)[a.name.len() as int] == pr[a.name.len() as int]);
        assert(pr[a.name.len() as int] == 40);
    }
}

/// A scan that stops at the first structural character stops exactly
/// where one is known to stand after a clean stretch.
pub proof fn lemma_scan_stop(s: Seq<u8>, pos: int, e: int, stop: int)
    requires
        pos <= e <= s.len(),
        forall|j: int| pos <= j < e ==> !spec_is_delim(#[trigger] s[j]),
        e < s.len() ==> spec_is_delim(s[e]),
        pos <= stop < s.len(),
        forall|j: int| pos <= j < stop ==> !spec_is_delim(#[trigger] s[j]),
        spec_is_delim(s[stop]),
    ensures
        e == stop,
{
    if e < stop {
        assert(!spec_is_delim(s[e]));
        assert(false);
    }
    if e > stop {
        assert(!spec_is_delim(s[stop]));
        assert(false);
    }
}

/// One step of reading an argument list under `spec_sub_at`: the next
/// token is pinned, and what follows it tells whether the list goes on.
pub proof fn lemma_sub_loop_step(
    s: Seq<u8>,
    pos: int,
    a: GSub,
    t: Seq<u8>,
    p: int,
    i: int,
    e2: int,
)
    requires
        spec_sub_at(s, pos, a, t),
        0 <= i < a.args.len(),
        0 <= p <= s.len(),
        s.skip(p) == spec_join(a.args.skip(i)) + seq![41u8] + t,
        p <= e2 <= s.len(),
        forall|j: int| p <= j < e2 ==> !spec_is_delim(#[trigger] s[j]),
        e2 < s.len() ==> spec_is_delim(s[e2]),
    ensures
        e2 == p + a.args[i].len(),
        e2 < s.len(),
        s.subrange(p, e2) == a.args[i],
        i + 1 == a.args.len() ==> s[e2] == 41 && s.skip(e2 + 1) == t && e2 + 1 == pos
            + spec_print_sub(a).len(),
        i + 1 < a.args.len() ==> s[e2] == 44 && s.skip(e2 + 1) == spec_join(a.args.skip(i + 1))
            + seq![41u8] + t,
{
    let x = a.args[i];
    assert(spec_token_wf(x));
    assert(s.skip(p).len() == s.len() - p);
    assert(forall|j: int| 0 <= j < s.len() - p ==> #[trigger] s.skip(p)[j] == s[p + j]);
    assert(a.args.skip(i)[0] == a.args[i]);
    let rest: Seq<u8> = if i + 1 == a.args.len() {
        seq![41u8] + t
    } else {
        seq![44u8] + (spec_join(a.args.skip(i + 1)) + seq![41u8] + t)
    };
    if i + 1 == a.args.len() {
        assert(a.args.skip(i).len() == 1);
        assert(spec_join(a.args.skip(i)) == a.args[i]);
        assert(s.skip(p) =~= x + rest);
    } else {
        assert(a.args.skip(i).drop_first() =~= a.args.skip(i + 1));
        assert(spec_join(a.args.skip(i)) == a.args.skip(i)[0] + seq![44u8] + spec_join(
        a.args.skip(i).drop_first()));
        assert(s.skip(p) =~= x + rest);
    }
    assert forall|j: int| 0 <= j < x.len() implies s[p + j] == x[j] by {
        assert(s.skip(p)[j] == (x + rest)[j]);
        assert((x + rest)[j] == x[j]);
    }
    assert forall|j: int| p <= j < p + x.len() implies !spec_is_delim(#[trigger] s[j]) by {
        assert(s[j] == x[j - p]);
    }
    assert(s.skip(p)[x.len() as int] == (x + rest)[x.len() as int]);
    assert((x + rest)[x.len() as int] == rest[0]);
    assert(p + x.len() < s.len());
    assert(spec_is_delim(s[p + x.len()]));
    lemma_scan_stop(s, p, e2, p + x.len());
    assert(s.subrange(p, e2) =~= x);
    assert(s.skip(e2 + 1).len() == s.len() - e2 - 1);
    assert(s.len() - p == x.len() + rest.len());
    if i + 1 == a.args.len() {
        assert(s.len() - e2 - 1 == t.len());
        assert forall|j: int| 0 <= j < t.len() implies s.skip(e2 + 1)[j] == t[j] by {
            assert(s.skip(e2 + 1)[j] == s[e2 + 1 + j]);
            assert(s[e2 + 1 + j] == s.skip(p)[x.len() + 1 + j]);
            assert((x + rest)[x.len() + 1 + j] == rest[1 + j]);
            assert(rest[1 + j] == t[j]);
        }
        assert(s.skip(e2 + 1) =~= t);
        lemma_sub_at_facts(s, pos, a, t);
        assert(s.len() == pos + spec_print_sub(a).len() + t.len());
        assert(e2 + 1 == s.len() - t.len());
    } else {
        let y = spec_join(a.args.skip(i + 1)) + seq![41u8] + t;
        assert(s.len() - e2 - 1 == y.len());
        assert forall|j: int| 0 <= j < y.len() implies s.skip(e2 + 1)[j] == y[j] by {
            assert(s.skip(e2 + 1)[j] == s[e2 + 1 + j]);
            assert(s[e2 + 1 + j] == s.skip(p)[x.len() + 1 + j]);
            assert((x + rest)[x.len() + 1 + j] == rest[1 + j]);
            assert(rest[1 + j] == y[j]);
        }
        assert(s.skip(e2 + 1) =~= y);
    }
}

/// What `spec_tree_text` says of the characters of `s`.
pub proof fn lemma_tree_text_facts(s: Seq<u8>, g: GTree)
    requires
        spec_tree_text(s, g),
    ensures
        g.name.len() < s.len(),
        forall|i: int| 0 <= i < g.name.len() ==> s[i] == g.name[i],
        forall|i: int| 0 <= i < g.name.len() ==> !spec_is_delim(#[trigger] s[i]),
        s[g.name.len() as int] == 40,
        spec_sub_at(s, g.name.len() as int + 1, g.args[0], seq![41u8]),
{
    let a0 = g.args[0];
    let js = spec_printed_subs(g.args);
    assert(js.len() == 1);
    assert(js[0] == spec_print_sub(a0));
    assert(spec_join(js) == spec_print_sub(a0));
    assert(s =~= g.name + seq![40u8] + spec_print_sub(a0) + seq![41u8]);
    assert forall|i: int| 0 <= i < g.name.len() implies s[i] == g.name[i] by {
    }
    assert forall|i: int| 0 <= i < g.name.len() implies !spec_is_delim(#[trigger] s[i]) by {
        assert(s[i] == g.name[i]);
    }
    assert(s[g.name.len() as int] == 40);
    let p = g.name.len() as int + 1;
    assert(s.skip(p as int) =~= spec_print_sub(a0) + seq![41u8]);
    assert(spec_sub_wf(a0));
}

/// Reads one child node starting at `pos`. Sound: on success, the consumed
/// bytes are exactly the printed form of the returned node.
pub fn parse_sub(s: &Vec<u8>, pos: usize) -> (r: Result<(Subtree, usize), Error>)
    requires
        pos <= s@.len(),
    ensures
        r is Ok ==> ({
            let (st, p2) = r->Ok_0;
            &&& pos < p2 <= s@.len()
            &&& spec_sub_wf(st@)
            &&& s@.subrange(pos as int, p2 as int) == spec_print_sub(st@)
        }),
        forall|a: GSub, t: Seq<u8>| #[trigger] spec_sub_at(s@, pos as int, a, t) ==> (r is Ok
            && ({
            let (st, p2) = r->Ok_0;
            p2 == pos + spec_print_sub(a).len()
        })),
{
    let e = scan_token(s, pos);
    if e == pos {
        proof {
            assert forall|a: GSub, t: Seq<u8>| spec_sub_at(s@, pos as int, a, t) implies false by {
                lemma_sub_at_facts(s@, pos as int, a, t);
                assert(s@[pos as int] == a.name[0]);
                assert(!spec_is_delim(s@[pos as int]));
            }
        }
        return Err(Error::BadTree);
    }
    let name = copy_range(s, pos, e);
    if e == s.len() || s[e] == 44 || s[e] == 41 {
        let st = Subtree { name, args: Vec::new() };
        assert(st@.args =~= Seq::<Seq<u8>>::empty());
        assert(s@.subrange(pos as int, e as int) =~= spec_print_sub(st@));
        proof {
            assert forall|a: GSub, t: Seq<u8>| spec_sub_at(s@, pos as int, a, t) implies e as int
                == pos + spec_print_sub(a).len() by {
                lemma_sub_at_facts(s@, pos as int, a, t);
                lemma_scan_stop(s@, pos as int, e as int, pos + a.name.len());
                if a.args.len() > 0 {
                    assert(s@[e as int] == 40);
                    assert(false);
                }
            }
        }
        return Ok((st, e));
    }
    // the character at `e` is '('
    assert(s@[e as int] == 40);
    let mut args: Vec<Vec<u8>> = Vec::new();
    let mut p = e + 1;
    proof {
        assert forall|a: GSub, t: Seq<u8>| #[trigger] spec_sub_at(s@, pos as int, a, t) implies (
        a.args.len() > 0 && (forall|j: int| 0 <= j < args@.len() ==> args@[j]@ == a.args[j])
            && s@.skip(p as int) == spec_join(a.args.skip(args@.len() as int)) + seq![41u8]
            + t) by {
            lemma_sub_at_facts(s@, pos as int, a, t);
            lemma_scan_stop(s@, pos as int, e as int, pos + a.name.len());
            if a.args.len() == 0 {
                assert(s@[e as int] == t[0]);
                assert(false);
            }
            assert(s@.skip(pos as int).len() == s@.len() - pos);
            assert(forall|j: int| 0 <= j < s@.len() - pos ==> #[trigger] s@.skip(pos as int)[j]
                == s@[pos + j]);
            let pr = spec_print_sub(a);
            let body = spec_join(a.args) + seq![41u8] + t;
            assert(pr =~= a.name + seq![40u8] + spec_join(a.args) + seq![41u8]);
            assert(s@.len() - p == body.len());
            assert forall|j: int| 0 <= j < body.len() implies s@.skip(p as int)[j] == body[j] by {
                assert(s@.skip(p as int)[j] == s@[p + j]);
                assert(s@[p + j] == s@.skip(pos as int)[a.name.len() + 1 + j]);
                assert((pr + t)[a.name.len() + 1 + j] == body[j]) by {
                    if j < spec_join(a.args).len() {
                        assert(pr[a.name.len() + 1 + j] == spec_join(a.args)[j]);
                    } else if j == spec_join(a.args).len() {
                        assert(pr[a.name.len() + 1 + j] == 41u8);
                    } else {
                        assert((pr + t)[a.name.len() + 1 + j] == t[j - spec_join(a.args).len()
                            - 1]);
                    }
                }
            }
            assert(s@.skip(p as int) =~= body);
            assert(a.args.skip(0) =~= a.args);
        }
    }
    loop
        invariant
            pos < e < p <= s@.len(),
            name@ == s@.subrange(pos as int, e as int),
            spec_token_wf(name@),
            forall|i: int| 0 <= i < args@.len() ==> spec_token_wf(#[trigger] args@[i]@),
            args@.len() == 0 ==> s@.subrange(pos as int, p as int) == name@ + seq![40u8],
            args@.len() > 0 ==> s@.subrange(pos as int, p as int) == name@ + seq![40u8]
                + spec_join(args@.map_values(|a: Vec<u8>| a@)) + seq![44u8],
            forall|a: GSub, t: Seq<u8>| #[trigger] spec_sub_at(s@, pos as int, a, t) ==> (
            args@.len() < a.args.len() && (forall|j: int|
                0 <= j < args@.len() ==> args@[j]@ == a.args[j]) && s@.skip(p as int)
                == spec_join(a.args.skip(args@.len() as int)) + seq![41u8] + t),
        decreases s@.len() - p,
    {
        let e2 = scan_token(s, p);
        let ghost i = args@.len() as int;
        proof {
            assert forall|a: GSub, t: Seq<u8>| #[trigger] spec_sub_at(s@, pos as int, a, t)
                implies (e2 as int == p + a.args[i].len() && (e2 as int) < s@.len()
                && s@.subrange(p as int, e2 as int) == a.args[i] && (i + 1 == a.args.len() ==> (
            s@[e2 as int] == 41 && e2 + 1 == pos + spec_print_sub(a).len())) && (i + 1
                < a.args.len() ==> (s@[e2 as int] == 44 && s@.skip(e2 as int + 1) == spec_join(
                a.args.skip(i + 1),
            ) + seq![41u8] + t))) by {
                lemma_sub_loop_step(s@, pos as int, a, t, p as int, i, e2 as int);
            }
        }
        if e2 == p || e2 == s.len() {
            proof {
                assert forall|a: GSub, t: Seq<u8>| spec_sub_at(s@, pos as int, a, t)
                    implies false by {
                    assert(a.args[i].len() > 0);
                }
            }
            return Err(Error::BadTree);
        }
        let tok = copy_range(s, p, e2);
        let ghost prev = args@.map_values(|a: Vec<u8>| a@);
        args.push(tok);
        proof {
            lemma_join_push(prev, s@.subrange(p as int, e2 as int));
            assert(args@.map_values(|a: Vec<u8>| a@) =~= prev.push(s@.subrange(p as int, e2 as int)));
        }
        if s[e2] == 44 {
            assert(s@.subrange(pos as int, e2 as int + 1) =~= s@.subrange(pos as int, p as int)
                + s@.subrange(p as int, e2 as int) + seq![44u8]);
            p = e2 + 1;
        } else if s[e2] == 41 {
            let st = Subtree { name, args };
            assert(s@.subrange(pos as int, e2 as int + 1) =~= s@.subrange(pos as int, p as int)
                + s@.subrange(p as int, e2 as int) + seq![41u8]);
            assert(s@.subrange(pos as int, e2 as int + 1) =~= spec_print_sub(st@));
            return Ok((st, e2 + 1));
        } else {
            // a second '(' would nest deeper than the grammar allows
            proof {
                assert forall|a: GSub, t: Seq<u8>| spec_sub_at(s@, pos as int, a, t)
                    implies false by {
                    assert(s@[e2 as int] == 41 || s@[e2 as int] == 44);
                }
            }
            return Err(Error::BadTree);
        }
    }
}

/// Reads a whole expression. Sound: on success the input is exactly the
/// printed form of the returned tree, so whatever this function accepts
/// prints back to the same text.
pub fn parse_tree(s: &Vec<u8>) -> (r: Result<Tree, Error>)
    ensures
        r is Ok ==> spec_tree_wf(r->Ok_0@) && spec_print_tree(r->Ok_0@) == s@,
        forall|g: GTree| #[trigger] spec_tree_text(s@, g) ==> (r is Ok && r->Ok_0@ == g),
{
    let e = scan_token(s, 0);
    if e == 0 {
        proof {
            assert forall|g: GTree| spec_tree_text(s@, g) implies false by {
                lemma_tree_text_facts(s@, g);
                assert(s@[0] == g.name[0]);
                assert(!spec_is_delim(s@[0]));
            }
        }
        return Err(Error::BadTree);
    }
    let name = copy_range(s, 0, e);
    if e == s.len() {
        let t = Tree { name, args: Vec::new() };
        assert(t@.args =~= Seq::<GSub>::empty());
        assert(spec_print_tree(t@) =~= s@);
        proof {
            assert forall|g: GTree| spec_tree_text(s@, g) implies false by {
                lemma_tree_text_facts(s@, g);
                lemma_scan_stop(s@, 0, e as int, g.name.len() as int);
            }
        }
        return Ok(t);
    }
    if s[e] != 40 {
        proof {
            assert forall|g: GTree| spec_tree_text(s@, g) implies false by {
                lemma_tree_text_facts(s@, g);
                lemma_scan_stop(s@, 0, e as int, g.name.len() as int);
                assert(s@[e as int] == 40);
            }
        }
        return Err(Error::BadTree);
    }
    let mut args: Vec<Subtree> = Vec::new();
    let mut p = e + 1;
    proof {
        assert forall|g: GTree| #[trigger] spec_tree_text(s@, g) implies (e as int
            == g.name.len() && p as int == g.name.len() + 1) by {
            lemma_tree_text_facts(s@, g);
            lemma_scan_stop(s@, 0, e as int, g.name.len() as int);
        }
    }
    loop
        invariant
            0 < e < p <= s@.len(),
            name@ == s@.subrange(0, e as int),
            spec_token_wf(name@),
            forall|i: int| 0 <= i < args@.len() ==> spec_sub_wf(#[trigger] args@[i]@),
            args@.len() == 0 ==> s@.subrange(0, p as int) == name@ + seq![40u8],
            args@.len() > 0 ==> s@.subrange(0, p as int) == name@ + seq![40u8]
                + spec_join(spec_printed_subs(args@.map_values(|x: Subtree| x@))) + seq![44u8],
            forall|g: GTree| #[trigger] spec_tree_text(s@, g) ==> (args@.len() == 0 && e as int
                == g.name.len() && p as int == g.name.len() + 1),
        decreases s@.len() - p,
    {
        let parsed = parse_sub(s, p);
        proof {
            assert forall|g: GTree| #[trigger] spec_tree_text(s@, g) implies (parsed is Ok && ({
                let (st, p2) = parsed->Ok_0;
                p2 == p + spec_print_sub(g.args[0]).len()
            })) by {
                lemma_tree_text_facts(s@, g);
                assert(spec_sub_at(s@, p as int, g.args[0], seq![41u8]));
            }
        }
        let (st, p2) = match parsed {
            Ok(x) => x,
            Err(er) => {
                return Err(er);
            },
        };
        proof {
            assert forall|g: GTree| #[trigger] spec_tree_text(s@, g) implies ((p2 as int) + 1
                == s@.len() && s@[p2 as int] == 41) by {
                lemma_tree_text_facts(s@, g);
                let a0 = g.args[0];
                assert(s@.skip(p as int) == spec_print_sub(a0) + seq![41u8]);
                assert(s@.len() - p == spec_print_sub(a0).len() + 1);
                assert(s@.skip(p as int)[spec_print_sub(a0).len() as int] == (spec_print_sub(a0)
                    + seq![41u8])[spec_print_sub(a0).len() as int]);
                assert(s@[p2 as int] == 41);
            }
        }
        let ghost prev = spec_printed_subs(args@.map_values(|x: Subtree| x@));
        let ghost stview = st@;
        args.push(st);
        proof {
            lemma_join_push(prev, spec_print_sub(stview));
            assert(spec_printed_subs(args@.map_values(|x: Subtree| x@)) =~= prev.push(
            spec_print_sub(stview)));
        }
        if p2 == s.len() {
            return Err(Error::BadTree);
        }
        if s[p2] == 44 {
            assert(s@.subrange(0, p2 as int + 1) =~= s@.subrange(0, p as int) + s@.subrange(
            p as int, p2 as int) + seq![44u8]);
            p = p2 + 1;
        } else if s[p2] == 41 {
            if p2 + 1 != s.len() {
                return Err(Error::BadTree);
            }
            let t = Tree { name, args };
            assert(s@.subrange(0, p2 as int + 1) =~= s@.subrange(0, p as int) + s@.subrange(
            p as int, p2 as int) + seq![41u8]);
            assert(s@.subrange(0, p2 as int + 1) =~= spec_print_tree(t@));
            assert(s@.subrange(0, s@.len() as int) =~= s@);
            proof {
                assert forall|g: GTree| #[trigger] spec_tree_text(s@, g) implies t@ == g by {
                    lemma_tree_text_facts(s@, g);
                    assert(name@ =~= g.name);
                    let a0 = g.args[0];
                    assert(s@.skip(p as int) == spec_print_sub(a0) + seq![41u8]);
                    assert forall|j: int| 0 <= j < spec_print_sub(a0).len() implies s@.subrange(
                        p as int,
                        p2 as int,
                    )[j] == spec_print_sub(a0)[j] by {
                        assert(s@.subrange(p as int, p2 as int)[j] == s@[p + j]);
                        assert(s@[p + j] == s@.skip(p as int)[j]);
                        assert((spec_print_sub(a0) + seq![41u8])[j] == spec_print_sub(a0)[j]);
                    }
                    assert(s@.subrange(p as int, p2 as int) =~= spec_print_sub(a0));
                    assert(spec_print_sub(stview) == spec_print_sub(a0));
                    lemma_print_sub_injective(stview, a0);
                    assert(t@.args =~= g.args);
                    assert(t@ =~= g);
                }
            }
            return Ok(t);
        } else {
            proof {
                assert forall|g: GTree| spec_tree_text(s@, g) implies false by {
                    assert(s@[p2 as int] == 41);
                }
            }
            return Err(Error::BadTree);
        }
    }
}

/// A decimal digit.
pub open spec fn spec_is_digit(c: u8) -> bool {
    48 <= c && c <= 57
}

/// Value of a decimal digit string.
pub open spec fn spec_dec_val(s: Seq<u8>) -> int
    decreases s.len(),
{
    if s.len() == 0 {
        0
    } else {
        spec_dec_val(s.drop_last()) * 10 + (s.last() - 48)
    }
}

/// A token this crate reads as a number: one to six decimal digits.
pub open spec fn spec_dec_ok(s: Seq<u8>) -> bool {
    1 <= s.len() <= 6 && forall|i: int| 0 <= i < s.len() ==> spec_is_digit(#[trigger] s[i])
}

/// Canonical decimal text of a number below one hundred.
pub open spec fn spec_dec_print(n: int) -> Seq<u8> {
    if n < 10 {
        seq![(48 + n) as u8]
    } else {
        seq![(48 + n / 10) as u8, (48 + n % 10) as u8]
    }
}

/// Printing a small number and reading it back gives the number.
pub proof fn lemma_dec_round_trip(n: int)
    requires
        0 <= n <= 99,
    ensures
        spec_dec_ok(spec_dec_print(n)),
        spec_dec_val(spec_dec_print(n)) == n,
{
    let p = spec_dec_print(n);
    assert(spec_dec_val(Seq::<u8>::empty()) == 0);
    if n < 10 {
        assert((48 + n) as u8 == 48 + n);
        assert(p.drop_last() =~= Seq::<u8>::empty());
        assert(spec_is_digit(p[0]));
        assert(spec_dec_val(p) == spec_dec_val(p.drop_last()) * 10 + (p.last() - 48));
    } else {
        assert((48 + n / 10) as u8 == 48 + n / 10);
        assert((48 + n % 10) as u8 == 48 + n % 10);
        assert(spec_is_digit(p[0]));
        assert(spec_is_digit(p[1]));
        let q = p.drop_last();
        assert(q =~= seq![(48 + n / 10) as u8]);
        assert(q.drop_last() =~= Seq::<u8>::empty());
        assert(spec_dec_val(q) == spec_dec_val(q.drop_last()) * 10 + (q.last() - 48));
        assert(spec_dec_val(q) == n / 10);
        assert(spec_dec_val(p) == spec_dec_val(q) * 10 + (p.last() - 48));
        assert(n / 10 * 10 + n % 10 == n);
    }
}

/// Reads a token as a decimal number; succeeds exactly on one to six
/// decimal digits.
pub fn parse_dec(t: &Vec<u8>) -> (r: Option<usize>)
    ensures
        r is Some <==> spec_dec_ok(t@),
        r is Some ==> r->0 == spec_dec_val(t@),
{
    if t.len() == 0 || t.len() > 6 {
        return None;
    }
    let mut acc: usize = 0;
    let mut i: usize = 0;
    proof {
        assert(t@.subrange(0, 0) =~= Seq::<u8>::empty());
        assert(spec_dec_val(Seq::<u8>::empty()) == 0);
    }
    while i < t.len()
        invariant
            i <= t.len(),
            t@.len() <= 6,
            forall|j: int| 0 <= j < i ==> spec_is_digit(#[trigger] t@[j]),
            acc == spec_dec_val(t@.subrange(0, i as int)),
            acc < 1000000,
        decreases t.len() - i,
    {
        let c = t[i];
        if c < 48 || c > 57 {
            assert(!spec_is_digit(t@[i as int]));
            assert(!spec_dec_ok(t@));
            return None;
        }
        proof {
            assert(t@.subrange(0, i as int + 1).drop_last() =~= t@.subrange(0, i as int));
            assert(t@.subrange(0, i as int + 1).last() == t@[i as int]);
            lemma_dec_bound(t@.subrange(0, i as int));
            assert(spec_pow10(0) == 1);
            assert(spec_pow10(1) == 10);
            assert(spec_pow10(2) == 100);
            assert(spec_pow10(3) == 1000);
            assert(spec_pow10(4) == 10000);
            assert(spec_pow10(5) == 100000);
        }
        acc = acc * 10 + ((c - 48) as usize);
        i = i + 1;
    }
    assert(t@.subrange(0, t@.len() as int) =~= t@);
    Some(acc)
}

/// Ten to the power `n`.
pub open spec fn spec_pow10(n: nat) -> int
    decreases n,
{
    if n == 0 {
        1
    } else {
        10 * spec_pow10((n - 1) as nat)
    }
}

/// A digit string's value is nonnegative and below ten to its length.
pub proof fn lemma_dec_bound(s: Seq<u8>)
    requires
        forall|i: int| 0 <= i < s.len() ==> spec_is_digit(#[trigger] s[i]),
    ensures
        0 <= spec_dec_val(s) < spec_pow10(s.len()),
    decreases s.len(),
{
    if s.len() > 0 {
        assert(forall|i: int| 0 <= i < s.drop_last().len() ==> spec_is_digit(
            #[trigger] s.drop_last()[i]));
        lemma_dec_bound(s.drop_last());
        assert(s.last() - 48 <= 9);
    }
}

/// Printed decimal text of a number below one hundred.
pub fn print_dec(n: usize) -> (r: Vec<u8>)
    requires
        n <= 99,
    ensures
        r@ == spec_dec_print(n as int),
{
    let mut out: Vec<u8> = Vec::new();
    if n < 10 {
        out.push(48 + (n as u8));
        assert(out@ =~= spec_dec_print(n as int));
    } else {
        out.push(48 + ((n / 10) as u8));
        out.push(48 + ((n % 10) as u8));
        assert(out@ =~= spec_dec_print(n as int));
    }
    out
}

/// The canonical decimal text of a small number is a usable grammar
/// token.
pub proof fn lemma_dec_token_wf(n: int)
    requires
        0 <= n <= 99,
    ensures
        spec_token_wf(spec_dec_print(n)),
{
    let p = spec_dec_print(n);
    assert forall|i: int| 0 <= i < p.len() implies !spec_is_delim(#[trigger] p[i]) by {
        if n < 10 {
            assert(p[i] == (48 + n) as u8);
        } else if i == 0 {
            assert(p[i] == (48 + n / 10) as u8);
        } else {
            assert(p[i] == (48 + n % 10) as u8);
        }
    }
}

/// A joined nonempty list of tokens prints at least one character.
pub proof fn lemma_join_nonempty(ts: Seq<Seq<u8>>)
    requires
        ts.len() > 0,
        spec_token_wf(ts[0]),
    ensures
        spec_join(ts).len() > 0,
{
}

/// Two concatenations of a token and a tail that is empty or starts
/// with a structural character agree only componentwise: the token
/// cannot borrow characters from the tail.
pub proof fn lemma_token_prefix(x1: Seq<u8>, s1: Seq<u8>, x2: Seq<u8>, s2: Seq<u8>)
    requires
        spec_token_wf(x1),
        spec_token_wf(x2),
        s1.len() == 0 || spec_is_delim(s1[0]),
        s2.len() == 0 || spec_is_delim(s2[0]),
        x1 + s1 == x2 + s2,
    ensures
        x1 == x2,
        s1 == s2,
{
    let t = x1 + s1;
    assert(t.len() == x2.len() + s2.len());
    if x1.len() < x2.len() {
        assert(s1.len() > 0);
        assert(t[x1.len() as int] == s1[0]);
        assert((x2 + s2)[x1.len() as int] == x2[x1.len() as int]);
        assert(!spec_is_delim(x2[x1.len() as int]));
        assert(false);
    }
    if x2.len() < x1.len() {
        assert(s2.len() > 0);
        assert((x2 + s2)[x2.len() as int] == s2[0]);
        assert(t[x2.len() as int] == x1[x2.len() as int]);
        assert(!spec_is_delim(x1[x2.len() as int]));
        assert(false);
    }
    assert(x1.len() == x2.len());
    assert forall|i: int| 0 <= i < x1.len() implies x1[i] == x2[i] by {
        assert(t[i] == x1[i]);
        assert((x2 + s2)[i] == x2[i]);
    }
    assert(x1 =~= x2);
    assert forall|i: int| 0 <= i < s1.len() implies s1[i] == s2[i] by {
        assert(t[x1.len() + i] == s1[i]);
        assert((x2 + s2)[x2.len() + i] == s2[i]);
    }
    assert(s1 =~= s2);
}

/// Two token lists with the same comma-joined text are the same list.
pub proof fn lemma_join_tokens_injective(ts1: Seq<Seq<u8>>, ts2: Seq<Seq<u8>>)
    requires
        forall|i: int| 0 <= i < ts1.len() ==> spec_token_wf(#[trigger] ts1[i]),
        forall|i: int| 0 <= i < ts2.len() ==> spec_token_wf(#[trigger] ts2[i]),
        spec_join(ts1) == spec_join(ts2),
    ensures
        ts1 == ts2,
    decreases ts1.len(),
{
    if ts1.len() == 0 && ts2.len() == 0 {
        assert(ts1 =~= ts2);
    } else if ts1.len() == 0 {
        lemma_join_nonempty(ts2);
        assert(false);
    } else if ts2.len() == 0 {
        lemma_join_nonempty(ts1);
        assert(false);
    } else {
        let s1 = if ts1.len() == 1 {
            Seq::<u8>::empty()
        } else {
            seq![44u8] + spec_join(ts1.drop_first())
        };
        let s2 = if ts2.len() == 1 {
            Seq::<u8>::empty()
        } else {
            seq![44u8] + spec_join(ts2.drop_first())
        };
        assert(spec_join(ts1) =~= ts1[0] + s1);
        assert(spec_join(ts2) =~= ts2[0] + s2);
        lemma_token_prefix(ts1[0], s1, ts2[0], s2);
        if ts1.len() == 1 {
            if ts2.len() > 1 {
                assert(s2.len() > 0);
                assert(false);
            }
            assert(ts1 =~= ts2);
        } else {
            if ts2.len() == 1 {
                assert(s1.len() > 0);
                assert(false);
            }
            assert(s1.drop_first() =~= spec_join(ts1.drop_first()));
            assert(s2.drop_first() =~= spec_join(ts2.drop_first()));
            assert(forall|i: int| 0 <= i < ts1.drop_first().len() ==> spec_token_wf(
                #[trigger] ts1.drop_first()[i]));
            assert(forall|i: int| 0 <= i < ts2.drop_first().len() ==> spec_token_wf(
                #[trigger] ts2.drop_first()[i]));
            lemma_join_tokens_injective(ts1.drop_first(), ts2.drop_first());
            assert(ts1.len() == ts2.len());
            assert forall|i: int| 0 <= i < ts1.len() implies ts1[i] == ts2[i] by {
                if i > 0 {
                    assert(ts1[i] == ts1.drop_first()[i - 1]);
                    assert(ts2[i] == ts2.drop_first()[i - 1]);
                }
            }
            assert(ts1 =~= ts2);
        }
    }
}

/// Two well-formed child nodes with the same printed text are the same
/// node.
pub proof fn lemma_print_sub_injective(a: GSub, b: GSub)
    requires
        spec_sub_wf(a),
        spec_sub_wf(b),
        spec_print_sub(a) == spec_print_sub(b),
    ensures
        a == b,
{
    if a.args.len() == 0 && b.args.len() == 0 {
        assert(a =~= b);
    } else if a.args.len() == 0 {
        // a prints as a bare token, but b's print holds a parenthesis
        assert(spec_print_sub(b)[b.name.len() as int] == 40u8);
        assert(spec_print_sub(a)[b.name.len() as int] == a.name[b.name.len() as int]);
        assert(!spec_is_delim(a.name[b.name.len() as int]));
        assert(false);
    } else if b.args.len() == 0 {
        assert(spec_print_sub(a)[a.name.len() as int] == 40u8);
        assert(spec_print_sub(b)[a.name.len() as int] == b.name[a.name.len() as int]);
        assert(!spec_is_delim(b.name[a.name.len() as int]));
        assert(false);
    } else {
        let ra = seq![40u8] + spec_join(a.args) + seq![41u8];
        let rb = seq![40u8] + spec_join(b.args) + seq![41u8];
        assert(spec_print_sub(a) =~= a.name + ra);
        assert(spec_print_sub(b) =~= b.name + rb);
        lemma_token_prefix(a.name, ra, b.name, rb);
        assert(spec_join(a.args) =~= ra.subrange(1, ra.len() - 1));
        assert(spec_join(b.args) =~= rb.subrange(1, rb.len() - 1));
        lemma_join_tokens_injective(a.args, b.args);
        assert(a =~= b);
    }
}

/// Two well-formed single-argument expressions with the same printed
/// text are the same expression. The grammar of this crate gives every
/// descriptor exactly one argument, so this is the injectivity the
/// round-trip law needs.
pub proof fn lemma_print_tree_injective(a: GTree, b: GTree)
    requires
        spec_tree_wf(a),
        spec_tree_wf(b),
        a.args.len() == 1,
        b.args.len() == 1,
        spec_print_tree(a) == spec_print_tree(b),
    ensures
        a == b,
{
    let ja = spec_printed_subs(a.args);
    let jb = spec_printed_subs(b.args);
    assert(spec_join(ja) =~= spec_print_sub(a.args[0]));
    assert(spec_join(jb) =~= spec_print_sub(b.args[0]));
    let ra = seq![40u8] + spec_join(ja) + seq![41u8];
    let rb = seq![40u8] + spec_join(jb) + seq![41u8];
    assert(spec_print_tree(a) =~= a.name + ra);
    assert(spec_print_tree(b) =~= b.name + rb);
    lemma_token_prefix(a.name, ra, b.name, rb);
    assert(spec_print_sub(a.args[0]) =~= ra.subrange(1, ra.len() - 1));
    assert(spec_print_sub(b.args[0]) =~= rb.subrange(1, rb.len() - 1));
    lemma_print_sub_injective(a.args[0], b.args[0]);
    assert(a.args =~= b.args);
    assert(a =~= b);
}

} // verus!
