use vstd::prelude::*;
use vstd::set_lib::lemma_len_subset;

use crate::ast::{ImplDecl, Item, Program, TypeRef};
use crate::diagnostic::{Diagnostic, Severity};
use crate::monomorphize::types::{spec_type_name, type_ref_name};
use crate::span::Span;

verus! {

// Two impl headers overlap when one substitution of the impls' type
// parameters makes both the traits and the implementing types equal. The
// headers are compared as terms: a type parameter of an impl is a variable
// (tagged with the impl it belongs to), every other type is a node.

/// What a node of a header term is: a named type, or a function type with the
/// mutability of each of its parameters.
pub enum HeaderTag {
    Named(Seq<char>),
    Function(Seq<bool>),
}

/// A header type as a term. A function type's children are its parameters,
/// then its return type.
pub enum HeaderTerm {
    Var(int, Seq<char>),
    Node(HeaderTag, Seq<HeaderTerm>),
}

/// A type parameter of impl `.0` named `.1`.
pub type HeaderVar = (int, Seq<char>);

/// `t` with every variable that `s` maps replaced by its image.
pub open spec fn apply(s: Map<HeaderVar, HeaderTerm>, t: HeaderTerm) -> HeaderTerm
    decreases t, 0nat,
{
    match t {
        HeaderTerm::Var(i, n) => if s.dom().contains((i, n)) {
            s[(i, n)]
        } else {
            t
        },
        HeaderTerm::Node(tag, children) => HeaderTerm::Node(tag, apply_all(s, children)),
    }
}

pub open spec fn apply_all(s: Map<HeaderVar, HeaderTerm>, ts: Seq<HeaderTerm>) -> Seq<HeaderTerm>
    decreases ts, 1nat,
{
    if ts.len() == 0 {
        seq![]
    } else {
        apply_all(s, ts.drop_last()).push(apply(s, ts.last()))
    }
}

/// The variables of a term.
pub open spec fn term_vars(t: HeaderTerm) -> Set<HeaderVar>
    decreases t, 0nat,
{
    match t {
        HeaderTerm::Var(i, n) => set![(i, n)],
        HeaderTerm::Node(_, children) => vars_all(children),
    }
}

pub open spec fn vars_all(ts: Seq<HeaderTerm>) -> Set<HeaderVar>
    decreases ts, 1nat,
{
    if ts.len() == 0 {
        Set::empty()
    } else {
        vars_all(ts.drop_last()).union(term_vars(ts.last()))
    }
}

/// The number of nodes and variables in a term.
pub open spec fn term_size(t: HeaderTerm) -> nat
    decreases t, 0nat,
{
    match t {
        HeaderTerm::Var(..) => 1,
        HeaderTerm::Node(_, children) => 1 + size_all(children),
    }
}

pub open spec fn size_all(ts: Seq<HeaderTerm>) -> nat
    decreases ts, 1nat,
{
    if ts.len() == 0 {
        0
    } else {
        size_all(ts.drop_last()) + term_size(ts.last())
    }
}

/// `s` makes both sides of every equation equal.
pub open spec fn solves(s: Map<HeaderVar, HeaderTerm>, equations: Seq<(HeaderTerm, HeaderTerm)>) -> bool {
    forall|k: int| 0 <= k < equations.len() ==> apply(s, #[trigger] equations[k].0) == apply(s, equations[k].1)
}

/// Some substitution makes both sides of every equation equal.
pub open spec fn solvable(equations: Seq<(HeaderTerm, HeaderTerm)>) -> bool {
    exists|s: Map<HeaderVar, HeaderTerm>| solves(s, equations)
}

/// `s` sends each variable that `sub` maps where `sub` sends it, up to `s` itself.
pub open spec fn agrees(s: Map<HeaderVar, HeaderTerm>, sub: Map<HeaderVar, HeaderTerm>) -> bool {
    forall|v: HeaderVar|
        #![trigger sub.dom().contains(v)]
        sub.dom().contains(v) ==> apply(s, HeaderTerm::Var(v.0, v.1)) == apply(s, sub[v])
}

pub proof fn lemma_apply_all(s: Map<HeaderVar, HeaderTerm>, ts: Seq<HeaderTerm>)
    ensures
        apply_all(s, ts).len() == ts.len(),
        forall|i: int| 0 <= i < ts.len() ==> #[trigger] apply_all(s, ts)[i] == apply(s, ts[i]),
    decreases ts.len(),
{
    if ts.len() > 0 {
        lemma_apply_all(s, ts.drop_last());
    }
}

pub proof fn lemma_vars_all(ts: Seq<HeaderTerm>)
    ensures
        vars_all(ts).finite(),
        forall|v: HeaderVar| vars_all(ts).contains(v) <==> exists|i: int| 0 <= i < ts.len() && #[trigger] term_vars(ts[i]).contains(v),
    decreases ts, 1nat,
{
    if ts.len() > 0 {
        lemma_vars_all(ts.drop_last());
        lemma_term_vars_finite(ts.last());
        assert forall|v: HeaderVar| vars_all(ts).contains(v) implies exists|i: int|
            0 <= i < ts.len() && #[trigger] term_vars(ts[i]).contains(v) by {
            if vars_all(ts.drop_last()).contains(v) {
                let i = choose|i: int| 0 <= i < ts.drop_last().len() && #[trigger] term_vars(ts.drop_last()[i]).contains(v);
                assert(ts[i] == ts.drop_last()[i]);
            } else {
                assert(ts[ts.len() - 1] == ts.last());
            }
        }
        assert forall|v: HeaderVar| (exists|i: int| 0 <= i < ts.len() && #[trigger] term_vars(ts[i]).contains(v)) implies vars_all(ts).contains(v) by {
            let i = choose|i: int| 0 <= i < ts.len() && #[trigger] term_vars(ts[i]).contains(v);
            if i < ts.len() - 1 {
                assert(ts.drop_last()[i] == ts[i]);
            }
        }
    }
}

pub proof fn lemma_term_vars_finite(t: HeaderTerm)
    ensures
        term_vars(t).finite(),
    decreases t, 0nat,
{
    match t {
        HeaderTerm::Var(..) => {},
        HeaderTerm::Node(_, children) => lemma_vars_all(children),
    }
}

pub proof fn lemma_size_all(ts: Seq<HeaderTerm>)
    ensures
        forall|i: int| 0 <= i < ts.len() ==> term_size(#[trigger] ts[i]) <= size_all(ts),
    decreases ts.len(),
{
    if ts.len() > 0 {
        lemma_size_all(ts.drop_last());
        assert forall|i: int| 0 <= i < ts.len() implies term_size(#[trigger] ts[i]) <= size_all(ts) by {
            if i < ts.len() - 1 {
                assert(ts.drop_last()[i] == ts[i]);
            }
        }
    }
}

/// Two nodes become equal under `s` exactly when their tags agree and their
/// children become equal pairwise.
pub proof fn lemma_apply_node(
    s: Map<HeaderVar, HeaderTerm>,
    tag1: HeaderTag,
    c1: Seq<HeaderTerm>,
    tag2: HeaderTag,
    c2: Seq<HeaderTerm>,
)
    ensures
        apply(s, HeaderTerm::Node(tag1, c1)) == apply(s, HeaderTerm::Node(tag2, c2)) <==> (tag1 == tag2 && c1.len()
            == c2.len() && forall|i: int| 0 <= i < c1.len() ==> apply(s, #[trigger] c1[i]) == apply(s, c2[i])),
{
    lemma_apply_all(s, c1);
    lemma_apply_all(s, c2);
    if tag1 == tag2 && c1.len() == c2.len() && forall|i: int| 0 <= i < c1.len() ==> apply(s, #[trigger] c1[i]) == apply(s, c2[i]) {
        assert(apply_all(s, c1) =~= apply_all(s, c2));
    }
    if apply(s, HeaderTerm::Node(tag1, c1)) == apply(s, HeaderTerm::Node(tag2, c2)) {
        assert forall|i: int| 0 <= i < c1.len() implies apply(s, #[trigger] c1[i]) == apply(s, c2[i]) by {
            assert(apply_all(s, c1)[i] == apply_all(s, c2)[i]);
        }
    }
}

/// Where `s` agrees with `sub`, applying `sub` first changes nothing.
pub proof fn lemma_agrees_apply(s: Map<HeaderVar, HeaderTerm>, sub: Map<HeaderVar, HeaderTerm>, t: HeaderTerm)
    requires
        agrees(s, sub),
    ensures
        apply(s, apply(sub, t)) == apply(s, t),
    decreases t,
{
    match t {
        HeaderTerm::Var(i, n) => {
            if sub.dom().contains((i, n)) {
                assert(sub.dom().contains((i, n)));
            }
        },
        HeaderTerm::Node(tag, children) => {
            let inner = apply_all(sub, children);
            lemma_apply_all(sub, children);
            assert forall|k: int| 0 <= k < inner.len() implies apply(s, #[trigger] inner[k]) == apply(s, children[k]) by {
                lemma_agrees_apply(s, sub, children[k]);
            }
            lemma_apply_node(s, tag, inner, tag, children);
        },
    }
}

/// A variable that occurs inside `t` becomes no larger than `t` does.
pub proof fn lemma_occurs_size(s: Map<HeaderVar, HeaderTerm>, v: HeaderVar, t: HeaderTerm)
    requires
        term_vars(t).contains(v),
    ensures
        term_size(apply(s, HeaderTerm::Var(v.0, v.1))) <= term_size(apply(s, t)),
        t != HeaderTerm::Var(v.0, v.1) ==> term_size(apply(s, HeaderTerm::Var(v.0, v.1))) < term_size(apply(s, t)),
    decreases t,
{
    match t {
        HeaderTerm::Var(i, n) => {},
        HeaderTerm::Node(tag, children) => {
            lemma_vars_all(children);
            let k = choose|k: int| 0 <= k < children.len() && #[trigger] term_vars(children[k]).contains(v);
            lemma_occurs_size(s, v, children[k]);
            lemma_apply_all(s, children);
            lemma_size_all(apply_all(s, children));
            assert(apply_all(s, children)[k] == apply(s, children[k]));
        },
    }
}

/// No substitution makes a variable equal to a larger term holding it.
pub proof fn lemma_occurs_unsolvable(s: Map<HeaderVar, HeaderTerm>, v: HeaderVar, t: HeaderTerm)
    requires
        term_vars(t).contains(v),
        t != HeaderTerm::Var(v.0, v.1),
    ensures
        apply(s, HeaderTerm::Var(v.0, v.1)) != apply(s, t),
{
    lemma_occurs_size(s, v, t);
}

/// The substitution that sends `v` to `t` and nothing else anywhere.
pub open spec fn single(v: HeaderVar, t: HeaderTerm) -> Map<HeaderVar, HeaderTerm> {
    map![v => t]
}

/// `sub` with `v` bound to `t`: `t` put in place of `v` in every image, and
/// `v` sent to `t`.
pub open spec fn extend(sub: Map<HeaderVar, HeaderTerm>, v: HeaderVar, t: HeaderTerm) -> Map<HeaderVar, HeaderTerm> {
    Map::new(
        |k: HeaderVar| sub.dom().contains(k) || k == v,
        |k: HeaderVar| if k == v { t } else { apply(single(v, t), sub[k]) },
    )
}

/// No image of `sub` holds a variable that `sub` maps.
pub open spec fn clean(sub: Map<HeaderVar, HeaderTerm>) -> bool {
    forall|x: HeaderVar, y: HeaderVar|
        #![trigger sub.dom().contains(x), term_vars(sub[x]).contains(y)]
        sub.dom().contains(x) && sub.dom().contains(y) ==> !term_vars(sub[x]).contains(y)
}

/// `t` holds no variable that `sub` maps.
pub open spec fn free_of(t: HeaderTerm, sub: Map<HeaderVar, HeaderTerm>) -> bool {
    forall|y: HeaderVar| #![trigger term_vars(t).contains(y)] sub.dom().contains(y) ==> !term_vars(t).contains(y)
}

/// A term that holds no variable that `sub` maps is left as it is.
pub proof fn lemma_apply_free(sub: Map<HeaderVar, HeaderTerm>, t: HeaderTerm)
    requires
        free_of(t, sub),
    ensures
        apply(sub, t) == t,
    decreases t,
{
    match t {
        HeaderTerm::Var(i, n) => {
            assert(term_vars(t).contains((i, n)));
        },
        HeaderTerm::Node(tag, children) => {
            lemma_apply_all(sub, children);
            lemma_vars_all(children);
            assert forall|k: int| 0 <= k < children.len() implies apply(sub, #[trigger] children[k]) == children[k] by {
                assert forall|y: HeaderVar| #![trigger term_vars(children[k]).contains(y)] sub.dom().contains(y) implies !term_vars(children[k]).contains(y) by {
                    if term_vars(children[k]).contains(y) {
                        assert(term_vars(t).contains(y));
                    }
                }
                lemma_apply_free(sub, children[k]);
            }
            assert(apply_all(sub, children) =~= children);
        },
    }
}

/// The variables left after applying `sub`: those of `t` that `sub` does not
/// map, and those of the images of the ones it does.
pub proof fn lemma_apply_vars(sub: Map<HeaderVar, HeaderTerm>, t: HeaderTerm, u: HeaderVar)
    requires
        term_vars(apply(sub, t)).contains(u),
    ensures
        (term_vars(t).contains(u) && !sub.dom().contains(u)) || exists|w: HeaderVar|
            #![trigger sub.dom().contains(w)]
            sub.dom().contains(w) && term_vars(t).contains(w) && term_vars(sub[w]).contains(u),
    decreases t,
{
    match t {
        HeaderTerm::Var(i, n) => {
            if sub.dom().contains((i, n)) {
                assert(term_vars(t).contains((i, n)));
                assert(sub.dom().contains((i, n)));
            }
        },
        HeaderTerm::Node(tag, children) => {
            lemma_apply_all(sub, children);
            lemma_vars_all(apply_all(sub, children));
            lemma_vars_all(children);
            let k = choose|k: int| 0 <= k < apply_all(sub, children).len() && #[trigger] term_vars(apply_all(sub, children)[k]).contains(u);
            assert(apply_all(sub, children)[k] == apply(sub, children[k]));
            lemma_apply_vars(sub, children[k], u);
            assert(term_vars(children[k]).contains(u) ==> term_vars(t).contains(u));
            if !(term_vars(children[k]).contains(u) && !sub.dom().contains(u)) {
                let w = choose|w: HeaderVar|
                    #![trigger sub.dom().contains(w)]
                    sub.dom().contains(w) && term_vars(children[k]).contains(w) && term_vars(sub[w]).contains(u);
                assert(term_vars(t).contains(w));
                assert(sub.dom().contains(w));
            }
        },
    }
}

/// Agreeing with `sub` bound further at `v` is agreeing with `sub` and
/// sending `v` where `t` goes.
pub proof fn lemma_agrees_extend(s: Map<HeaderVar, HeaderTerm>, sub: Map<HeaderVar, HeaderTerm>, v: HeaderVar, t: HeaderTerm)
    requires
        !sub.dom().contains(v),
    ensures
        agrees(s, extend(sub, v, t)) <==> agrees(s, sub) && apply(s, HeaderTerm::Var(v.0, v.1)) == apply(
            s,
            t,
        ),
{
    let ext = extend(sub, v, t);
    let one = single(v, t);
    assert(ext.dom().contains(v));
    if agrees(s, ext) {
        assert(apply(s, HeaderTerm::Var(v.0, v.1)) == apply(s, t));
        assert(agrees(s, one)) by {
            assert forall|x: HeaderVar| #![trigger one.dom().contains(x)] one.dom().contains(x) implies apply(
                s,
                HeaderTerm::Var(x.0, x.1),
            ) == apply(s, one[x]) by {
                assert(x == v);
            }
        }
        assert forall|x: HeaderVar| #![trigger sub.dom().contains(x)] sub.dom().contains(x) implies apply(
            s,
            HeaderTerm::Var(x.0, x.1),
        ) == apply(s, sub[x]) by {
            assert(ext.dom().contains(x));
            assert(ext[x] == apply(one, sub[x]));
            lemma_agrees_apply(s, one, sub[x]);
        }
    }
    if agrees(s, sub) && apply(s, HeaderTerm::Var(v.0, v.1)) == apply(s, t) {
        assert(agrees(s, one)) by {
            assert forall|x: HeaderVar| #![trigger one.dom().contains(x)] one.dom().contains(x) implies apply(
                s,
                HeaderTerm::Var(x.0, x.1),
            ) == apply(s, one[x]) by {
                assert(x == v);
            }
        }
        assert forall|x: HeaderVar| #![trigger ext.dom().contains(x)] ext.dom().contains(x) implies apply(
            s,
            HeaderTerm::Var(x.0, x.1),
        ) == apply(s, ext[x]) by {
            if x != v {
                assert(sub.dom().contains(x));
                lemma_agrees_apply(s, one, sub[x]);
            }
        }
    }
}

/// Binding a variable that `t` does not hold, with `t` free of `sub`, keeps
/// the substitution clean.
pub proof fn lemma_extend_clean(sub: Map<HeaderVar, HeaderTerm>, v: HeaderVar, t: HeaderTerm)
    requires
        clean(sub),
        !sub.dom().contains(v),
        free_of(t, sub),
        !term_vars(t).contains(v),
    ensures
        clean(extend(sub, v, t)),
{
    let ext = extend(sub, v, t);
    let one = single(v, t);
    assert forall|x: HeaderVar, y: HeaderVar|
        #![trigger ext.dom().contains(x), term_vars(ext[x]).contains(y)]
        ext.dom().contains(x) && ext.dom().contains(y) implies !term_vars(ext[x]).contains(y) by {
        if x == v {
            if y != v {
                assert(sub.dom().contains(y));
            }
        } else {
            assert(sub.dom().contains(x));
            if term_vars(ext[x]).contains(y) {
                lemma_apply_vars(one, sub[x], y);
                if term_vars(sub[x]).contains(y) && !one.dom().contains(y) {
                    assert(y != v);
                    assert(sub.dom().contains(y));
                } else {
                    let w = choose|w: HeaderVar|
                        #![trigger one.dom().contains(w)]
                        one.dom().contains(w) && term_vars(sub[x]).contains(w) && term_vars(one[w]).contains(y);
                    assert(w == v);
                    if y == v {
                    } else {
                        assert(sub.dom().contains(y));
                    }
                }
            }
        }
    }
}

/// A clean substitution agrees with itself.
pub proof fn lemma_clean_agrees(sub: Map<HeaderVar, HeaderTerm>)
    requires
        clean(sub),
    ensures
        agrees(sub, sub),
{
    assert forall|x: HeaderVar| #![trigger sub.dom().contains(x)] sub.dom().contains(x) implies apply(
        sub,
        HeaderTerm::Var(x.0, x.1),
    ) == apply(sub, sub[x]) by {
        assert forall|y: HeaderVar| #![trigger term_vars(sub[x]).contains(y)] sub.dom().contains(y) implies !term_vars(sub[x]).contains(y) by {
        }
        lemma_apply_free(sub, sub[x]);
    }
}

/// What a clean substitution gives holds none of the variables it maps.
pub proof fn lemma_apply_clean(sub: Map<HeaderVar, HeaderTerm>, t: HeaderTerm)
    requires
        clean(sub),
    ensures
        free_of(apply(sub, t), sub),
{
    assert forall|y: HeaderVar| #![trigger term_vars(apply(sub, t)).contains(y)] sub.dom().contains(y) implies !term_vars(apply(sub, t)).contains(y) by {
        if term_vars(apply(sub, t)).contains(y) {
            lemma_apply_vars(sub, t, y);
            if !(term_vars(t).contains(y) && !sub.dom().contains(y)) {
                let w = choose|w: HeaderVar|
                    #![trigger sub.dom().contains(w)]
                    sub.dom().contains(w) && term_vars(t).contains(w) && term_vars(sub[w]).contains(y);
                assert(sub.dom().contains(w));
            }
        }
    }
}

/// Whether `name` is one of `params`.
pub open spec fn is_param(params: Seq<String>, name: Seq<char>) -> bool {
    exists|i: int| 0 <= i < params.len() && #[trigger] params[i]@ == name
}

/// A header type as a term, for impl `index` with type parameters `params`: a
/// bare name that is a parameter is a variable; a function type is a node
/// over its parameters and return type; any other type a node over its
/// arguments.
pub open spec fn term_of(t: TypeRef, index: int, params: Seq<String>) -> HeaderTerm
    decreases t, 0nat,
{
    if t.function is None && t.args@.len() == 0 && is_param(params, t.name@) {
        HeaderTerm::Var(index, t.name@)
    } else {
        match t.function {
            Some(f) => HeaderTerm::Node(
                HeaderTag::Function(f.params@.map_values(|p: crate::ast::FunctionTypeParam| p.mutable)),
                param_terms(f.params@, index, params).push(term_of(*f.return_type, index, params)),
            ),
            None => HeaderTerm::Node(HeaderTag::Named(t.name@), arg_terms(t.args@, index, params)),
        }
    }
}

pub open spec fn arg_terms(ts: Seq<TypeRef>, index: int, params: Seq<String>) -> Seq<HeaderTerm>
    decreases ts, 1nat,
{
    if ts.len() == 0 {
        seq![]
    } else {
        arg_terms(ts.drop_last(), index, params).push(term_of(ts.last(), index, params))
    }
}

pub open spec fn param_terms(ps: Seq<crate::ast::FunctionTypeParam>, index: int, params: Seq<String>) -> Seq<HeaderTerm>
    decreases ps, 1nat,
{
    if ps.len() == 0 {
        seq![]
    } else {
        param_terms(ps.drop_last(), index, params).push(term_of(ps.last().type_ref, index, params))
    }
}

/// What a node of an impl header type is.
#[derive(Debug)]
pub enum HeaderKind {
    Named(String),
    Function(Vec<bool>),
}

/// A header type of an impl, as it is compared: a type parameter of impl
/// `.0`, or a node (see `HeaderTerm`).
#[derive(Debug)]
pub enum ImplHeaderType {
    Variable(usize, String),
    Node(HeaderKind, Vec<ImplHeaderType>),
}

pub open spec fn kind_tag(k: HeaderKind) -> HeaderTag {
    match k {
        HeaderKind::Named(n) => HeaderTag::Named(n@),
        HeaderKind::Function(flags) => HeaderTag::Function(flags@),
    }
}

pub open spec fn header_term(t: ImplHeaderType) -> HeaderTerm
    decreases t, 0nat,
{
    match t {
        ImplHeaderType::Variable(i, n) => HeaderTerm::Var(i as int, n@),
        ImplHeaderType::Node(k, children) => HeaderTerm::Node(kind_tag(k), header_terms(children@)),
    }
}

pub open spec fn header_terms(ts: Seq<ImplHeaderType>) -> Seq<HeaderTerm>
    decreases ts, 1nat,
{
    if ts.len() == 0 {
        seq![]
    } else {
        header_terms(ts.drop_last()).push(header_term(ts.last()))
    }
}

pub proof fn lemma_header_terms(ts: Seq<ImplHeaderType>)
    ensures
        header_terms(ts).len() == ts.len(),
        forall|i: int| 0 <= i < ts.len() ==> #[trigger] header_terms(ts)[i] == header_term(ts[i]),
    decreases ts.len(),
{
    if ts.len() > 0 {
        lemma_header_terms(ts.drop_last());
    }
}

proof fn lemma_take_push<T>(s: Seq<T>, i: int)
    requires
        0 <= i < s.len(),
    ensures
        s.take(i + 1).drop_last() == s.take(i),
        s.take(i + 1).last() == s[i],
        s.take(i + 1).len() > 0,
{
    assert(s.take(i + 1).drop_last() =~= s.take(i));
}

fn copy_kind(k: &HeaderKind) -> (c: HeaderKind)
    ensures
        kind_tag(c) == kind_tag(*k),
{
    match k {
        HeaderKind::Named(n) => HeaderKind::Named(n.clone()),
        HeaderKind::Function(flags) => {
            let mut out: Vec<bool> = Vec::new();
            let mut i: usize = 0;
            while i < flags.len()
                invariant
                    i <= flags@.len(),
                    out@ == flags@.take(i as int),
                decreases flags.len() - i,
            {
                out.push(flags[i]);
                assert(flags@.take(i + 1) =~= flags@.take(i as int).push(flags@[i as int]));
                i = i + 1;
            }
            assert(flags@.take(flags@.len() as int) =~= flags@);
            HeaderKind::Function(out)
        },
    }
}

fn copy_header(t: &ImplHeaderType) -> (c: ImplHeaderType)
    ensures
        header_term(c) == header_term(*t),
    decreases t, 0nat,
{
    match t {
        ImplHeaderType::Variable(i, n) => ImplHeaderType::Variable(*i, n.clone()),
        ImplHeaderType::Node(k, children) => ImplHeaderType::Node(copy_kind(k), copy_headers(children)),
    }
}

fn copy_headers(ts: &Vec<ImplHeaderType>) -> (c: Vec<ImplHeaderType>)
    ensures
        header_terms(c@) == header_terms(ts@),
    decreases ts, 1nat,
{
    let mut out: Vec<ImplHeaderType> = Vec::new();
    let mut i: usize = 0;
    while i < ts.len()
        invariant
            i <= ts@.len(),
            header_terms(out@) == header_terms(ts@.take(i as int)),
        decreases ts.len() - i,
    {
        let ghost before = out@;
        out.push(copy_header(&ts[i]));
        proof {
            lemma_take_push(ts@, i as int);
            assert(out@.drop_last() == before);
        }
        i = i + 1;
    }
    assert(ts@.take(ts@.len() as int) =~= ts@);
    out
}

fn same_kind(a: &HeaderKind, b: &HeaderKind) -> (same: bool)
    ensures
        same == (kind_tag(*a) == kind_tag(*b)),
{
    match (a, b) {
        (HeaderKind::Named(x), HeaderKind::Named(y)) => x.eq(y),
        (HeaderKind::Function(x), HeaderKind::Function(y)) => {
            if x.len() != y.len() {
                return false;
            }
            let mut i: usize = 0;
            while i < x.len()
                invariant
                    i <= x@.len(),
                    x@.len() == y@.len(),
                    *a matches HeaderKind::Function(p) && p == *x,
                    *b matches HeaderKind::Function(q) && q == *y,
                    forall|j: int| 0 <= j < i ==> x@[j] == y@[j],
                decreases x.len() - i,
            {
                if x[i] != y[i] {
                    assert(x@[i as int] != y@[i as int]);
                    return false;
                }
                i = i + 1;
            }
            assert(x@ =~= y@);
            true
        },
        _ => false,
    }
}

fn same_header(a: &ImplHeaderType, b: &ImplHeaderType) -> (same: bool)
    ensures
        same == (header_term(*a) == header_term(*b)),
    decreases a, 0nat,
{
    match (a, b) {
        (ImplHeaderType::Variable(i, n), ImplHeaderType::Variable(j, m)) => *i == *j && n.eq(m),
        (ImplHeaderType::Node(k1, c1), ImplHeaderType::Node(k2, c2)) => {
            if !same_kind(k1, k2) || c1.len() != c2.len() {
                proof {
                    lemma_header_terms(c1@);
                    lemma_header_terms(c2@);
                }
                return false;
            }
            let mut i: usize = 0;
            while i < c1.len()
                invariant
                    i <= c1@.len(),
                    c1@.len() == c2@.len(),
                    *a matches ImplHeaderType::Node(_, x) && x == *c1,
                    *b matches ImplHeaderType::Node(_, y) && y == *c2,
                    forall|j: int| 0 <= j < i ==> header_term(#[trigger] c1@[j]) == header_term(c2@[j]),
                decreases c1.len() - i,
            {
                proof {
                    assert(decreases_to!(*a => a->Node_1));
                    assert(decreases_to!(a->Node_1 => a->Node_1@));
                    assert(decreases_to!(a->Node_1@ => a->Node_1@[i as int]));
                }
                if !same_header(&c1[i], &c2[i]) {
                    proof {
                        lemma_header_terms(c1@);
                        lemma_header_terms(c2@);
                        assert(header_terms(c1@)[i as int] != header_terms(c2@)[i as int]);
                    }
                    return false;
                }
                i = i + 1;
            }
            proof {
                lemma_header_terms(c1@);
                lemma_header_terms(c2@);
                assert(header_terms(c1@) =~= header_terms(c2@));
            }
            true
        },
        _ => false,
    }
}

/// Whether impl `index`'s variable `name` occurs in `t`.
fn holds_var(t: &ImplHeaderType, index: usize, name: &String) -> (found: bool)
    ensures
        found == term_vars(header_term(*t)).contains((index as int, name@)),
    decreases t, 0nat,
{
    match t {
        ImplHeaderType::Variable(i, n) => *i == index && n.eq(name),
        ImplHeaderType::Node(_, children) => {
            proof {
                lemma_header_terms(children@);
                lemma_vars_all(header_terms(children@));
            }
            let mut i: usize = 0;
            while i < children.len()
                invariant
                    i <= children@.len(),
                    *t matches ImplHeaderType::Node(_, x) && x == *children,
                    header_terms(children@).len() == children@.len(),
                    forall|j: int| 0 <= j < i ==> !term_vars(#[trigger] header_terms(children@)[j]).contains(
                        (index as int, name@),
                    ),
                    forall|j: int| 0 <= j < children@.len() ==> #[trigger] header_terms(children@)[j] == header_term(children@[j]),
                decreases children.len() - i,
            {
                proof {
                    assert(decreases_to!(*t => t->Node_1));
                    assert(decreases_to!(t->Node_1 => t->Node_1@));
                    assert(decreases_to!(t->Node_1@ => t->Node_1@[i as int]));
                }
                if holds_var(&children[i], index, name) {
                    proof {
                        lemma_vars_all(header_terms(children@));
                        assert(term_vars(header_terms(children@)[i as int]).contains((index as int, name@)));
                    }
                    return true;
                }
                i = i + 1;
            }
            false
        },
    }
}

/// A binding of impl `.0`'s variable `.1` to `.2`.
pub type Binding = (usize, String, ImplHeaderType);

pub open spec fn binding_var(b: Binding) -> HeaderVar {
    (b.0 as int, b.1@)
}

/// The bindings are a listing of `sub`: each binding is in `sub`, and each
/// variable that `sub` maps has a binding.
pub open spec fn represents(bindings: Seq<Binding>, sub: Map<HeaderVar, HeaderTerm>) -> bool {
    &&& forall|k: int|
        #![trigger bindings[k]]
        0 <= k < bindings.len() ==> sub.dom().contains(binding_var(bindings[k])) && sub[binding_var(bindings[k])]
            == header_term(bindings[k].2)
    &&& forall|v: HeaderVar|
        #![trigger sub.dom().contains(v)]
        sub.dom().contains(v) ==> exists|k: int| #![trigger bindings[k]] 0 <= k < bindings.len() && binding_var(bindings[k]) == v
}

/// `t` with every bound variable replaced by (a copy of) its binding.
fn apply_bindings(bindings: &Vec<Binding>, t: &ImplHeaderType, Ghost(sub): Ghost<Map<HeaderVar, HeaderTerm>>) -> (applied: ImplHeaderType)
    requires
        represents(bindings@, sub),
    ensures
        header_term(applied) == apply(sub, header_term(*t)),
    decreases t, 0nat,
{
    match t {
        ImplHeaderType::Variable(index, name) => {
            let mut k: usize = 0;
            while k < bindings.len()
                invariant
                    k <= bindings@.len(),
                    represents(bindings@, sub),
                    *t matches ImplHeaderType::Variable(x, y) && x == *index && y == *name,
                    forall|j: int| 0 <= j < k ==> binding_var(#[trigger] bindings@[j]) != (*index as int, name@),
                decreases bindings.len() - k,
            {
                if bindings[k].0 == *index && bindings[k].1.eq(name) {
                    assert(binding_var(bindings@[k as int]) == (*index as int, name@));
                    return copy_header(&bindings[k].2);
                }
                k = k + 1;
            }
            ImplHeaderType::Variable(*index, name.clone())
        },
        ImplHeaderType::Node(kind, children) => {
            let mut out: Vec<ImplHeaderType> = Vec::new();
            let mut i: usize = 0;
            while i < children.len()
                invariant
                    i <= children@.len(),
                    represents(bindings@, sub),
                    *t matches ImplHeaderType::Node(_, x) && x == *children,
                    header_terms(out@) == apply_all(sub, header_terms(children@.take(i as int))),
                decreases children.len() - i,
            {
                proof {
                    assert(decreases_to!(*t => t->Node_1));
                    assert(decreases_to!(t->Node_1 => t->Node_1@));
                    assert(decreases_to!(t->Node_1@ => t->Node_1@[i as int]));
                }
                let ghost before = out@;
                out.push(apply_bindings(bindings, &children[i], Ghost(sub)));
                proof {
                    lemma_take_push(children@, i as int);
                    assert(out@.drop_last() == before);
                    let taken = header_terms(children@.take(i + 1));
                    assert(taken.drop_last() == header_terms(children@.take(i as int)));
                    assert(taken.last() == header_term(children@[i as int]));
                }
                i = i + 1;
            }
            assert(children@.take(children@.len() as int) =~= children@);
            ImplHeaderType::Node(copy_kind(kind), out)
        },
    }
}

/// A header type as it is compared (see `term_of`).
fn impl_header_type(type_ref: &TypeRef, index: usize, type_params: &Vec<String>) -> (header: ImplHeaderType)
    ensures
        header_term(header) == term_of(*type_ref, index as int, type_params@),
    decreases type_ref,
{
    if type_ref.function.is_none() && type_ref.args.len() == 0 && crate::text::contains_string(
        type_params,
        &type_ref.name,
    ) {
        return ImplHeaderType::Variable(index, type_ref.name.clone());
    }
    match &type_ref.function {
        Some(function) => {
            let mut flags: Vec<bool> = Vec::new();
            let mut children: Vec<ImplHeaderType> = Vec::new();
            let mut i: usize = 0;
            while i < function.params.len()
                invariant
                    i <= function.params@.len(),
                    type_ref.function == Some(*function),
                    flags@ =~= function.params@.take(i as int).map_values(|p: crate::ast::FunctionTypeParam| p.mutable),
                    header_terms(children@) == param_terms(function.params@.take(i as int), index as int, type_params@),
                decreases function.params.len() - i,
            {
                proof {
                    assert(decreases_to!(*type_ref => type_ref.function));
                    assert(decreases_to!(type_ref.function => type_ref.function->0));
                    assert(decreases_to!(type_ref.function->0 => type_ref.function->0.params));
                    assert(decreases_to!(type_ref.function->0.params => type_ref.function->0.params@));
                    assert(decreases_to!(type_ref.function->0.params@ => type_ref.function->0.params@[i as int]));
                }
                flags.push(function.params[i].mutable);
                let ghost before = children@;
                children.push(impl_header_type(&function.params[i].type_ref, index, type_params));
                proof {
                    lemma_take_push(function.params@, i as int);
                    assert(children@.drop_last() == before);
                    assert(function.params@.take(i + 1).map_values(|p: crate::ast::FunctionTypeParam| p.mutable)
                        =~= function.params@.take(i as int).map_values(|p: crate::ast::FunctionTypeParam| p.mutable).push(
                        function.params@[i as int].mutable,
                    ));
                }
                i = i + 1;
            }
            proof {
                assert(decreases_to!(*type_ref => type_ref.function));
                assert(decreases_to!(type_ref.function => type_ref.function->0));
                assert(decreases_to!(type_ref.function->0 => type_ref.function->0.return_type));
            }
            let ghost before = children@;
            children.push(impl_header_type(&function.return_type, index, type_params));
            assert(children@.drop_last() == before);
            assert(function.params@.take(function.params@.len() as int) =~= function.params@);
            ImplHeaderType::Node(HeaderKind::Function(flags), children)
        },
        None => {
            let mut children: Vec<ImplHeaderType> = Vec::new();
            let mut i: usize = 0;
            while i < type_ref.args.len()
                invariant
                    i <= type_ref.args@.len(),
                    header_terms(children@) == arg_terms(type_ref.args@.take(i as int), index as int, type_params@),
                decreases type_ref.args.len() - i,
            {
                proof {
                    assert(decreases_to!(*type_ref => type_ref.args));
                    assert(decreases_to!(type_ref.args => type_ref.args@));
                    assert(decreases_to!(type_ref.args@ => type_ref.args@[i as int]));
                }
                let ghost before = children@;
                children.push(impl_header_type(&type_ref.args[i], index, type_params));
                proof {
                    lemma_take_push(type_ref.args@, i as int);
                    assert(children@.drop_last() == before);
                }
                i = i + 1;
            }
            assert(type_ref.args@.take(type_ref.args@.len() as int) =~= type_ref.args@);
            ImplHeaderType::Node(HeaderKind::Named(type_ref.name.clone()), children)
        },
    }
}

/// The equations that a list of header type pairs stands for.
pub open spec fn pair_terms(pairs: Seq<(ImplHeaderType, ImplHeaderType)>) -> Seq<(HeaderTerm, HeaderTerm)> {
    pairs.map_values(|p: (ImplHeaderType, ImplHeaderType)| (header_term(p.0), header_term(p.1)))
}

/// The equations that pair up two lists of terms, place by place.
pub open spec fn zip_terms(a: Seq<HeaderTerm>, b: Seq<HeaderTerm>) -> Seq<(HeaderTerm, HeaderTerm)> {
    Seq::new(a.len(), |k: int| (a[k], b[k]))
}

/// The variables of a list of equations.
pub open spec fn eq_vars(eqs: Seq<(HeaderTerm, HeaderTerm)>) -> Set<HeaderVar>
    decreases eqs.len(),
{
    if eqs.len() == 0 {
        Set::empty()
    } else {
        eq_vars(eqs.drop_last()).union(term_vars(eqs.last().0)).union(term_vars(eqs.last().1))
    }
}

/// How much is left to compare: the sizes of both sides of every equation, once `sub` is applied.
pub open spec fn weight(sub: Map<HeaderVar, HeaderTerm>, eqs: Seq<(HeaderTerm, HeaderTerm)>) -> nat
    decreases eqs.len(),
{
    if eqs.len() == 0 {
        0
    } else {
        weight(sub, eqs.drop_last()) + term_size(apply(sub, eqs.last().0)) + term_size(apply(sub, eqs.last().1))
    }
}

/// The substitutions that solve `problem` are those that agree with `sub`
/// and solve `eqs`.
pub open spec fn same_solutions(
    problem: Seq<(HeaderTerm, HeaderTerm)>,
    sub: Map<HeaderVar, HeaderTerm>,
    eqs: Seq<(HeaderTerm, HeaderTerm)>,
) -> bool {
    forall|s: Map<HeaderVar, HeaderTerm>|
        #![trigger solves(s, problem)]
        #![trigger agrees(s, sub)]
        solves(s, problem) <==> (agrees(s, sub) && solves(s, eqs))
}

proof fn lemma_eq_vars(eqs: Seq<(HeaderTerm, HeaderTerm)>)
    ensures
        eq_vars(eqs).finite(),
        forall|k: int|
            0 <= k < eqs.len() ==> term_vars(#[trigger] eqs[k].0).subset_of(eq_vars(eqs)) && term_vars(
                eqs[k].1,
            ).subset_of(eq_vars(eqs)),
    decreases eqs.len(),
{
    if eqs.len() > 0 {
        lemma_eq_vars(eqs.drop_last());
        lemma_term_vars_finite(eqs.last().0);
        lemma_term_vars_finite(eqs.last().1);
        assert forall|k: int| 0 <= k < eqs.len() implies term_vars(#[trigger] eqs[k].0).subset_of(eq_vars(eqs))
            && term_vars(eqs[k].1).subset_of(eq_vars(eqs)) by {
            if k < eqs.len() - 1 {
                assert(eqs.drop_last()[k] == eqs[k]);
            }
        }
    }
}

proof fn lemma_solves_push(s: Map<HeaderVar, HeaderTerm>, eqs: Seq<(HeaderTerm, HeaderTerm)>, x: (HeaderTerm, HeaderTerm))
    ensures
        solves(s, eqs.push(x)) <==> (solves(s, eqs) && apply(s, x.0) == apply(s, x.1)),
{
    if solves(s, eqs.push(x)) {
        assert(eqs.push(x)[eqs.len() as int] == x);
        assert forall|k: int| 0 <= k < eqs.len() implies apply(s, #[trigger] eqs[k].0) == apply(s, eqs[k].1) by {
            assert(eqs.push(x)[k] == eqs[k]);
        }
    }
}

proof fn lemma_solves_concat(s: Map<HeaderVar, HeaderTerm>, a: Seq<(HeaderTerm, HeaderTerm)>, b: Seq<(HeaderTerm, HeaderTerm)>)
    ensures
        solves(s, a + b) <==> (solves(s, a) && solves(s, b)),
{
    if solves(s, a + b) {
        assert forall|k: int| 0 <= k < a.len() implies apply(s, #[trigger] a[k].0) == apply(s, a[k].1) by {
            assert((a + b)[k] == a[k]);
        }
        assert forall|k: int| 0 <= k < b.len() implies apply(s, #[trigger] b[k].0) == apply(s, b[k].1) by {
            assert((a + b)[a.len() + k] == b[k]);
        }
    }
    if solves(s, a) && solves(s, b) {
        assert forall|k: int| 0 <= k < (a + b).len() implies apply(s, #[trigger] (a + b)[k].0) == apply(s, (a + b)[k].1) by {
            if k < a.len() {
                assert((a + b)[k] == a[k]);
            } else {
                assert((a + b)[k] == b[k - a.len()]);
            }
        }
    }
}

proof fn lemma_weight_concat(sub: Map<HeaderVar, HeaderTerm>, a: Seq<(HeaderTerm, HeaderTerm)>, b: Seq<(HeaderTerm, HeaderTerm)>)
    ensures
        weight(sub, a + b) == weight(sub, a) + weight(sub, b),
    decreases b.len(),
{
    if b.len() == 0 {
        assert(a + b =~= a);
    } else {
        lemma_weight_concat(sub, a, b.drop_last());
        assert((a + b).drop_last() =~= a + b.drop_last());
        assert((a + b).last() == b.last());
    }
}

/// Pairs of terms free of `sub` weigh as much as the terms themselves.
proof fn lemma_weight_zip(sub: Map<HeaderVar, HeaderTerm>, a: Seq<HeaderTerm>, b: Seq<HeaderTerm>)
    requires
        a.len() == b.len(),
        forall|k: int| 0 <= k < a.len() ==> free_of(#[trigger] a[k], sub),
        forall|k: int| 0 <= k < b.len() ==> free_of(#[trigger] b[k], sub),
    ensures
        weight(sub, zip_terms(a, b)) == size_all(a) + size_all(b),
    decreases a.len(),
{
    if a.len() > 0 {
        assert forall|k: int| 0 <= k < a.drop_last().len() implies free_of(#[trigger] a.drop_last()[k], sub) by {
            assert(a.drop_last()[k] == a[k]);
        }
        assert forall|k: int| 0 <= k < b.drop_last().len() implies free_of(#[trigger] b.drop_last()[k], sub) by {
            assert(b.drop_last()[k] == b[k]);
        }
        lemma_weight_zip(sub, a.drop_last(), b.drop_last());
        assert(zip_terms(a, b).drop_last() =~= zip_terms(a.drop_last(), b.drop_last()));
        assert(free_of(a[a.len() - 1], sub));
        assert(free_of(b[b.len() - 1], sub));
        lemma_apply_free(sub, a.last());
        lemma_apply_free(sub, b.last());
    }
}

/// The children of a term free of `sub` are free of it too, and their
/// variables are the term's.
proof fn lemma_children_free(sub: Map<HeaderVar, HeaderTerm>, tag: HeaderTag, children: Seq<HeaderTerm>)
    requires
        free_of(HeaderTerm::Node(tag, children), sub),
    ensures
        forall|k: int| 0 <= k < children.len() ==> free_of(#[trigger] children[k], sub),
        forall|k: int|
            0 <= k < children.len() ==> term_vars(#[trigger] children[k]).subset_of(
                term_vars(HeaderTerm::Node(tag, children)),
            ),
{
    lemma_vars_all(children);
    assert forall|k: int| 0 <= k < children.len() implies free_of(#[trigger] children[k], sub) by {
        assert forall|y: HeaderVar| #![trigger term_vars(children[k]).contains(y)] sub.dom().contains(y) implies !term_vars(children[k]).contains(y) by {
            if term_vars(children[k]).contains(y) {
                assert(term_vars(HeaderTerm::Node(tag, children)).contains(y));
            }
        }
    }
}

proof fn lemma_step_equal(
    problem: Seq<(HeaderTerm, HeaderTerm)>,
    sub: Map<HeaderVar, HeaderTerm>,
    rest: Seq<(HeaderTerm, HeaderTerm)>,
    x: (HeaderTerm, HeaderTerm),
)
    requires
        same_solutions(problem, sub, rest.push(x)),
        apply(sub, x.0) == apply(sub, x.1),
    ensures
        same_solutions(problem, sub, rest),
{
    assert forall|s: Map<HeaderVar, HeaderTerm>|
        #![trigger solves(s, problem)]
        #![trigger agrees(s, sub)]
        solves(s, problem) <==> (agrees(s, sub) && solves(s, rest)) by {
        lemma_solves_push(s, rest, x);
        if agrees(s, sub) {
            lemma_agrees_apply(s, sub, x.0);
            lemma_agrees_apply(s, sub, x.1);
        }
    }
}

/// A variable on one side, once `sub` is applied, binds to the other side.
proof fn lemma_step_bind(
    problem: Seq<(HeaderTerm, HeaderTerm)>,
    sub: Map<HeaderVar, HeaderTerm>,
    rest: Seq<(HeaderTerm, HeaderTerm)>,
    x: (HeaderTerm, HeaderTerm),
    v: HeaderVar,
    t: HeaderTerm,
)
    requires
        same_solutions(problem, sub, rest.push(x)),
        !sub.dom().contains(v),
        (apply(sub, x.0) == HeaderTerm::Var(v.0, v.1) && apply(sub, x.1) == t) || (apply(sub, x.1) == HeaderTerm::Var(
            v.0,
            v.1,
        ) && apply(sub, x.0) == t),
    ensures
        same_solutions(problem, extend(sub, v, t), rest),
{
    assert forall|s: Map<HeaderVar, HeaderTerm>|
        #![trigger solves(s, problem)]
        #![trigger agrees(s, extend(sub, v, t))]
        solves(s, problem) <==> (agrees(s, extend(sub, v, t)) && solves(s, rest)) by {
        lemma_solves_push(s, rest, x);
        lemma_agrees_extend(s, sub, v, t);
        if agrees(s, sub) {
            lemma_agrees_apply(s, sub, x.0);
            lemma_agrees_apply(s, sub, x.1);
        }
        assert(solves(s, problem) <==> (agrees(s, sub) && solves(s, rest.push(x))));
    }
}

proof fn lemma_step_occurs(
    problem: Seq<(HeaderTerm, HeaderTerm)>,
    sub: Map<HeaderVar, HeaderTerm>,
    rest: Seq<(HeaderTerm, HeaderTerm)>,
    x: (HeaderTerm, HeaderTerm),
    v: HeaderVar,
    t: HeaderTerm,
)
    requires
        same_solutions(problem, sub, rest.push(x)),
        (apply(sub, x.0) == HeaderTerm::Var(v.0, v.1) && apply(sub, x.1) == t) || (apply(sub, x.1) == HeaderTerm::Var(
            v.0,
            v.1,
        ) && apply(sub, x.0) == t),
        term_vars(t).contains(v),
        t != HeaderTerm::Var(v.0, v.1),
    ensures
        !solvable(problem),
{
    if solvable(problem) {
        let s = choose|s: Map<HeaderVar, HeaderTerm>| solves(s, problem);
        assert(agrees(s, sub) && solves(s, rest.push(x)));
        lemma_solves_push(s, rest, x);
        lemma_agrees_apply(s, sub, x.0);
        lemma_agrees_apply(s, sub, x.1);
        lemma_occurs_unsolvable(s, v, t);
    }
}

proof fn lemma_step_clash(
    problem: Seq<(HeaderTerm, HeaderTerm)>,
    sub: Map<HeaderVar, HeaderTerm>,
    rest: Seq<(HeaderTerm, HeaderTerm)>,
    x: (HeaderTerm, HeaderTerm),
    tag1: HeaderTag,
    c1: Seq<HeaderTerm>,
    tag2: HeaderTag,
    c2: Seq<HeaderTerm>,
)
    requires
        same_solutions(problem, sub, rest.push(x)),
        apply(sub, x.0) == HeaderTerm::Node(tag1, c1),
        apply(sub, x.1) == HeaderTerm::Node(tag2, c2),
        !(tag1 == tag2 && c1.len() == c2.len()),
    ensures
        !solvable(problem),
{
    if solvable(problem) {
        let s = choose|s: Map<HeaderVar, HeaderTerm>| solves(s, problem);
        assert(agrees(s, sub) && solves(s, rest.push(x)));
        lemma_solves_push(s, rest, x);
        lemma_agrees_apply(s, sub, x.0);
        lemma_agrees_apply(s, sub, x.1);
        lemma_apply_node(s, tag1, c1, tag2, c2);
    }
}

proof fn lemma_step_split(
    problem: Seq<(HeaderTerm, HeaderTerm)>,
    sub: Map<HeaderVar, HeaderTerm>,
    rest: Seq<(HeaderTerm, HeaderTerm)>,
    x: (HeaderTerm, HeaderTerm),
    tag: HeaderTag,
    c1: Seq<HeaderTerm>,
    c2: Seq<HeaderTerm>,
)
    requires
        same_solutions(problem, sub, rest.push(x)),
        apply(sub, x.0) == HeaderTerm::Node(tag, c1),
        apply(sub, x.1) == HeaderTerm::Node(tag, c2),
        c1.len() == c2.len(),
    ensures
        same_solutions(problem, sub, rest + zip_terms(c1, c2)),
{
    assert forall|s: Map<HeaderVar, HeaderTerm>|
        #![trigger solves(s, problem)]
        #![trigger agrees(s, sub)]
        solves(s, problem) <==> (agrees(s, sub) && solves(s, rest + zip_terms(c1, c2))) by {
        lemma_solves_push(s, rest, x);
        lemma_solves_concat(s, rest, zip_terms(c1, c2));
        lemma_apply_node(s, tag, c1, tag, c2);
        if agrees(s, sub) {
            lemma_agrees_apply(s, sub, x.0);
            lemma_agrees_apply(s, sub, x.1);
        }
        let z = zip_terms(c1, c2);
        assert(solves(s, z) <==> forall|i: int| 0 <= i < c1.len() ==> apply(s, #[trigger] c1[i]) == apply(s, c2[i])) by {
            if solves(s, z) {
                assert forall|i: int| 0 <= i < c1.len() implies apply(s, #[trigger] c1[i]) == apply(s, c2[i]) by {
                    assert(z[i] == (c1[i], c2[i]));
                    assert(apply(s, z[i].0) == apply(s, z[i].1));
                }
            }
        }
    }
}

/// A term whose variables lie in `vars` keeps them there under a
/// substitution whose images do.
proof fn lemma_apply_within(sub: Map<HeaderVar, HeaderTerm>, t: HeaderTerm, vars: Set<HeaderVar>)
    requires
        term_vars(t).subset_of(vars),
        forall|v: HeaderVar| #![trigger sub.dom().contains(v)] sub.dom().contains(v) ==> term_vars(sub[v]).subset_of(vars),
    ensures
        term_vars(apply(sub, t)).subset_of(vars),
{
    assert forall|u: HeaderVar| term_vars(apply(sub, t)).contains(u) implies vars.contains(u) by {
        lemma_apply_vars(sub, t, u);
        if !(term_vars(t).contains(u) && !sub.dom().contains(u)) {
            let w = choose|w: HeaderVar|
                #![trigger sub.dom().contains(w)]
                sub.dom().contains(w) && term_vars(t).contains(w) && term_vars(sub[w]).contains(u);
            assert(term_vars(sub[w]).subset_of(vars));
        }
    }
}

/// The bindings with `v` bound to `value` (see `extend`).
fn bind(
    bindings: &Vec<Binding>,
    index: usize,
    name: String,
    value: ImplHeaderType,
    Ghost(sub): Ghost<Map<HeaderVar, HeaderTerm>>,
) -> (bound: Vec<Binding>)
    requires
        represents(bindings@, sub),
        !sub.dom().contains((index as int, name@)),
    ensures
        represents(bound@, extend(sub, (index as int, name@), header_term(value))),
{
    let ghost v = (index as int, name@);
    let ghost t = header_term(value);
    let one: Vec<Binding> = vec![(index, name.clone(), copy_header(&value))];
    proof {
        let m = single(v, t);
        assert(binding_var(one@[0]) == v);
        assert forall|w: HeaderVar| #![trigger m.dom().contains(w)] m.dom().contains(w) implies exists|k: int|
            #![trigger one@[k]]
            0 <= k < one@.len() && binding_var(one@[k]) == w by {
            assert(w == v);
            assert(binding_var(one@[0]) == w);
        }
        assert(represents(one@, m));
    }
    let mut out: Vec<Binding> = Vec::new();
    let mut k: usize = 0;
    while k < bindings.len()
        invariant
            k <= bindings@.len(),
            out@.len() == k,
            represents(one@, single(v, t)),
            forall|j: int|
                #![trigger out@[j]]
                0 <= j < k ==> binding_var(out@[j]) == binding_var(bindings@[j]) && header_term(out@[j].2) == apply(
                    single(v, t),
                    header_term(bindings@[j].2),
                ),
        decreases bindings.len() - k,
    {
        let entry = &bindings[k];
        out.push((entry.0, entry.1.clone(), apply_bindings(&one, &entry.2, Ghost(single(v, t)))));
        k = k + 1;
    }
    let ghost old_out = out@;
    out.push((index, name, value));
    proof {
        let ext = extend(sub, v, t);
        assert forall|j: int|
            #![trigger out@[j]]
            0 <= j < out@.len() implies ext.dom().contains(binding_var(out@[j])) && ext[binding_var(out@[j])]
            == header_term(out@[j].2) by {
            if j < bindings@.len() {
                assert(out@[j] == old_out[j]);
                assert(sub.dom().contains(binding_var(bindings@[j])));
                assert(binding_var(bindings@[j]) != v);
            }
        }
        assert forall|w: HeaderVar| #![trigger ext.dom().contains(w)] ext.dom().contains(w) implies exists|j: int|
            #![trigger out@[j]]
            0 <= j < out@.len() && binding_var(out@[j]) == w by {
            if w == v {
                assert(binding_var(out@[bindings@.len() as int]) == w);
            } else {
                assert(sub.dom().contains(w));
                let j = choose|j: int| #![trigger bindings@[j]] 0 <= j < bindings@.len() && binding_var(bindings@[j]) == w;
                assert(out@[j] == old_out[j]);
                assert(binding_var(out@[j]) == w);
            }
        }
    }
    out
}

/// Pushes the pairs of children, place by place.
fn push_pairs(stack: &mut Vec<(ImplHeaderType, ImplHeaderType)>, a: &Vec<ImplHeaderType>, b: &Vec<ImplHeaderType>)
    requires
        a@.len() == b@.len(),
    ensures
        pair_terms(final(stack)@) == pair_terms(old(stack)@) + zip_terms(header_terms(a@), header_terms(b@)),
{
    proof {
        lemma_header_terms(a@);
        lemma_header_terms(b@);
    }
    let ghost z = zip_terms(header_terms(a@), header_terms(b@));
    let mut k: usize = 0;
    while k < a.len()
        invariant
            k <= a@.len(),
            a@.len() == b@.len(),
            z == zip_terms(header_terms(a@), header_terms(b@)),
            z.len() == a@.len(),
            forall|i: int| 0 <= i < a@.len() ==> #[trigger] z[i] == (header_term(a@[i]), header_term(b@[i])),
            pair_terms(stack@) == pair_terms(old(stack)@) + z.take(k as int),
        decreases a.len() - k,
    {
        let ghost before = stack@;
        stack.push((copy_header(&a[k]), copy_header(&b[k])));
        proof {
            assert(pair_terms(stack@) =~= pair_terms(before).push(z[k as int]));
            assert(z.take(k + 1) =~= z.take(k as int).push(z[k as int]));
        }
        k = k + 1;
    }
    assert(z.take(a@.len() as int) =~= z);
}

/// Whether one substitution solves all the equations that `pairs` stand for
/// (see `solvable`): the equations are taken apart until each variable is
/// bound, or until two sides can never agree.
fn headers_unify(pairs: Vec<(ImplHeaderType, ImplHeaderType)>) -> (unified: bool)
    ensures
        unified == solvable(pair_terms(pairs@)),
{
    let ghost problem = pair_terms(pairs@);
    let ghost vars = eq_vars(problem);
    proof {
        lemma_eq_vars(problem);
    }
    let mut stack = pairs;
    let mut bindings: Vec<Binding> = Vec::new();
    let ghost mut sub: Map<HeaderVar, HeaderTerm> = Map::empty();
    assert forall|s: Map<HeaderVar, HeaderTerm>|
        #![trigger solves(s, problem)]
        #![trigger agrees(s, sub)]
        solves(s, problem) <==> (agrees(s, sub) && solves(s, pair_terms(stack@))) by {}
    while stack.len() > 0
        invariant
            problem == pair_terms(pairs@),
            represents(bindings@, sub),
            clean(sub),
            vars.finite(),
            sub.dom().subset_of(vars),
            forall|v: HeaderVar|
                #![trigger sub.dom().contains(v)]
                sub.dom().contains(v) ==> term_vars(sub[v]).subset_of(vars),
            forall|k: int|
                0 <= k < pair_terms(stack@).len() ==> term_vars(#[trigger] pair_terms(stack@)[k].0).subset_of(vars)
                    && term_vars(pair_terms(stack@)[k].1).subset_of(vars),
            same_solutions(problem, sub, pair_terms(stack@)),
        decreases vars.len() - sub.dom().len(), weight(sub, pair_terms(stack@)),
    {
        proof {
            lemma_len_subset(sub.dom(), vars);
        }
        let ghost before = pair_terms(stack@);
        let (a, b) = match stack.pop() {
            Some(pair) => pair,
            None => return true,
        };
        let ghost rest = pair_terms(stack@);
        let ghost x = (header_term(a), header_term(b));
        proof {
            assert(before =~= rest.push(x));
            assert(before.drop_last() =~= rest);
            assert(before[before.len() - 1] == x);
            assert forall|k: int|
                0 <= k < rest.len() implies term_vars(#[trigger] rest[k].0).subset_of(vars) && term_vars(
                    rest[k].1,
                ).subset_of(vars) by {
                assert(rest[k] == before[k]);
            }
        }
        let left = apply_bindings(&bindings, &a, Ghost(sub));
        let right = apply_bindings(&bindings, &b, Ghost(sub));
        let ghost lt = header_term(left);
        let ghost rt = header_term(right);
        proof {
            lemma_apply_clean(sub, x.0);
            lemma_apply_clean(sub, x.1);
            lemma_apply_within(sub, x.0, vars);
            lemma_apply_within(sub, x.1, vars);
            assert(weight(sub, before) == weight(sub, rest) + term_size(lt) + term_size(rt));
        }
        if same_header(&left, &right) {
            proof {
                lemma_step_equal(problem, sub, rest, x);
            }
            continue;
        }
        let left_var: Option<(usize, String)> = match &left {
            ImplHeaderType::Variable(i, n) => Some((*i, n.clone())),
            _ => None,
        };
        let right_var: Option<(usize, String)> = match &right {
            ImplHeaderType::Variable(i, n) => Some((*i, n.clone())),
            _ => None,
        };
        if let Some((i, n)) = left_var {
            let ghost v = (i as int, n@);
            if holds_var(&right, i, &n) {
                proof {
                    assert(lt == HeaderTerm::Var(v.0, v.1));
                    assert(rt != HeaderTerm::Var(v.0, v.1));
                    lemma_step_occurs(problem, sub, rest, x, v, rt);
                    assert(!solvable(problem));
                }
                return false;
            }
            proof {
                assert(term_vars(lt).contains(v));
                lemma_step_bind(problem, sub, rest, x, v, rt);
                lemma_extend_clean(sub, v, rt);
                lemma_len_subset(sub.dom(), vars);
                assert(extend(sub, v, rt).dom() =~= sub.dom().insert(v));
                let ext = extend(sub, v, rt);
                assert forall|w: HeaderVar| #![trigger ext.dom().contains(w)] ext.dom().contains(w) implies term_vars(ext[w]).subset_of(vars) by {
                    if w != v {
                        assert(sub.dom().contains(w));
                        assert forall|v2: HeaderVar| #![trigger single(v, rt).dom().contains(v2)] single(v, rt).dom().contains(v2) implies term_vars(single(v, rt)[v2]).subset_of(vars) by {}
                        lemma_apply_within(single(v, rt), sub[w], vars);
                    }
                }
            }
            bindings = bind(&bindings, i, n, right, Ghost(sub));
            proof {
                sub = extend(sub, v, rt);
                lemma_len_subset(sub.dom(), vars);
            }
        } else if let Some((j, m)) = right_var {
            let ghost v = (j as int, m@);
            if holds_var(&left, j, &m) {
                proof {
                    lemma_step_occurs(problem, sub, rest, x, v, lt);
                }
                return false;
            }
            proof {
                assert(term_vars(rt).contains(v));
                lemma_step_bind(problem, sub, rest, x, v, lt);
                lemma_extend_clean(sub, v, lt);
                lemma_len_subset(sub.dom(), vars);
                assert(extend(sub, v, lt).dom() =~= sub.dom().insert(v));
                let ext = extend(sub, v, lt);
                assert forall|w: HeaderVar| #![trigger ext.dom().contains(w)] ext.dom().contains(w) implies term_vars(ext[w]).subset_of(vars) by {
                    if w != v {
                        assert(sub.dom().contains(w));
                        assert forall|v2: HeaderVar| #![trigger single(v, lt).dom().contains(v2)] single(v, lt).dom().contains(v2) implies term_vars(single(v, lt)[v2]).subset_of(vars) by {}
                        lemma_apply_within(single(v, lt), sub[w], vars);
                    }
                }
            }
            bindings = bind(&bindings, j, m, left, Ghost(sub));
            proof {
                sub = extend(sub, v, lt);
                lemma_len_subset(sub.dom(), vars);
            }
        } else {
            match (&left, &right) {
                (ImplHeaderType::Node(k1, c1), ImplHeaderType::Node(k2, c2)) => {
                    if !same_kind(k1, k2) || c1.len() != c2.len() {
                        proof {
                            lemma_header_terms(c1@);
                            lemma_header_terms(c2@);
                            lemma_step_clash(
                                problem,
                                sub,
                                rest,
                                x,
                                kind_tag(*k1),
                                header_terms(c1@),
                                kind_tag(*k2),
                                header_terms(c2@),
                            );
                        }
                        return false;
                    }
                    let ghost t1 = header_terms(c1@);
                    let ghost t2 = header_terms(c2@);
                    proof {
                        lemma_header_terms(c1@);
                        lemma_header_terms(c2@);
                        lemma_step_split(problem, sub, rest, x, kind_tag(*k1), t1, t2);
                        lemma_children_free(sub, kind_tag(*k1), t1);
                        lemma_children_free(sub, kind_tag(*k2), t2);
                        lemma_weight_zip(sub, t1, t2);
                        lemma_weight_concat(sub, rest, zip_terms(t1, t2));
                    }
                    push_pairs(&mut stack, c1, c2);
                    proof {
                        let z = zip_terms(t1, t2);
                        let now = pair_terms(stack@);
                        assert(now == rest + z);
                        assert forall|k: int|
                            0 <= k < now.len() implies term_vars(#[trigger] now[k].0).subset_of(vars) && term_vars(
                                now[k].1,
                            ).subset_of(vars) by {
                            if k < rest.len() {
                                assert(now[k] == rest[k]);
                            } else {
                                assert(now[k] == z[k - rest.len()]);
                            }
                        }
                    }
                },
                _ => {
                    return false;
                },
            }
        }
    }
    proof {
        lemma_clean_agrees(sub);
        assert(pair_terms(stack@) =~= Seq::<(HeaderTerm, HeaderTerm)>::empty());
        assert(solves(sub, problem));
    }
    true
}

/// The equations whose joint solvability makes two impl headers overlap:
/// the traits agree, and the implementing types agree. The left impl's type
/// parameters are variables of impl 0, the right impl's of impl 1.
pub open spec fn header_equations(left: ImplDecl, right: ImplDecl) -> Seq<(HeaderTerm, HeaderTerm)> {
    seq![
        (term_of(left.trait_ref, 0, left.type_params@), term_of(right.trait_ref, 1, right.type_params@)),
        (term_of(left.type_ref, 0, left.type_params@), term_of(right.type_ref, 1, right.type_params@)),
    ]
}

/// Two impls overlap when one substitution of their type parameters makes
/// their traits equal and their implementing types equal.
pub open spec fn headers_overlap(left: ImplDecl, right: ImplDecl) -> bool {
    solvable(header_equations(left, right))
}

/// Whether two impl headers overlap (see `headers_overlap`).
pub fn impl_headers_overlap(left: &ImplDecl, right: &ImplDecl) -> (overlap: bool)
    ensures
        overlap == headers_overlap(*left, *right),
{
    let traits = (
        impl_header_type(&left.trait_ref, 0, &left.type_params),
        impl_header_type(&right.trait_ref, 1, &right.type_params),
    );
    let types = (
        impl_header_type(&left.type_ref, 0, &left.type_params),
        impl_header_type(&right.type_ref, 1, &right.type_params),
    );
    let pairs = vec![traits, types];
    assert(pair_terms(pairs@) =~= header_equations(*left, *right));
    headers_unify(pairs)
}

/// The impls of a program, in order.
pub open spec fn program_impls(items: Seq<Item>) -> Seq<ImplDecl>
    decreases items.len(),
{
    if items.len() == 0 {
        seq![]
    } else {
        match items.last() {
            Item::Impl(d) => program_impls(items.drop_last()).push(d),
            _ => program_impls(items.drop_last()),
        }
    }
}

/// Why an impl conflicts with an earlier one.
pub open spec fn conflict_message(d: ImplDecl) -> Seq<char> {
    "conflicting implementations of trait `"@ + spec_type_name(d.trait_ref) + "` for type `"@ + spec_type_name(
        d.type_ref,
    ) + "`"@
}

/// An error at impl `d` for each earlier impl whose header overlaps its own.
pub open spec fn conflicts_with(previous: Seq<ImplDecl>, d: ImplDecl) -> Seq<(Severity, Span, Seq<char>)>
    decreases previous.len(),
{
    if previous.len() == 0 {
        seq![]
    } else {
        conflicts_with(previous.drop_last(), d) + if headers_overlap(previous.last(), d) {
            seq![(Severity::Error, d.span, conflict_message(d))]
        } else {
            seq![]
        }
    }
}

/// The conflicts among impls, impl by impl, each against the earlier ones in order.
pub open spec fn coherence_errors(impls: Seq<ImplDecl>) -> Seq<(Severity, Span, Seq<char>)>
    decreases impls.len(),
{
    if impls.len() == 0 {
        seq![]
    } else {
        coherence_errors(impls.drop_last()) + conflicts_with(impls.drop_last(), impls.last())
    }
}

pub open spec fn diagnostic_views(diagnostics: Seq<Diagnostic>) -> Seq<(Severity, Span, Seq<char>)> {
    diagnostics.map_values(|d: Diagnostic| (d.severity, d.span, d.message@))
}

fn conflict_error(d: &ImplDecl) -> (diagnostic: Diagnostic)
    ensures
        (diagnostic.severity, diagnostic.span, diagnostic.message@) == (Severity::Error, d.span, conflict_message(*d)),
{
    let mut message = String::from_str("conflicting implementations of trait `");
    message.append(type_ref_name(&d.trait_ref).as_str());
    message.append("` for type `");
    message.append(type_ref_name(&d.type_ref).as_str());
    message.append("`");
    Diagnostic::error(d.span, message)
}

/// Reports each impl whose header overlaps that of an earlier impl, once for
/// each such earlier impl (see `coherence_errors`).
pub fn validate_impl_coherence(program: &Program, diagnostics: &mut Vec<Diagnostic>)
    ensures
        diagnostic_views(final(diagnostics)@) == diagnostic_views(old(diagnostics)@) + coherence_errors(
            program_impls(program.items@),
        ),
{
    let mut impls: Vec<&ImplDecl> = Vec::new();
    let mut i: usize = 0;
    while i < program.items.len()
        invariant
            i <= program.items@.len(),
            impls@.len() == program_impls(program.items@.take(i as int)).len(),
            forall|k: int| 0 <= k < impls@.len() ==> *#[trigger] impls@[k] == program_impls(program.items@.take(i as int))[k],
        decreases program.items.len() - i,
    {
        proof {
            lemma_take_push(program.items@, i as int);
        }
        if let Item::Impl(d) = &program.items[i] {
            impls.push(d);
        }
        i = i + 1;
    }
    assert(program.items@.take(program.items@.len() as int) =~= program.items@);
    let ghost all = program_impls(program.items@);
    let ghost start = diagnostic_views(diagnostics@);
    let mut j: usize = 0;
    while j < impls.len()
        invariant
            j <= impls@.len(),
            impls@.len() == all.len(),
            forall|k: int| 0 <= k < impls@.len() ==> *#[trigger] impls@[k] == all[k],
            diagnostic_views(diagnostics@) == start + coherence_errors(all.take(j as int)),
        decreases impls.len() - j,
    {
        proof {
            lemma_take_push(all, j as int);
        }
        let ghost base = diagnostic_views(diagnostics@);
        let mut k: usize = 0;
        while k < j
            invariant
                k <= j < impls@.len(),
                impls@.len() == all.len(),
                forall|m: int| 0 <= m < impls@.len() ==> *#[trigger] impls@[m] == all[m],
                diagnostic_views(diagnostics@) == base + conflicts_with(all.take(k as int), all[j as int]),
            decreases j - k,
        {
            proof {
                lemma_take_push(all, k as int);
            }
            let ghost now = diagnostics@;
            if impl_headers_overlap(impls[k], impls[j]) {
                diagnostics.push(conflict_error(impls[j]));
                assert(diagnostic_views(diagnostics@) =~= diagnostic_views(now).push(
                    (Severity::Error, all[j as int].span, conflict_message(all[j as int])),
                ));
            }
            proof {
                assert(all.take(k + 1).drop_last() == all.take(k as int));
                assert(all.take(k + 1).last() == all[k as int]);
            }
            k = k + 1;
        }
        proof {
            assert(all.take(j + 1).drop_last() == all.take(j as int));
            assert(all.take(j + 1).last() == all[j as int]);
            assert(all.take(j as int) =~= all.take(j + 1).drop_last());
        }
        j = j + 1;
    }
    assert(all.take(all.len() as int) =~= all);
}

/// `t` with the variables of impl 0 and impl 1 traded.
pub open spec fn swap_impls(t: HeaderTerm) -> HeaderTerm
    decreases t, 0nat,
{
    match t {
        HeaderTerm::Var(i, n) => HeaderTerm::Var(1 - i, n),
        HeaderTerm::Node(tag, children) => HeaderTerm::Node(tag, swap_all(children)),
    }
}

pub open spec fn swap_all(ts: Seq<HeaderTerm>) -> Seq<HeaderTerm>
    decreases ts, 1nat,
{
    if ts.len() == 0 {
        seq![]
    } else {
        swap_all(ts.drop_last()).push(swap_impls(ts.last()))
    }
}

/// `s` with the variables of impl 0 and impl 1 traded.
pub open spec fn swap_sub(s: Map<HeaderVar, HeaderTerm>) -> Map<HeaderVar, HeaderTerm> {
    Map::new(|k: HeaderVar| s.dom().contains((1 - k.0, k.1)), |k: HeaderVar| swap_impls(s[(1 - k.0, k.1)]))
}

proof fn lemma_swap_all(ts: Seq<HeaderTerm>)
    ensures
        swap_all(ts).len() == ts.len(),
        forall|i: int| 0 <= i < ts.len() ==> #[trigger] swap_all(ts)[i] == swap_impls(ts[i]),
    decreases ts.len(),
{
    if ts.len() > 0 {
        lemma_swap_all(ts.drop_last());
    }
}

proof fn lemma_apply_swapped(s: Map<HeaderVar, HeaderTerm>, t: HeaderTerm)
    ensures
        apply(swap_sub(s), swap_impls(t)) == swap_impls(apply(s, t)),
    decreases t,
{
    match t {
        HeaderTerm::Var(i, n) => {
            let k = (1 - i, n);
            assert((1 - k.0, k.1) == (i, n));
            assert(swap_sub(s).dom().contains(k) == s.dom().contains((i, n)));
            if s.dom().contains((i, n)) {
                assert(swap_sub(s)[k] == swap_impls(s[(i, n)]));
            }
        },
        HeaderTerm::Node(tag, children) => {
            lemma_swap_all(children);
            lemma_apply_all(swap_sub(s), swap_all(children));
            lemma_apply_all(s, children);
            lemma_swap_all(apply_all(s, children));
            assert forall|k: int| 0 <= k < children.len() implies #[trigger] apply_all(swap_sub(s), swap_all(children))[k]
                == swap_all(apply_all(s, children))[k] by {
                lemma_apply_swapped(s, children[k]);
            }
            assert(apply_all(swap_sub(s), swap_all(children)) =~= swap_all(apply_all(s, children)));
        },
    }
}

proof fn lemma_term_of_swapped(t: TypeRef, index: int, params: Seq<String>)
    ensures
        term_of(t, 1 - index, params) == swap_impls(term_of(t, index, params)),
    decreases t, 0nat,
{
    if t.function is None && t.args@.len() == 0 && is_param(params, t.name@) {
    } else {
        match t.function {
            Some(f) => {
                lemma_param_terms_swapped(f.params@, index, params);
                lemma_term_of_swapped(*f.return_type, index, params);
                let ps = param_terms(f.params@, index, params).push(term_of(*f.return_type, index, params));
                assert(swap_all(ps).drop_last() =~= swap_all(ps.drop_last()));
                assert(ps.drop_last() =~= param_terms(f.params@, index, params));
            },
            None => {
                lemma_arg_terms_swapped(t.args@, index, params);
            },
        }
    }
}

proof fn lemma_arg_terms_swapped(ts: Seq<TypeRef>, index: int, params: Seq<String>)
    ensures
        arg_terms(ts, 1 - index, params) == swap_all(arg_terms(ts, index, params)),
    decreases ts, 1nat,
{
    if ts.len() > 0 {
        lemma_arg_terms_swapped(ts.drop_last(), index, params);
        lemma_term_of_swapped(ts.last(), index, params);
        let a = arg_terms(ts, index, params);
        assert(a.drop_last() =~= arg_terms(ts.drop_last(), index, params));
    }
}

proof fn lemma_param_terms_swapped(ps: Seq<crate::ast::FunctionTypeParam>, index: int, params: Seq<String>)
    ensures
        param_terms(ps, 1 - index, params) == swap_all(param_terms(ps, index, params)),
    decreases ps, 1nat,
{
    if ps.len() > 0 {
        lemma_param_terms_swapped(ps.drop_last(), index, params);
        lemma_term_of_swapped(ps.last().type_ref, index, params);
        let a = param_terms(ps, index, params);
        assert(a.drop_last() =~= param_terms(ps.drop_last(), index, params));
    }
}

/// Whether two impls overlap does not depend on which of them comes first.
pub proof fn law_overlap_symmetric(left: ImplDecl, right: ImplDecl)
    ensures
        headers_overlap(left, right) == headers_overlap(right, left),
{
    lemma_overlap_one_way(left, right);
    lemma_overlap_one_way(right, left);
}

proof fn lemma_overlap_one_way(left: ImplDecl, right: ImplDecl)
    ensures
        headers_overlap(left, right) ==> headers_overlap(right, left),
{
    if headers_overlap(left, right) {
        let eqs = header_equations(left, right);
        let s = choose|s: Map<HeaderVar, HeaderTerm>| solves(s, eqs);
        let flipped = header_equations(right, left);
        lemma_term_of_swapped(left.trait_ref, 0, left.type_params@);
        lemma_term_of_swapped(left.type_ref, 0, left.type_params@);
        lemma_term_of_swapped(right.trait_ref, 1, right.type_params@);
        lemma_term_of_swapped(right.type_ref, 1, right.type_params@);
        lemma_apply_swapped(s, term_of(left.trait_ref, 0, left.type_params@));
        lemma_apply_swapped(s, term_of(left.type_ref, 0, left.type_params@));
        lemma_apply_swapped(s, term_of(right.trait_ref, 1, right.type_params@));
        lemma_apply_swapped(s, term_of(right.type_ref, 1, right.type_params@));
        assert(apply(s, eqs[0].0) == apply(s, eqs[0].1));
        assert(apply(s, eqs[1].0) == apply(s, eqs[1].1));
        assert(apply(swap_sub(s), flipped[0].0) == apply(swap_sub(s), flipped[0].1));
        assert(apply(swap_sub(s), flipped[1].0) == apply(swap_sub(s), flipped[1].1));
        assert(solves(swap_sub(s), flipped));
    }
}

/// Every variable of `t` belongs to impl `index`.
pub open spec fn vars_of_impl(t: HeaderTerm, index: int) -> bool {
    forall|v: HeaderVar| #![trigger term_vars(t).contains(v)] term_vars(t).contains(v) ==> v.0 == index
}

pub open spec fn seq_vars_of_impl(ts: Seq<HeaderTerm>, index: int) -> bool {
    forall|v: HeaderVar| #![trigger vars_all(ts).contains(v)] vars_all(ts).contains(v) ==> v.0 == index
}

proof fn lemma_vars_push(ts: Seq<HeaderTerm>, t: HeaderTerm, index: int)
    requires
        seq_vars_of_impl(ts, index),
        vars_of_impl(t, index),
    ensures
        seq_vars_of_impl(ts.push(t), index),
{
    assert(ts.push(t).drop_last() =~= ts);
    assert(ts.push(t).last() == t);
    assert(vars_all(ts.push(t)) == vars_all(ts).union(term_vars(t)));
    assert forall|v: HeaderVar| #![trigger vars_all(ts.push(t)).contains(v)] vars_all(ts.push(t)).contains(v) implies v.0
        == index by {
        if vars_all(ts).contains(v) {
        } else {
            assert(term_vars(t).contains(v));
        }
    }
}

proof fn lemma_term_of_vars(t: TypeRef, index: int, params: Seq<String>)
    ensures
        vars_of_impl(term_of(t, index, params), index),
    decreases t, 0nat,
{
    let r = term_of(t, index, params);
    if t.function is None && t.args@.len() == 0 && is_param(params, t.name@) {
        assert forall|v: HeaderVar| #![trigger term_vars(r).contains(v)] term_vars(r).contains(v) implies v.0 == index by {
            assert(term_vars(r) == set![(index, t.name@)]);
        }
    } else {
        let children = match t.function {
            Some(f) => {
                lemma_param_terms_vars(f.params@, index, params);
                lemma_term_of_vars(*f.return_type, index, params);
                lemma_vars_push(param_terms(f.params@, index, params), term_of(*f.return_type, index, params), index);
                param_terms(f.params@, index, params).push(term_of(*f.return_type, index, params))
            },
            None => {
                lemma_arg_terms_vars(t.args@, index, params);
                arg_terms(t.args@, index, params)
            },
        };
        assert(term_vars(r) == vars_all(children));
        assert forall|v: HeaderVar| #![trigger term_vars(r).contains(v)] term_vars(r).contains(v) implies v.0 == index by {
            assert(vars_all(children).contains(v));
        }
    }
}

proof fn lemma_arg_terms_vars(ts: Seq<TypeRef>, index: int, params: Seq<String>)
    ensures
        seq_vars_of_impl(arg_terms(ts, index, params), index),
    decreases ts, 1nat,
{
    if ts.len() > 0 {
        lemma_arg_terms_vars(ts.drop_last(), index, params);
        lemma_term_of_vars(ts.last(), index, params);
        lemma_vars_push(arg_terms(ts.drop_last(), index, params), term_of(ts.last(), index, params), index);
    }
}

proof fn lemma_param_terms_vars(ps: Seq<crate::ast::FunctionTypeParam>, index: int, params: Seq<String>)
    ensures
        seq_vars_of_impl(param_terms(ps, index, params), index),
    decreases ps, 1nat,
{
    if ps.len() > 0 {
        lemma_param_terms_vars(ps.drop_last(), index, params);
        lemma_term_of_vars(ps.last().type_ref, index, params);
        lemma_vars_push(param_terms(ps.drop_last(), index, params), term_of(ps.last().type_ref, index, params), index);
    }
}

/// The substitution that sends each variable of impl 0 to the variable of
/// impl 1 with the same name.
pub open spec fn rename_to_second() -> Map<HeaderVar, HeaderTerm> {
    Map::new(|k: HeaderVar| k.0 == 0, |k: HeaderVar| HeaderTerm::Var(1, k.1))
}

proof fn lemma_rename_first(t: HeaderTerm)
    requires
        vars_of_impl(t, 0),
    ensures
        apply(rename_to_second(), t) == swap_impls(t),
    decreases t,
{
    match t {
        HeaderTerm::Var(i, n) => {
            assert(term_vars(t).contains((i, n)));
        },
        HeaderTerm::Node(tag, children) => {
            lemma_vars_all(children);
            lemma_apply_all(rename_to_second(), children);
            lemma_swap_all(children);
            assert forall|k: int| 0 <= k < children.len() implies #[trigger] apply_all(rename_to_second(), children)[k]
                == swap_all(children)[k] by {
                assert forall|v: HeaderVar| #![trigger term_vars(children[k]).contains(v)] term_vars(children[k]).contains(v) implies v.0 == 0 by {
                    assert(term_vars(t).contains(v));
                }
                lemma_rename_first(children[k]);
            }
            assert(apply_all(rename_to_second(), children) =~= swap_all(children));
        },
    }
}

proof fn lemma_rename_second(t: HeaderTerm)
    requires
        vars_of_impl(t, 1),
    ensures
        apply(rename_to_second(), t) == t,
{
    assert forall|y: HeaderVar| #![trigger term_vars(t).contains(y)] rename_to_second().dom().contains(y) implies !term_vars(t).contains(y) by {}
    lemma_apply_free(rename_to_second(), t);
}

/// Every impl overlaps an impl with the same header: naming each type
/// parameter of the one after the same parameter of the other solves both
/// equations.
pub proof fn law_overlap_reflexive(d: ImplDecl)
    ensures
        headers_overlap(d, d),
{
    let s = rename_to_second();
    let p = d.type_params@;
    lemma_term_of_swapped(d.trait_ref, 0, p);
    lemma_term_of_swapped(d.type_ref, 0, p);
    lemma_term_of_vars(d.trait_ref, 0, p);
    lemma_term_of_vars(d.type_ref, 0, p);
    lemma_term_of_vars(d.trait_ref, 1, p);
    lemma_term_of_vars(d.type_ref, 1, p);
    lemma_rename_first(term_of(d.trait_ref, 0, p));
    lemma_rename_first(term_of(d.type_ref, 0, p));
    lemma_rename_second(term_of(d.trait_ref, 1, p));
    lemma_rename_second(term_of(d.type_ref, 1, p));
    let eqs = header_equations(d, d);
    assert(apply(s, eqs[0].0) == apply(s, eqs[0].1));
    assert(apply(s, eqs[1].0) == apply(s, eqs[1].1));
    assert(solves(s, eqs));
}

} // verus!
