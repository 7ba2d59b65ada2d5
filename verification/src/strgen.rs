//! The generator: lazily enumerates every string a `Spec` denotes, one
//! per combination of each variant's chosen alternative and the single
//! resolved branch of each match, in source order. Iteration is
//! row-major: a node's own choice is the slow index and its
//! continuation the fast one, so every local choice is paired with the
//! continuation's entire sequence before the local choice advances.
//!
//! A partially built result is a `PairTree`: a binary tree whose leaves
//! are string slices borrowed from the AST. Shared prefixes are
//! referenced through `Rc`, never copied; the single flatten pass per
//! produced item is the only step that costs the output's length.

use std::rc::Rc;

use vstd::prelude::*;

use crate::ast::{
    ExprV, MatchExpr, Spec, SpecType, SpecTypeV, SpecV, VariantExpr, expr_holds, resolve_cases,
    spec_count, variant_count, view_of_cases, view_of_spec, view_of_specs,
};

verus! {

// ------------------------------------------------------------------
// The generation model: which strings a spec denotes, in order.
// ------------------------------------------------------------------

/// Every string of `ss` with `p` prepended.
pub open spec fn prefixed(p: Seq<char>, ss: Seq<Seq<char>>) -> Seq<Seq<char>> {
    ss.map(|i: int, s: Seq<char>| p + s)
}

/// Every string of `ss` with the optional prefix prepended.
pub open spec fn prefixed_opt(p: Option<Seq<char>>, ss: Seq<Seq<char>>) -> Seq<Seq<char>> {
    match p {
        Some(x) => prefixed(x, ss),
        None => ss,
    }
}

/// The row-major cross concatenation: every string of `a` followed by
/// every string of `b`, the left index varying slowest.
pub open spec fn cross(a: Seq<Seq<char>>, b: Seq<Seq<char>>) -> Seq<Seq<char>>
    decreases a.len(),
{
    if a.len() == 0 {
        Seq::empty()
    } else {
        prefixed(a[0], b) + cross(a.drop_first(), b)
    }
}

/// The strings a spec denotes under the environment `(os, host)`:
/// a bare literal denotes itself; a variant node concatenates its
/// alternatives' strings and pairs each with the continuation's entire
/// sequence; a match node contributes only its first live branch, or
/// nothing when no predicate is satisfied.
pub open spec fn strings_of_spec(s: SpecV, os: Seq<char>, host: Seq<char>) -> Seq<Seq<char>>
    decreases s,
{
    match s.spectype {
        SpecTypeV::Leaf => match s.string {
            Some(x) => seq![x],
            None => Seq::empty(),
        },
        SpecTypeV::Variant(e, cont) => {
            let ev = strings_of_alts(e.specs, os, host);
            let wc = match cont {
                Some(c) => cross(ev, strings_of_spec(*c, os, host)),
                None => ev,
            };
            prefixed_opt(s.string, wc)
        }
        SpecTypeV::Match(m, cont) => {
            let mv = strings_of_cases(m.cases, os, host);
            let wc = match cont {
                Some(c) => cross(mv, strings_of_spec(*c, os, host)),
                None => mv,
            };
            prefixed_opt(s.string, wc)
        }
    }
}

/// The concatenation of the alternatives' strings, in order.
pub open spec fn strings_of_alts(specs: Seq<SpecV>, os: Seq<char>, host: Seq<char>) -> Seq<
    Seq<char>,
>
    decreases specs,
{
    if specs.len() == 0 {
        Seq::empty()
    } else {
        strings_of_spec(specs[0], os, host) + strings_of_alts(specs.drop_first(), os, host)
    }
}

/// The strings of the first case whose predicate holds, or none.
pub open spec fn strings_of_cases(cases: Seq<(ExprV, SpecV)>, os: Seq<char>, host: Seq<char>) -> Seq<
    Seq<char>,
>
    decreases cases,
{
    if cases.len() == 0 {
        Seq::empty()
    } else if expr_holds(cases[0].0, os, host) {
        strings_of_spec(cases[0].1, os, host)
    } else {
        strings_of_cases(cases.drop_first(), os, host)
    }
}

/// The strings of a match are exactly those of its resolved branch.
pub proof fn lemma_strings_of_cases_resolve(
    cases: Seq<(ExprV, SpecV)>,
    os: Seq<char>,
    host: Seq<char>,
)
    ensures
        strings_of_cases(cases, os, host) == match resolve_cases(cases, os, host) {
            Some(sub) => strings_of_spec(sub, os, host),
            None => Seq::empty(),
        },
    decreases cases,
{
    if cases.len() > 0 && !expr_holds(cases[0].0, os, host) {
        lemma_strings_of_cases_resolve(cases.drop_first(), os, host);
    }
}

// ------------------------------------------------------------------
// Arithmetic of the cross concatenation.
// ------------------------------------------------------------------

pub proof fn lemma_cross_len(a: Seq<Seq<char>>, b: Seq<Seq<char>>)
    ensures
        cross(a, b).len() == a.len() * b.len(),
    decreases a.len(),
{
    if a.len() > 0 {
        lemma_cross_len(a.drop_first(), b);
        assert(a.len() * b.len() == (a.len() - 1) * b.len() + b.len()) by (nonlinear_arith);
    }
}

/// The element at row `i`, column `j` of the cross concatenation.
pub proof fn lemma_cross_index(a: Seq<Seq<char>>, b: Seq<Seq<char>>, i: int, j: int)
    requires
        0 <= i < a.len(),
        0 <= j < b.len(),
    ensures
        cross(a, b).len() == a.len() * b.len(),
        0 <= i * b.len() + j < cross(a, b).len(),
        cross(a, b)[i * b.len() + j] == a[i] + b[j],
    decreases a.len(),
{
    lemma_cross_len(a, b);
    assert(0 <= i * b.len() + j < a.len() * b.len()) by (nonlinear_arith)
        requires
            0 <= i < a.len(),
            0 <= j < b.len(),
    ;
    if i == 0 {
        assert(cross(a, b)[j] == prefixed(a[0], b)[j]);
    } else {
        lemma_cross_index(a.drop_first(), b, i - 1, j);
        assert(i * b.len() + j - b.len() == (i - 1) * b.len() + j) by (nonlinear_arith);
        assert(cross(a, b)[i * b.len() + j] == cross(a.drop_first(), b)[(i - 1) * b.len() + j]);
    }
}

// ------------------------------------------------------------------
// Pair trees.
// ------------------------------------------------------------------

/// A binary tree that stores information only at its leaves: nested
/// pairs of items, e.g. `(("x", ("a", "r")), "y")`. An already built
/// subtree can be shared by reference instead of being copied.
#[derive(Debug)]
pub enum PairTree<T> {
    Value(T),
    Pair(Box<PairTree<T>>, Box<PairTree<T>>),
    Rc(Rc<PairTree<T>>),
}

impl<T> PairTree<T> {
    /// A leaf.
    pub fn value(v: T) -> (r: Self)
        ensures
            r == PairTree::Value(v),
    {
        PairTree::Value(v)
    }

    /// An ordered pair of subtrees.
    pub fn pair(left: PairTree<T>, right: PairTree<T>) -> (r: Self)
        ensures
            r == PairTree::Pair(Box::new(left), Box::new(right)),
    {
        PairTree::Pair(Box::new(left), Box::new(right))
    }

    /// A shared reference to an already built subtree.
    pub fn rc(tree: &Rc<PairTree<T>>) -> (r: Self)
        ensures
            r == PairTree::Rc(Rc::new(**tree)),
    {
        PairTree::Rc(Rc::clone(tree))
    }
}

/// The string a pair tree denotes: its leaves, left to right.
pub open spec fn flat<'a>(t: PairTree<&'a str>) -> Seq<char>
    decreases t,
{
    match t {
        PairTree::Value(s) => s@,
        PairTree::Pair(l, r) => flat(*l) + flat(*r),
        PairTree::Rc(rc) => flat(*rc),
    }
}

impl<'a> PairTree<&'a str> {
    /// Appends the tree's leaves, left to right, to `out`, so each
    /// leaf is copied exactly once.
    fn flatten_into(&self, out: &mut String)
        ensures
            final(out)@ == old(out)@ + flat(*self),
        decreases *self,
    {
        match self {
            PairTree::Value(s) => {
                out.append(s);
            }
            PairTree::Pair(l, r) => {
                let ghost mid = out@ + flat(**l);
                l.flatten_into(out);
                r.flatten_into(out);
                proof {
                    assert(mid + flat(**r) =~= old(out)@ + (flat(**l) + flat(**r)));
                }
            }
            PairTree::Rc(rc) => (&**rc).flatten_into(out),
        }
    }

    /// Flattens the tree into the string it denotes: one pass over the
    /// leaves, the only step whose cost is the output's length.
    pub fn flatten_to_string(&self) -> (r: String)
        ensures
            r@ == flat(*self),
    {
        let mut result = String::new();
        self.flatten_into(&mut result);
        result
    }
}

} // verus!

verus! {

// ------------------------------------------------------------------
// Prefix sums over a variant's alternatives.
// ------------------------------------------------------------------

/// How many strings the first `k` alternatives denote together.
pub open spec fn alts_prefix_len(specs: Seq<SpecV>, k: int, os: Seq<char>, host: Seq<char>) -> nat
    decreases k,
{
    if k <= 0 {
        0
    } else {
        alts_prefix_len(specs, k - 1, os, host) + strings_of_spec(specs[k - 1], os, host).len()
    }
}

pub proof fn lemma_alts_shift(specs: Seq<SpecV>, k: int, os: Seq<char>, host: Seq<char>)
    requires
        0 <= k <= specs.len(),
    ensures
        alts_prefix_len(specs, k, os, host) <= strings_of_alts(specs, os, host).len(),
        k == specs.len() ==> alts_prefix_len(specs, k, os, host) == strings_of_alts(
            specs,
            os,
            host,
        ).len(),
        forall|m: int|
            0 <= m < strings_of_alts(specs, os, host).len() - alts_prefix_len(specs, k, os, host)
                ==> strings_of_alts(specs, os, host)[alts_prefix_len(specs, k, os, host) + m]
                == strings_of_alts(#[trigger] specs.skip(k), os, host)[m],
        strings_of_alts(specs, os, host).len() - alts_prefix_len(specs, k, os, host)
            == strings_of_alts(specs.skip(k), os, host).len(),
    decreases k,
{
    if k == 0 {
        assert(specs.skip(0) =~= specs);
    } else {
        lemma_alts_shift(specs, k - 1, os, host);
        assert(specs.skip(k - 1).drop_first() =~= specs.skip(k));
        assert(specs.skip(k - 1)[0] == specs[k - 1]);
        let all = strings_of_alts(specs, os, host);
        let sk1 = strings_of_alts(specs.skip(k - 1), os, host);
        let sk = strings_of_alts(specs.skip(k), os, host);
        let head = strings_of_spec(specs[k - 1], os, host);
        assert(sk1 == head + sk);
        assert(alts_prefix_len(specs, k, os, host) == alts_prefix_len(specs, k - 1, os, host)
            + head.len());
        assert forall|m: int| 0 <= m < all.len() - alts_prefix_len(specs, k, os, host) implies all[
            alts_prefix_len(specs, k, os, host) + m
        ] == sk[m] by {
            let m1 = head.len() + m;
            assert(all[alts_prefix_len(specs, k - 1, os, host) + m1] == sk1[m1]);
            assert(sk1[m1] == sk[m]);
        }
    }
}

/// The global position of the `m`-th string of alternative `k`.
pub proof fn lemma_alts_index(specs: Seq<SpecV>, k: int, m: int, os: Seq<char>, host: Seq<char>)
    requires
        0 <= k < specs.len(),
        0 <= m < strings_of_spec(specs[k], os, host).len(),
    ensures
        alts_prefix_len(specs, k, os, host) + m < strings_of_alts(specs, os, host).len(),
        strings_of_alts(specs, os, host)[alts_prefix_len(specs, k, os, host) + m]
            == strings_of_spec(specs[k], os, host)[m],
        alts_prefix_len(specs, k + 1, os, host) == alts_prefix_len(specs, k, os, host)
            + strings_of_spec(specs[k], os, host).len(),
{
    lemma_alts_shift(specs, k, os, host);
    assert(specs.skip(k)[0] == specs[k]);
    assert(specs.skip(k).drop_first() =~= specs.skip(k + 1));
    lemma_alts_shift(specs, k + 1, os, host);
    let sk = strings_of_alts(specs.skip(k), os, host);
    let head = strings_of_spec(specs[k], os, host);
    assert(sk == head + strings_of_alts(specs.skip(k + 1), os, host));
    assert(strings_of_alts(specs, os, host).len() - alts_prefix_len(specs, k, os, host)
        == sk.len());
    assert(strings_of_alts(specs, os, host)[alts_prefix_len(specs, k, os, host) + m] == sk[m]);
    assert(sk[m] == head[m]);
}

// ------------------------------------------------------------------
// The iterators. Each is a restartable state machine whose state is
// only (current child iterator or none, index); `emitted` counts how
// many strings it has produced, and `next` is proved to hand out
// exactly the `emitted`-th string of the denoted sequence.
// ------------------------------------------------------------------

/// A lazy iterator over the strings a spec denotes, as shared pair
/// trees.
pub struct SpecIter<'a> {
    spec: &'a Spec,
    os: &'a str,
    host: &'a str,
    expr_iter: Option<Box<ExprIter<'a>>>,
    curr_expr: Option<Rc<PairTree<&'a str>>>,
    spec_iter: Option<Box<SpecIter<'a>>>,
    should_emit_string: bool,
}

enum ExprIter<'a> {
    Variant(VariantIter<'a>),
    Match(MatchIter<'a>),
}

struct VariantIter<'a> {
    expr: &'a VariantExpr,
    os: &'a str,
    host: &'a str,
    curr_iter: Option<Box<SpecIter<'a>>>,
    index: usize,
}

struct MatchIter<'a> {
    expr: &'a MatchExpr,
    spec_iter: Option<Box<SpecIter<'a>>>,
}

impl<'a> VariantIter<'a> {
    spec fn full(&self) -> Seq<Seq<char>> {
        strings_of_alts(view_of_specs(self.expr.specs@), self.os@, self.host@)
    }

    spec fn emitted(&self) -> nat
        decreases self, 1int,
    {
        match self.curr_iter {
            None => 0,
            Some(it) => alts_prefix_len(
                view_of_specs(self.expr.specs@),
                self.index - 1,
                self.os@,
                self.host@,
            ) + it.emitted(),
        }
    }

    spec fn wf(&self) -> bool
        decreases self,
    {
        &&& self.index <= self.expr.specs@.len()
        &&& view_of_specs(self.expr.specs@).len() == self.expr.specs@.len()
        &&& match self.curr_iter {
            None => self.index == 0,
            Some(it) => {
                &&& 1 <= self.index
                &&& it.wf()
                &&& *it.spec == self.expr.specs@[self.index - 1]
                &&& it.os@ == self.os@
                &&& it.host@ == self.host@
            }
        }
    }
}

impl<'a> MatchIter<'a> {
    spec fn emitted(&self) -> nat
        decreases self, 1int,
    {
        match self.spec_iter {
            None => 0,
            Some(si) => si.emitted(),
        }
    }

    spec fn wf_for(&self, os: Seq<char>, host: Seq<char>) -> bool
        decreases self,
    {
        match resolve_cases(view_of_cases(self.expr.cases@), os, host) {
            Some(sub) => match self.spec_iter {
                Some(si) => {
                    &&& si.wf()
                    &&& view_of_spec(*si.spec) == sub
                    &&& si.os@ == os
                    &&& si.host@ == host
                    &&& exists|i: int|
                        0 <= i < self.expr.cases@.len() && *si.spec == (#[trigger] self.expr.cases@[i]).1
                }
                None => false,
            },
            None => self.spec_iter is None,
        }
    }
}

impl<'a> SpecIter<'a> {
    /// The whole sequence of strings this iterator denotes.
    pub closed spec fn full(&self) -> Seq<Seq<char>> {
        strings_of_spec(view_of_spec(*self.spec), self.os@, self.host@)
    }

    /// The spec being iterated.
    pub closed spec fn target(&self) -> Spec {
        *self.spec
    }

    /// How much of the node's own sequence is still to come (a
    /// termination measure).
    pub closed spec fn node_remaining(&self) -> int {
        self.expr_full().len() - self.expr_emitted()
    }

    /// The environment generation runs against.
    pub closed spec fn env(&self) -> (Seq<char>, Seq<char>) {
        (self.os@, self.host@)
    }

    spec fn expr_full(&self) -> Seq<Seq<char>> {
        match self.spec.spectype {
            SpecType::Leaf => Seq::empty(),
            SpecType::Variant(e, _) => strings_of_alts(
                view_of_specs(e.specs@),
                self.os@,
                self.host@,
            ),
            SpecType::Match(m, _) => strings_of_cases(
                view_of_cases(m.cases@),
                self.os@,
                self.host@,
            ),
        }
    }

    spec fn has_cont(&self) -> bool {
        match self.spec.spectype {
            SpecType::Leaf => false,
            SpecType::Variant(_, cont) => cont is Some,
            SpecType::Match(_, cont) => cont is Some,
        }
    }

    spec fn cont_full(&self) -> Seq<Seq<char>> {
        match self.spec.spectype {
            SpecType::Leaf => Seq::empty(),
            SpecType::Variant(_, cont) => match cont {
                Some(c) => strings_of_spec(view_of_spec(*c), self.os@, self.host@),
                None => Seq::empty(),
            },
            SpecType::Match(_, cont) => match cont {
                Some(c) => strings_of_spec(view_of_spec(*c), self.os@, self.host@),
                None => Seq::empty(),
            },
        }
    }

    /// The node's output, before the literal prefix is prepended.
    spec fn node_full(&self) -> Seq<Seq<char>> {
        if self.has_cont() {
            cross(self.expr_full(), self.cont_full())
        } else {
            self.expr_full()
        }
    }

    spec fn expr_emitted(&self) -> nat
        decreases self, 0int,
    {
        match self.expr_iter {
            Some(b) => match *b {
                ExprIter::Variant(vi) => vi.emitted(),
                ExprIter::Match(mi) => mi.emitted(),
            },
            None => 0,
        }
    }

    spec fn cont_emitted(&self) -> nat
        decreases self, 0int,
    {
        match self.spec_iter {
            Some(si) => si.emitted(),
            None => 0,
        }
    }

    /// How many strings this iterator has produced since its last
    /// restart.
    pub closed spec fn emitted(&self) -> nat
        decreases self, 1int,
    {
        match self.spec.spectype {
            SpecType::Leaf => if self.should_emit_string {
                0
            } else {
                self.full().len()
            },
            _ => {
                if !self.has_cont() {
                    self.expr_emitted()
                } else {
                    match self.curr_expr {
                        None => self.expr_emitted() * self.cont_full().len(),
                        Some(_) => ((self.expr_emitted() - 1) * self.cont_full().len()
                            + self.cont_emitted()) as nat,
                    }
                }
            }
        }
    }

    pub closed spec fn wf(&self) -> bool
        decreases self,
    {
        match self.spec.spectype {
            SpecType::Leaf => {
                &&& self.expr_iter is None
                &&& self.spec_iter is None
                &&& self.curr_expr is None
            }
            SpecType::Variant(e, cont) => {
                &&& match self.expr_iter {
                    Some(b) => match *b {
                        ExprIter::Variant(vi) => {
                            &&& vi.wf()
                            &&& *vi.expr == *e
                            &&& vi.os@ == self.os@
                            &&& vi.host@ == self.host@
                        }
                        ExprIter::Match(_) => false,
                    },
                    None => false,
                }
                &&& self.cont_wf(cont)
            }
            SpecType::Match(m, cont) => {
                &&& match self.expr_iter {
                    Some(b) => match *b {
                        ExprIter::Match(mi) => {
                            &&& mi.wf_for(self.os@, self.host@)
                            &&& *mi.expr == *m
                        }
                        ExprIter::Variant(_) => false,
                    },
                    None => false,
                }
                &&& self.cont_wf(cont)
            }
        }
    }

    /// The continuation-side well-formedness, shared by both node
    /// kinds.
    spec fn cont_wf(&self, cont: Option<Box<Spec>>) -> bool
        decreases self, 0int,
    {
        match cont {
            None => {
                &&& self.spec_iter is None
                &&& self.curr_expr is None
                &&& self.expr_emitted() <= self.expr_full().len()
            }
            Some(c) => {
                &&& match self.spec_iter {
                    Some(si) => {
                        &&& si.wf()
                        &&& *si.spec == *c
                        &&& si.os@ == self.os@
                        &&& si.host@ == self.host@
                    }
                    None => false,
                }
                &&& match self.curr_expr {
                    None => self.cont_emitted() == 0 && (self.expr_emitted() == 0
                        || self.expr_emitted() == self.expr_full().len()),
                    Some(t) => {
                        &&& 1 <= self.expr_emitted() <= self.expr_full().len()
                        &&& flat(*t) == self.expr_full()[self.expr_emitted() - 1]
                        &&& self.cont_emitted() <= self.cont_full().len()
                    }
                }
            }
        }
    }
}

} // verus!

verus! {

impl VariantExpr {
    /// A fresh iterator over this variant's alternatives.
    fn raw_iter<'a>(&'a self, os: &'a str, host: &'a str) -> (r: VariantIter<'a>)
        ensures
            r.wf(),
            r.emitted() == 0,
            *r.expr == *self,
            r.os@ == os@,
            r.host@ == host@,
    {
        proof {
            crate::ast::lemma_view_of_specs_len(self.specs@);
        }
        VariantIter { expr: self, os, host, curr_iter: None, index: 0 }
    }
}

impl MatchExpr {
    /// A fresh iterator over this match's resolved branch: the branch
    /// is selected once, here, against the given environment.
    fn raw_iter<'a>(&'a self, os: &'a str, host: &'a str) -> (r: MatchIter<'a>)
        ensures
            r.wf_for(os@, host@),
            r.emitted() == 0,
            *r.expr == *self,
        decreases *self, 0int, 4int,
    {
        let spec_iter = match self.resolve(os, host) {
            Some(sub) => Some(Box::new(SpecIter::new(sub, os, host))),
            None => None,
        };
        MatchIter { expr: self, spec_iter }
    }
}

impl<'a> SpecIter<'a> {
    /// A fresh iterator over the strings `spec` denotes under the
    /// environment `(os, host)`.
    pub fn new(spec: &'a Spec, os: &'a str, host: &'a str) -> (r: Self)
        ensures
            r.wf(),
            r.emitted() == 0,
            r.target() == *spec,
            r.env() == (os@, host@),
            r.full() == strings_of_spec(view_of_spec(*spec), os@, host@),
        decreases *spec, 0int, 3int,
    {
        let mut ret = SpecIter {
            spec,
            os,
            host,
            curr_expr: None,
            expr_iter: None,
            spec_iter: None,
            should_emit_string: true,
        };
        ret.init_expr_iter();
        ret.init_spec_iter();
        proof {
            if ret.has_cont() {
                assert(ret.expr_emitted() * ret.cont_full().len() == 0) by (nonlinear_arith)
                    requires
                        ret.expr_emitted() == 0,
                ;
            }
        }
        ret
    }

    /// Builds the iterator for this spec's own node, if it has one.
    fn init_expr_iter(&mut self)
        requires
            old(self).curr_expr is None,
        ensures
            final(self).spec == old(self).spec,
            final(self).os == old(self).os,
            final(self).host == old(self).host,
            final(self).curr_expr == old(self).curr_expr,
            final(self).spec_iter == old(self).spec_iter,
            final(self).should_emit_string == old(self).should_emit_string,
            final(self).expr_emitted() == 0,
            match old(self).spec.spectype {
                SpecType::Leaf => final(self).expr_iter is None,
                SpecType::Variant(e, _) => match final(self).expr_iter {
                    Some(b) => match *b {
                        ExprIter::Variant(vi) => vi.wf() && *vi.expr == *e && vi.os@ == old(
                            self,
                        ).os@ && vi.host@ == old(self).host@,
                        ExprIter::Match(_) => false,
                    },
                    None => false,
                },
                SpecType::Match(m, _) => match final(self).expr_iter {
                    Some(b) => match *b {
                        ExprIter::Match(mi) => mi.wf_for(old(self).os@, old(self).host@) && *mi.expr
                            == *m,
                        ExprIter::Variant(_) => false,
                    },
                    None => false,
                },
            },
        decreases *old(self).spec, 0int, 2int,
    {
        let sp = self.spec;
        let os = self.os;
        let host = self.host;
        self.expr_iter = match &sp.spectype {
            SpecType::Leaf => None,
            SpecType::Match(expr, _) => Some(Box::new(ExprIter::Match(expr.raw_iter(os, host)))),
            SpecType::Variant(expr, _) => Some(
                Box::new(ExprIter::Variant(expr.raw_iter(os, host))),
            ),
        };
    }

    /// Builds the iterator for this spec's continuation, if it has
    /// one.
    fn init_spec_iter(&mut self)
        ensures
            final(self).spec == old(self).spec,
            final(self).os == old(self).os,
            final(self).host == old(self).host,
            final(self).curr_expr == old(self).curr_expr,
            final(self).expr_iter == old(self).expr_iter,
            final(self).should_emit_string == old(self).should_emit_string,
            final(self).cont_emitted() == 0,
            match old(self).spec.spectype {
                SpecType::Leaf => final(self).spec_iter is None,
                SpecType::Variant(_, cont) | SpecType::Match(_, cont) => match cont {
                    None => final(self).spec_iter is None,
                    Some(c) => match final(self).spec_iter {
                        Some(si) => si.wf() && si.emitted() == 0 && *si.spec == *c && si.os@
                            == old(self).os@ && si.host@ == old(self).host@,
                        None => false,
                    },
                },
            },
        decreases *old(self).spec, 0int, 2int,
    {
        let sp = self.spec;
        let os = self.os;
        let host = self.host;
        self.spec_iter = match &sp.spectype {
            SpecType::Leaf => None,
            SpecType::Match(_, next_spec) | SpecType::Variant(_, next_spec) => match next_spec {
                Some(spec) => Some(Box::new(SpecIter::new(spec, os, host))),
                None => None,
            },
        };
    }
}

} // verus!

verus! {

impl<'a> VariantIter<'a> {
    /// Resets to the first alternative.
    fn restart(&mut self)
        ensures
            final(self).expr == old(self).expr,
            final(self).os == old(self).os,
            final(self).host == old(self).host,
            final(self).wf(),
            final(self).emitted() == 0,
    {
        proof {
            crate::ast::lemma_view_of_specs_len(self.expr.specs@);
        }
        self.curr_iter = None;
        self.index = 0;
    }

    /// The next string of the alternatives, left to right.
    fn next(&mut self) -> (r: Option<PairTree<&'a str>>)
        requires
            old(self).wf(),
        ensures
            final(self).expr == old(self).expr,
            final(self).os == old(self).os,
            final(self).host == old(self).host,
            final(self).wf(),
            match r {
                Some(t) => old(self).emitted() < old(self).full().len() && flat(t) == old(
                    self,
                ).full()[old(self).emitted() as int] && final(self).emitted() == old(self).emitted()
                    + 1,
                None => old(self).emitted() == old(self).full().len() && final(self).emitted()
                    == old(self).emitted(),
            },
        decreases *self.expr, self.expr.specs@.len() - self.index, 3int,
    {
        let ghost specsv = view_of_specs(self.expr.specs@);
        let ghost os = self.os@;
        let ghost host = self.host@;
        let ghost idx0 = self.index as int;
        let curr_res = match &mut self.curr_iter {
            Some(it) => it.next(),
            None => None,
        };
        match curr_res {
            Some(t) => {
                proof {
                    match &self.curr_iter {
                        Some(it) => {
                            crate::ast::lemma_view_of_specs_index(self.expr.specs@, idx0 - 1);
                            lemma_alts_index(specsv, idx0 - 1, (it.emitted() - 1) as int, os, host);
                        }
                        None => {}
                    }
                }
                return Some(t);
            }
            None => {}
        }
        let sp_expr = self.expr;
        if self.index >= sp_expr.specs.len() {
            proof {
                match &self.curr_iter {
                    Some(it) => {
                        crate::ast::lemma_view_of_specs_index(self.expr.specs@, idx0 - 1);
                        lemma_alts_shift(specsv, idx0 - 1, os, host);
                        lemma_alts_shift(specsv, idx0, os, host);
                    }
                    None => {
                        assert(specsv =~= Seq::<SpecV>::empty());
                    }
                }
            }
            return None;
        }
        let child = SpecIter::new(&sp_expr.specs[self.index], self.os, self.host);
        proof {
            crate::ast::lemma_view_of_specs_index(self.expr.specs@, idx0);
            match &self.curr_iter {
                Some(it) => {
                    crate::ast::lemma_view_of_specs_index(self.expr.specs@, idx0 - 1);
                }
                None => {}
            }
        }
        self.curr_iter = Some(Box::new(child));
        self.index = self.index + 1;
        self.next()
    }
}

impl<'a> MatchIter<'a> {
    /// Resets the resolved branch's iterator, if there is one.
    fn restart(&mut self)
        requires
            match old(self).spec_iter {
                Some(si) => si.wf(),
                None => true,
            },
        ensures
            final(self).expr == old(self).expr,
            final(self).emitted() == 0,
            match (old(self).spec_iter, final(self).spec_iter) {
                (Some(o), Some(n)) => *n.spec == *o.spec && n.os@ == o.os@ && n.host@ == o.host@
                    && n.wf(),
                (None, None) => true,
                _ => false,
            },
        decreases *self,
    {
        match &mut self.spec_iter {
            Some(si) => si.restart(),
            None => {}
        }
    }

    /// The next string of the resolved branch.
    fn next(&mut self, Ghost(os): Ghost<Seq<char>>, Ghost(host): Ghost<Seq<char>>) -> (r: Option<
        PairTree<&'a str>,
    >)
        requires
            old(self).wf_for(os, host),
        ensures
            final(self).expr == old(self).expr,
            final(self).wf_for(os, host),
            ({
                let full = strings_of_cases(view_of_cases(old(self).expr.cases@), os, host);
                match r {
                    Some(t) => old(self).emitted() < full.len() && flat(t) == full[old(
                        self,
                    ).emitted() as int] && final(self).emitted() == old(self).emitted() + 1,
                    None => old(self).emitted() == full.len() && final(self).emitted() == old(
                        self,
                    ).emitted(),
                }
            }),
        decreases *self.expr, 0int, 3int,
    {
        proof {
            lemma_strings_of_cases_resolve(view_of_cases(self.expr.cases@), os, host);
        }
        match &mut self.spec_iter {
            Some(si) => si.next(),
            None => None,
        }
    }
}

} // verus!

verus! {

impl<'a> SpecIter<'a> {
    /// Resets to the initial state, without reconstruction: the same
    /// full sequence will be produced again from the start.
    pub fn restart(&mut self)
        requires
            old(self).wf(),
        ensures
            final(self).wf(),
            final(self).emitted() == 0,
            final(self).target() == old(self).target(),
            final(self).env() == old(self).env(),
            final(self).full() == old(self).full(),
        decreases *self,
    {
        match &mut self.expr_iter {
            Some(b) => match &mut **b {
                ExprIter::Variant(vi) => vi.restart(),
                ExprIter::Match(mi) => mi.restart(),
            },
            None => {}
        }
        match &mut self.spec_iter {
            Some(si) => si.restart(),
            None => {}
        }
        self.curr_expr = None;
        self.should_emit_string = true;
        proof {
            if !(self.spec.spectype is Leaf) && self.has_cont() {
                assert(self.expr_emitted() * self.cont_full().len() == 0) by (nonlinear_arith)
                    requires
                        self.expr_emitted() == 0,
                ;
            }
        }
    }

    /// The next string's pair tree, leaving out this spec's own
    /// literal prefix.
    fn next_without_str(&mut self) -> (r: Option<PairTree<&'a str>>)
        requires
            old(self).wf(),
        ensures
            final(self).spec == old(self).spec,
            final(self).os == old(self).os,
            final(self).host == old(self).host,
            final(self).should_emit_string == old(self).should_emit_string,
            final(self).wf(),
            old(self).spec.spectype is Leaf ==> r is None && *final(self) == *old(self),
            !(old(self).spec.spectype is Leaf) ==> ({
                let nf = old(self).node_full();
                match r {
                    Some(t) => old(self).emitted() < nf.len() && flat(t) == nf[old(
                        self,
                    ).emitted() as int] && final(self).emitted() == old(self).emitted() + 1,
                    None => old(self).emitted() == nf.len() && final(self).emitted() == old(
                        self,
                    ).emitted(),
                }
            }),
        decreases *self.spec, self.expr_full().len() - self.expr_emitted(), 2int,
    {
        let sp = self.spec;
        match &sp.spectype {
            SpecType::Leaf => {
                return None;
            }
            _ => {}
        }
        let ghost e_full = self.expr_full();
        let ghost c_full = self.cont_full();
        let ghost em0 = self.emitted();
        let ghost ee0 = self.expr_emitted();
        if self.spec_iter.is_some() {
            proof {
                lemma_cross_len(e_full, c_full);
            }
            if self.curr_expr.is_some() {
                let ghost ce0 = self.cont_emitted();
                let rest_opt = match &mut self.spec_iter {
                    Some(si) => si.next(),
                    None => None,
                };
                match rest_opt {
                    Some(rest) => {
                        let ghost grest = rest;
                        let tree = match &self.curr_expr {
                            Some(curr) => {
                                let node = PairTree::rc(curr);
                                let ghost gnode = node;
                                let t = PairTree::pair(node, rest);
                                proof {
                                    assert(flat(gnode) == flat(**curr));
                                    assert(flat(t) == flat(gnode) + flat(grest));
                                }
                                t
                            }
                            None => {
                                proof {
                                    assert(false);
                                }
                                rest
                            }
                        };
                        proof {
                            lemma_cross_index(e_full, c_full, ee0 - 1, ce0 as int);
                            assert((ee0 - 1) * c_full.len() + ce0 + 1 == (ee0 - 1) * c_full.len()
                                + (ce0 + 1));
                            assert(em0 == (ee0 - 1) * c_full.len() + ce0);
                            assert(em0 < e_full.len() * c_full.len()) by (nonlinear_arith)
                                requires
                                    1 <= ee0 <= e_full.len(),
                                    0 <= ce0 < c_full.len(),
                                    em0 == (ee0 - 1) * c_full.len() + ce0,
                            ;
                        }
                        return Some(tree);
                    }
                    None => {
                        match &mut self.spec_iter {
                            Some(si) => si.restart(),
                            None => {}
                        }
                    }
                }
            }
            // advance the node's own iterator
            let ghost os = self.os@;
            let ghost host = self.host@;
            let adv = match &mut self.expr_iter {
                Some(b) => match &mut **b {
                    ExprIter::Variant(vi) => vi.next(),
                    ExprIter::Match(mi) => mi.next(Ghost(os), Ghost(host)),
                },
                None => None,
            };
            match adv {
                None => {
                    // exhausted: pin the iterator, so that further calls
                    // keep yielding nothing until a restart
                    self.curr_expr = None;
                    proof {
                        assert(ee0 == e_full.len());
                        assert(em0 == e_full.len() * c_full.len()) by (nonlinear_arith)
                            requires
                                em0 == ee0 * c_full.len() || em0 == (ee0 - 1) * c_full.len()
                                    + c_full.len(),
                                ee0 == e_full.len(),
                        ;
                    }
                    None
                }
                Some(t) => {
                    self.curr_expr = Some(Rc::new(t));
                    proof {
                        assert(self.emitted() == em0) by (nonlinear_arith)
                            requires
                                self.emitted() == (ee0 + 1 - 1) * c_full.len(),
                                em0 == ee0 * c_full.len() || em0 == (ee0 - 1) * c_full.len()
                                    + c_full.len(),
                        ;
                    }
                    self.next_without_str()
                }
            }
        } else {
            let ghost os = self.os@;
            let ghost host = self.host@;
            let adv = match &mut self.expr_iter {
                Some(b) => match &mut **b {
                    ExprIter::Variant(vi) => vi.next(),
                    ExprIter::Match(mi) => mi.next(Ghost(os), Ghost(host)),
                },
                None => None,
            };
            match adv {
                None => None,
                Some(t) => {
                    let ghost gt = t;
                    let shared = Rc::new(t);
                    let node = PairTree::rc(&shared);
                    proof {
                        assert(flat(node) == flat(gt));
                    }
                    Some(node)
                }
            }
        }
    }

    /// The next string's pair tree, or `None` once the sequence is
    /// exhausted.
    pub fn next(&mut self) -> (r: Option<PairTree<&'a str>>)
        requires
            old(self).wf(),
        ensures
            final(self).wf(),
            final(self).target() == old(self).target(),
            final(self).env() == old(self).env(),
            final(self).full() == old(self).full(),
            match r {
                Some(t) => old(self).emitted() < old(self).full().len() && flat(t) == old(
                    self,
                ).full()[old(self).emitted() as int] && final(self).emitted() == old(self).emitted()
                    + 1,
                None => old(self).emitted() == old(self).full().len() && final(self).emitted()
                    == old(self).emitted(),
            },
        decreases self.target(), self.node_remaining(), 3int,
    {
        let sp = self.spec;
        match &sp.spectype {
            SpecType::Leaf => {
                if self.should_emit_string {
                    self.should_emit_string = false;
                    match &sp.string {
                        Some(x) => Some(PairTree::value(x.as_str())),
                        None => None,
                    }
                } else {
                    None
                }
            }
            _ => {
                let ghost em0 = self.emitted();
                let ghost nf = self.node_full();
                let ghost sv = view_of_spec(*sp);
                proof {
                    assert(old(self).full() == prefixed_opt(sv.string, nf));
                    assert(prefixed_opt(sv.string, nf).len() == nf.len());
                }
                let rest = match self.next_without_str() {
                    Some(rest) => rest,
                    None => {
                        return None;
                    }
                };
                proof {
                    match sv.string {
                        Some(p) => {
                            assert(prefixed(p, nf)[em0 as int] == p + nf[em0 as int]);
                        }
                        None => {}
                    }
                }
                match &sp.string {
                    Some(s) => {
                        let ghost grest = rest;
                        let leaf = PairTree::value(s.as_str());
                        let ghost gleaf = leaf;
                        let t = PairTree::pair(leaf, rest);
                        proof {
                            assert(flat(gleaf) == s@);
                            assert(flat(t) == flat(gleaf) + flat(grest));
                        }
                        Some(t)
                    }
                    None => Some(rest),
                }
            }
        }
    }
}

} // verus!

verus! {

/// An iterator over the strings a spec denotes, flattened one at a
/// time.
pub struct SpecStrIter<'a> {
    iter: SpecIter<'a>,
}

impl<'a> SpecStrIter<'a> {
    /// The whole sequence of strings this iterator denotes.
    pub closed spec fn full(&self) -> Seq<Seq<char>> {
        self.iter.full()
    }

    /// How many strings it has produced since the last restart.
    pub closed spec fn emitted(&self) -> nat {
        self.iter.emitted()
    }

    pub closed spec fn wf(&self) -> bool {
        self.iter.wf()
    }

    /// The next string, or `None` once the sequence is exhausted.
    pub fn next(&mut self) -> (r: Option<String>)
        requires
            old(self).wf(),
        ensures
            final(self).wf(),
            final(self).full() == old(self).full(),
            match r {
                Some(s) => old(self).emitted() < old(self).full().len() && s@ == old(self).full()[
                    old(self).emitted() as int
                ] && final(self).emitted() == old(self).emitted() + 1,
                None => old(self).emitted() == old(self).full().len() && final(self).emitted()
                    == old(self).emitted(),
            },
    {
        match self.iter.next() {
            Some(tree) => Some(tree.flatten_to_string()),
            None => None,
        }
    }

    /// Resets to the start: the full original sequence is reproduced.
    pub fn restart(&mut self)
        requires
            old(self).wf(),
        ensures
            final(self).wf(),
            final(self).full() == old(self).full(),
            final(self).emitted() == 0,
    {
        self.iter.restart();
    }
}

impl Spec {
    /// A fresh pair-tree iterator over this spec's strings under the
    /// environment `(os, host)`.
    pub fn raw_iter<'a>(&'a self, os: &'a str, host: &'a str) -> (r: SpecIter<'a>)
        ensures
            r.wf(),
            r.emitted() == 0,
            r.full() == strings_of_spec(self@, os@, host@),
    {
        SpecIter::new(self, os, host)
    }

    /// A fresh string iterator over this spec's strings under the
    /// environment `(os, host)`.
    pub fn str_iter<'a>(&'a self, os: &'a str, host: &'a str) -> (r: SpecStrIter<'a>)
        ensures
            r.wf(),
            r.emitted() == 0,
            r.full() == strings_of_spec(self@, os@, host@),
    {
        SpecStrIter { iter: SpecIter::new(self, os, host) }
    }

    /// Every string this spec denotes under the environment
    /// `(os, host)`, in generation order.
    pub fn generate(&self, os: &str, host: &str) -> (r: Vec<String>)
        ensures
            r.deep_view() == strings_of_spec(self@, os@, host@),
    {
        let mut it = self.str_iter(os, host);
        let mut out: Vec<String> = Vec::new();
        loop
            invariant
                it.wf(),
                it.full() == strings_of_spec(self@, os@, host@),
                it.emitted() == out.len(),
                out.deep_view() =~= it.full().take(it.emitted() as int),
            ensures
                out.deep_view() == strings_of_spec(self@, os@, host@),
            decreases it.full().len() - it.emitted(),
        {
            let ghost before = out.deep_view();
            match it.next() {
                Some(s) => {
                    let ghost sv = s@;
                    out.push(s);
                    proof {
                        assert(out.deep_view() =~= before.push(sv));
                        assert(out.deep_view() =~= it.full().take(it.emitted() as int));
                    }
                }
                None => {
                    proof {
                        assert(it.full().take(it.emitted() as int) =~= it.full());
                    }
                    break ;
                }
            }
        }
        out
    }
}

// ------------------------------------------------------------------
// Laws of generation.
// ------------------------------------------------------------------

/// Whether a spec contains no match node anywhere.
pub open spec fn has_no_match(s: SpecV) -> bool
    decreases s,
{
    match s.spectype {
        SpecTypeV::Leaf => true,
        SpecTypeV::Variant(e, cont) => alts_have_no_match(e.specs) && match cont {
            Some(c) => has_no_match(*c),
            None => true,
        },
        SpecTypeV::Match(_, _) => false,
    }
}

pub open spec fn alts_have_no_match(specs: Seq<SpecV>) -> bool
    decreases specs,
{
    if specs.len() == 0 {
        true
    } else {
        has_no_match(specs[0]) && alts_have_no_match(specs.drop_first())
    }
}

/// Whether every bare leaf of a spec carries a literal. The parser
/// only builds such specs; a leaf with neither literal nor node
/// denotes no string at all while counting as one option.
pub open spec fn leaves_have_strings(s: SpecV) -> bool
    decreases s,
{
    match s.spectype {
        SpecTypeV::Leaf => s.string is Some,
        SpecTypeV::Variant(e, cont) => alts_leaves_have_strings(e.specs) && match cont {
            Some(c) => leaves_have_strings(*c),
            None => true,
        },
        SpecTypeV::Match(m, cont) => cases_leaves_have_strings(m.cases) && match cont {
            Some(c) => leaves_have_strings(*c),
            None => true,
        },
    }
}

pub open spec fn alts_leaves_have_strings(specs: Seq<SpecV>) -> bool
    decreases specs,
{
    if specs.len() == 0 {
        true
    } else {
        leaves_have_strings(specs[0]) && alts_leaves_have_strings(specs.drop_first())
    }
}

pub open spec fn cases_leaves_have_strings(cases: Seq<(ExprV, SpecV)>) -> bool
    decreases cases,
{
    if cases.len() == 0 {
        true
    } else {
        leaves_have_strings(cases[0].1) && cases_leaves_have_strings(cases.drop_first())
    }
}

/// For a spec with no match node whose bare leaves all carry literals,
/// the generator yields exactly `option_count` strings, under every
/// environment.
pub proof fn lemma_count_matches_generation(s: SpecV, os: Seq<char>, host: Seq<char>)
    requires
        has_no_match(s),
        leaves_have_strings(s),
    ensures
        strings_of_spec(s, os, host).len() == spec_count(s),
    decreases s,
{
    match s.spectype {
        SpecTypeV::Leaf => {}
        SpecTypeV::Variant(e, cont) => {
            lemma_alts_count_matches_generation(e.specs, os, host);
            let ev = strings_of_alts(e.specs, os, host);
            match cont {
                Some(c) => {
                    lemma_count_matches_generation(*c, os, host);
                    lemma_cross_len(ev, strings_of_spec(*c, os, host));
                }
                None => {}
            }
        }
        SpecTypeV::Match(_, _) => {}
    }
}

pub proof fn lemma_alts_count_matches_generation(specs: Seq<SpecV>, os: Seq<char>, host: Seq<char>)
    requires
        alts_have_no_match(specs),
        alts_leaves_have_strings(specs),
    ensures
        strings_of_alts(specs, os, host).len() == variant_count(specs),
    decreases specs,
{
    if specs.len() > 0 {
        lemma_count_matches_generation(specs[0], os, host);
        lemma_alts_count_matches_generation(specs.drop_first(), os, host);
    }
}

/// Generation is deterministic: any two runs of the generator over the
/// same spec and the same environment denote the same ordered
/// sequence, because the sequence is a function of spec and
/// environment alone.
pub proof fn lemma_generation_deterministic(
    s: SpecV,
    os: Seq<char>,
    host: Seq<char>,
    r1: Seq<Seq<char>>,
    r2: Seq<Seq<char>>,
)
    requires
        r1 == strings_of_spec(s, os, host),
        r2 == strings_of_spec(s, os, host),
    ensures
        r1 == r2,
{
}

} // verus!
