//! The data model of the configuration language: entries, path-fragment
//! specs, variant and match expressions, and the predicates that a match
//! case is guarded by, together with the cardinality arithmetic
//! (`nr_of_options`) and generation-time predicate resolution.
//!
//! Every executable type has a mathematical mirror (`EntryV`, `SpecV`, ...)
//! over `Seq<char>`, reached through `@`; all contracts in this crate are
//! stated over those mirrors.

use vstd::prelude::*;

verus! {

/// One `left (=> right)? ;` statement of a configuration.
/// An absent right side means the left spec is used for both sides.
#[derive(PartialEq, Eq, Debug)]
pub struct Entry {
    pub left: Spec,
    pub right: Option<Spec>,
}

/// A `Spec` specifies a fragment of a path, e.g. `~/.config/[nvim, kitty]`:
/// an optional literal prefix followed by an optional variant or match node.
#[derive(PartialEq, Eq, Debug)]
pub struct Spec {
    pub string: Option<String>,
    pub spectype: SpecType,
}

/// The node that follows a spec's literal prefix, with the continuation
/// spec that follows the node, if any.
#[derive(PartialEq, Eq, Debug)]
pub enum SpecType {
    Leaf,
    Variant(Box<VariantExpr>, Option<Box<Spec>>),
    Match(Box<MatchExpr>, Option<Box<Spec>>),
}

/// An explicit list of alternative sub-specs, `[a, b, c]`.
#[derive(PartialEq, Eq, Debug)]
pub struct VariantExpr {
    pub specs: Vec<Spec>,
}

/// A conditional selection, `{ os(linux): a, default: b }`: the first case
/// whose predicate holds is the one that generates.
#[derive(PartialEq, Eq, Debug)]
pub struct MatchExpr {
    pub cases: Vec<(Expr, Spec)>,
}

/// A predicate over the environment a generation runs against: true of
/// some operating-system names, of some host names, or always (`default`).
#[derive(PartialEq, Eq, Debug, Clone)]
pub enum Expr {
    Os(Vec<String>),
    Host(Vec<String>),
    Any,
}

/// A comma separated list of `T`s, with optional trailing comma.
/// (The closing delimiter is passed to the `parse` functions.)
#[derive(PartialEq, Eq, Debug)]
pub struct CommaList<T> {
    pub list: Vec<T>,
}

// ------------------------------------------------------------------
// Mathematical mirrors.
// ------------------------------------------------------------------

#[verifier::ext_equal]
pub struct EntryV {
    pub left: SpecV,
    pub right: Option<SpecV>,
}

#[verifier::ext_equal]
pub struct SpecV {
    pub string: Option<Seq<char>>,
    pub spectype: SpecTypeV,
}

#[verifier::ext_equal]
pub enum SpecTypeV {
    Leaf,
    Variant(VariantExprV, Option<Box<SpecV>>),
    Match(MatchExprV, Option<Box<SpecV>>),
}

#[verifier::ext_equal]
pub struct VariantExprV {
    pub specs: Seq<SpecV>,
}

#[verifier::ext_equal]
pub struct MatchExprV {
    pub cases: Seq<(ExprV, SpecV)>,
}

#[verifier::ext_equal]
pub enum ExprV {
    Os(Seq<Seq<char>>),
    Host(Seq<Seq<char>>),
    Any,
}

pub open spec fn view_of_spec(s: Spec) -> SpecV
    decreases s,
{
    SpecV { string: view_of_opt_string(s.string), spectype: view_of_spectype(s.spectype) }
}

pub open spec fn view_of_opt_string(s: Option<String>) -> Option<Seq<char>> {
    match s {
        Some(x) => Some(x@),
        None => None,
    }
}

pub open spec fn view_of_spectype(t: SpecType) -> SpecTypeV
    decreases t,
{
    match t {
        SpecType::Leaf => SpecTypeV::Leaf,
        SpecType::Variant(e, cont) => SpecTypeV::Variant(
            VariantExprV { specs: view_of_specs((*e).specs@) },
            view_of_cont(cont),
        ),
        SpecType::Match(m, cont) => SpecTypeV::Match(
            MatchExprV { cases: view_of_cases((*m).cases@) },
            view_of_cont(cont),
        ),
    }
}

pub open spec fn view_of_cont(c: Option<Box<Spec>>) -> Option<Box<SpecV>>
    decreases c,
{
    match c {
        Some(b) => Some(Box::new(view_of_spec(*b))),
        None => None,
    }
}

pub open spec fn view_of_specs(v: Seq<Spec>) -> Seq<SpecV>
    decreases v,
{
    if v.len() == 0 {
        Seq::empty()
    } else {
        seq![view_of_spec(v[0])] + view_of_specs(v.drop_first())
    }
}

pub open spec fn view_of_cases(v: Seq<(Expr, Spec)>) -> Seq<(ExprV, SpecV)>
    decreases v,
{
    if v.len() == 0 {
        Seq::empty()
    } else {
        seq![(v[0].0@, view_of_spec(v[0].1))] + view_of_cases(v.drop_first())
    }
}

impl View for Expr {
    type V = ExprV;

    open spec fn view(&self) -> ExprV {
        match self {
            Expr::Os(l) => ExprV::Os(l.deep_view()),
            Expr::Host(l) => ExprV::Host(l.deep_view()),
            Expr::Any => ExprV::Any,
        }
    }
}

impl View for Spec {
    type V = SpecV;

    open spec fn view(&self) -> SpecV {
        view_of_spec(*self)
    }
}

impl DeepView for Spec {
    type V = SpecV;

    open spec fn deep_view(&self) -> SpecV {
        view_of_spec(*self)
    }
}

impl View for SpecType {
    type V = SpecTypeV;

    open spec fn view(&self) -> SpecTypeV {
        view_of_spectype(*self)
    }
}

impl View for VariantExpr {
    type V = VariantExprV;

    open spec fn view(&self) -> VariantExprV {
        VariantExprV { specs: view_of_specs(self.specs@) }
    }
}

impl View for MatchExpr {
    type V = MatchExprV;

    open spec fn view(&self) -> MatchExprV {
        MatchExprV { cases: view_of_cases(self.cases@) }
    }
}

impl View for Entry {
    type V = EntryV;

    open spec fn view(&self) -> EntryV {
        EntryV {
            left: view_of_spec(self.left),
            right: match self.right {
                Some(r) => Some(view_of_spec(r)),
                None => None,
            },
        }
    }
}

/// Appending one spec to a list appends its view.
pub proof fn lemma_view_of_specs_push(v: Seq<Spec>, x: Spec)
    ensures
        view_of_specs(v.push(x)) == view_of_specs(v) + seq![view_of_spec(x)],
    decreases v.len(),
{
    if v.len() == 0 {
        assert(v.push(x)[0] == x);
        assert(v.push(x).drop_first() =~= Seq::<Spec>::empty());
        assert(v =~= Seq::<Spec>::empty());
        assert(view_of_specs(v.push(x)) =~= view_of_specs(v) + seq![view_of_spec(x)]);
    } else {
        assert(v.push(x).drop_first() =~= v.drop_first().push(x));
        assert(v.push(x)[0] == v[0]);
        lemma_view_of_specs_push(v.drop_first(), x);
        assert(view_of_specs(v.push(x)) =~= view_of_specs(v) + seq![view_of_spec(x)]);
    }
}

/// Appending one case to a list appends its view.
pub proof fn lemma_view_of_cases_push(v: Seq<(Expr, Spec)>, x: (Expr, Spec))
    ensures
        view_of_cases(v.push(x)) == view_of_cases(v) + seq![(x.0@, view_of_spec(x.1))],
    decreases v.len(),
{
    if v.len() == 0 {
        assert(v.push(x)[0] == x);
        assert(v.push(x).drop_first() =~= Seq::<(Expr, Spec)>::empty());
        assert(v =~= Seq::<(Expr, Spec)>::empty());
        assert(view_of_cases(v.push(x)) =~= view_of_cases(v) + seq![(x.0@, view_of_spec(x.1))]);
    } else {
        assert(v.push(x).drop_first() =~= v.drop_first().push(x));
        assert(v.push(x)[0] == v[0]);
        lemma_view_of_cases_push(v.drop_first(), x);
        assert(view_of_cases(v.push(x)) =~= view_of_cases(v) + seq![(x.0@, view_of_spec(x.1))]);
    }
}

impl DeepView for Entry {
    type V = EntryV;

    open spec fn deep_view(&self) -> EntryV {
        self.view()
    }
}

// ------------------------------------------------------------------
// Cardinality: how many strings a spec denotes.
// ------------------------------------------------------------------

/// The number of distinct strings a spec can generate: a plain literal
/// denotes one string, a variant multiplies the sum of its alternatives
/// by its continuation, and a match contributes its continuation alone,
/// since exactly one branch is live per generation.
pub open spec fn spec_count(s: SpecV) -> nat
    decreases s,
{
    match s.spectype {
        SpecTypeV::Leaf => 1,
        SpecTypeV::Match(_, cont) => cont_count(cont),
        SpecTypeV::Variant(e, cont) => variant_count(e.specs) * cont_count(cont),
    }
}

pub open spec fn cont_count(c: Option<Box<SpecV>>) -> nat
    decreases c,
{
    match c {
        Some(b) => spec_count(*b),
        None => 1,
    }
}

pub open spec fn variant_count(specs: Seq<SpecV>) -> nat
    decreases specs,
{
    if specs.len() == 0 {
        0
    } else {
        spec_count(specs[0]) + variant_count(specs.drop_first())
    }
}

/// Whether the checked arithmetic of `nr_of_options` goes through without
/// overflowing `usize` at any intermediate step.
pub open spec fn count_ok(s: SpecV) -> bool
    decreases s,
{
    match s.spectype {
        SpecTypeV::Leaf => true,
        SpecTypeV::Match(_, cont) => cont_count_ok(cont),
        SpecTypeV::Variant(e, cont) => variant_count_ok(e.specs) && cont_count_ok(cont)
            && variant_count(e.specs) * cont_count(cont) <= usize::MAX,
    }
}

pub open spec fn cont_count_ok(c: Option<Box<SpecV>>) -> bool
    decreases c,
{
    match c {
        Some(b) => count_ok(*b),
        None => true,
    }
}

pub open spec fn variant_count_ok(specs: Seq<SpecV>) -> bool
    decreases specs,
{
    &&& (forall|i: int| 0 <= i < specs.len() ==> count_ok(#[trigger] specs[i]))
    &&& variant_count(specs) <= usize::MAX
}

impl Spec {
    /// Returns the spec's option count, or `None` if computing it would
    /// overflow `usize`.
    pub fn nr_of_options(&self) -> (r: Option<usize>)
        ensures
            match r {
                Some(n) => count_ok(self@) && n == spec_count(self@),
                None => !count_ok(self@),
            },
        decreases *self,
    {
        match &self.spectype {
            SpecType::Leaf => Some(1),
            SpecType::Match(_, spec) => match spec {
                Some(s) => s.nr_of_options(),
                None => Some(1),
            },
            SpecType::Variant(expr, spec) => {
                let exprnr = match expr.nr_of_options() {
                    Some(n) => n,
                    None => {
                        return None;
                    }
                };
                let specnr = match spec {
                    Some(s) => match s.nr_of_options() {
                        Some(n) => n,
                        None => {
                            return None;
                        }
                    },
                    None => 1,
                };
                exprnr.checked_mul(specnr)
            }
        }
    }
}

impl VariantExpr {
    /// Returns the sum of the alternatives' option counts, or `None` if
    /// the sum overflows `usize`.
    pub fn nr_of_options(&self) -> (r: Option<usize>)
        ensures
            match r {
                Some(n) => variant_count_ok(self@.specs) && n == variant_count(self@.specs),
                None => !variant_count_ok(self@.specs),
            },
        decreases *self,
    {
        let ghost all = self@.specs;
        proof {
            lemma_view_of_specs_len(self.specs@);
            assert(all.take(0) =~= Seq::<SpecV>::empty());
        }
        let mut nr: usize = 0;
        let mut i: usize = 0;
        while i < self.specs.len()
            invariant
                0 <= i <= self.specs.len(),
                all == view_of_specs(self.specs@),
                all.len() == self.specs@.len(),
                forall|j: int| 0 <= j < i ==> count_ok(#[trigger] all[j]),
                nr == variant_count(all.take(i as int)),
            decreases self.specs.len() - i,
        {
            proof {
                lemma_view_of_specs_index(self.specs@, i as int);
            }
            let specnr = match self.specs[i].nr_of_options() {
                Some(n) => n,
                None => {
                    proof {
                        assert(!count_ok(all[i as int]));
                    }
                    return None;
                }
            };
            let next = match specnr.checked_add(nr) {
                Some(n) => n,
                None => {
                    proof {
                        lemma_variant_count_take_step(all, i as int);
                        lemma_variant_count_take_le(all, i + 1);
                    }
                    return None;
                }
            };
            proof {
                lemma_variant_count_take_step(all, i as int);
            }
            nr = next;
            i = i + 1;
        }
        proof {
            assert(all.take(all.len() as int) =~= all);
        }
        Some(nr)
    }
}

/// The length of `view_of_specs` matches its input, elementwise.
pub proof fn lemma_view_of_specs_index(v: Seq<Spec>, i: int)
    requires
        0 <= i < v.len(),
    ensures
        view_of_specs(v).len() == v.len(),
        view_of_specs(v)[i] == view_of_spec(v[i]),
    decreases v.len(),
{
    lemma_view_of_specs_len(v);
    if i > 0 {
        lemma_view_of_specs_index(v.drop_first(), i - 1);
    }
}

pub proof fn lemma_view_of_specs_len(v: Seq<Spec>)
    ensures
        view_of_specs(v).len() == v.len(),
    decreases v.len(),
{
    if v.len() > 0 {
        lemma_view_of_specs_len(v.drop_first());
    }
}

/// Extending a prefix by one element adds that element's count.
pub proof fn lemma_variant_count_take_step(specs: Seq<SpecV>, i: int)
    requires
        0 <= i < specs.len(),
    ensures
        variant_count(specs.take(i + 1)) == variant_count(specs.take(i)) + spec_count(specs[i]),
    decreases i,
{
    if i == 0 {
        assert(specs.take(1) =~= seq![specs[0]]);
        assert(specs.take(1).drop_first() =~= Seq::<SpecV>::empty());
        assert(specs.take(0) =~= Seq::<SpecV>::empty());
    } else {
        assert(specs.take(i + 1).drop_first() =~= specs.drop_first().take(i));
        assert(specs.take(i).drop_first() =~= specs.drop_first().take(i - 1));
        lemma_variant_count_take_step(specs.drop_first(), i - 1);
    }
}

/// A prefix never counts more than the whole list.
pub proof fn lemma_variant_count_take_le(specs: Seq<SpecV>, i: int)
    requires
        0 <= i <= specs.len(),
    ensures
        variant_count(specs.take(i)) <= variant_count(specs),
    decreases specs.len() - i,
{
    if i < specs.len() {
        lemma_variant_count_take_step(specs, i);
        lemma_variant_count_take_le(specs, i + 1);
    } else {
        assert(specs.take(i) =~= specs);
    }
}

// ------------------------------------------------------------------
// Predicate resolution. The environment a predicate is evaluated
// against is passed in explicitly as an `(os, hostname)` pair, so the
// engine can be run against arbitrary environments.
// ------------------------------------------------------------------

/// Whether `x` occurs among `names`.
pub open spec fn has_name(names: Seq<Seq<char>>, x: Seq<char>) -> bool {
    exists|i: int| 0 <= i < names.len() && names[i] == x
}

/// Whether a predicate holds of the given environment.
pub open spec fn expr_holds(e: ExprV, os: Seq<char>, host: Seq<char>) -> bool {
    match e {
        ExprV::Os(names) => has_name(names, os),
        ExprV::Host(names) => has_name(names, host),
        ExprV::Any => true,
    }
}

/// The first case, in declared order, whose predicate holds; `None` if
/// no case matches.
pub open spec fn resolve_cases(cases: Seq<(ExprV, SpecV)>, os: Seq<char>, host: Seq<char>) -> Option<
    SpecV,
>
    decreases cases,
{
    if cases.len() == 0 {
        None
    } else if expr_holds(cases[0].0, os, host) {
        Some(cases[0].1)
    } else {
        resolve_cases(cases.drop_first(), os, host)
    }
}

/// Compares two string slices by contents.
pub fn str_eq(a: &str, b: &str) -> (r: bool)
    ensures
        r == (a@ == b@),
{
    let s = a.to_owned();
    let t = b.to_owned();
    s == t
}

impl Expr {
    /// Whether this predicate holds of the environment `(os, host)`.
    pub fn is_true(&self, os: &str, host: &str) -> (r: bool)
        ensures
            r == expr_holds(self@, os@, host@),
    {
        match self {
            Expr::Any => true,
            Expr::Os(names) => contains_str(names, os),
            Expr::Host(names) => contains_str(names, host),
        }
    }
}

fn contains_str(names: &Vec<String>, x: &str) -> (r: bool)
    ensures
        r == has_name(names.deep_view(), x@),
{
    let mut i: usize = 0;
    while i < names.len()
        invariant
            0 <= i <= names.len(),
            forall|j: int| 0 <= j < i ==> names.deep_view()[j] != x@,
        decreases names.len() - i,
    {
        if str_eq(names[i].as_str(), x) {
            assert(names.deep_view()[i as int] == x@);
            return true;
        }
        i = i + 1;
    }
    false
}

impl MatchExpr {
    /// The spec of the first case whose predicate holds of `(os, host)`,
    /// or `None` if no case matches. A match is not required to carry a
    /// `default` case: one that resolves to nothing is legal and simply
    /// contributes no strings at generation time.
    pub fn resolve(&self, os: &str, host: &str) -> (r: Option<&Spec>)
        ensures
            match r {
                Some(s) => resolve_cases(self@.cases, os@, host@) == Some(s@) && exists|i: int|
                    0 <= i < self.cases@.len() && *s == (#[trigger] self.cases@[i]).1,
                None => resolve_cases(self@.cases, os@, host@) is None,
            },
    {
        let ghost all = self@.cases;
        proof {
            assert(all.skip(0) =~= all);
        }
        let mut i: usize = 0;
        while i < self.cases.len()
            invariant
                0 <= i <= self.cases.len(),
                all == view_of_cases(self.cases@),
                resolve_cases(all, os@, host@) == resolve_cases(all.skip(i as int), os@, host@),
            decreases self.cases.len() - i,
        {
            proof {
                lemma_view_of_cases_index(self.cases@, i as int);
            }
            let (expr, spec) = &self.cases[i];
            if expr.is_true(os, host) {
                proof {
                    assert(all.skip(i as int)[0] == all[i as int]);
                    assert(*spec == (self.cases@[i as int]).1);
                }
                return Some(spec);
            }
            proof {
                assert(all.skip(i as int).drop_first() =~= all.skip(i + 1));
            }
            i = i + 1;
        }
        proof {
            lemma_view_of_cases_index_len(self.cases@);
            assert(all.skip(all.len() as int) =~= Seq::<(ExprV, SpecV)>::empty());
        }
        None
    }
}

pub proof fn lemma_view_of_cases_index_len(v: Seq<(Expr, Spec)>)
    ensures
        view_of_cases(v).len() == v.len(),
    decreases v.len(),
{
    if v.len() > 0 {
        lemma_view_of_cases_index_len(v.drop_first());
    }
}

pub proof fn lemma_view_of_cases_index(v: Seq<(Expr, Spec)>, i: int)
    requires
        0 <= i < v.len(),
    ensures
        view_of_cases(v).len() == v.len(),
        view_of_cases(v)[i] == (v[i].0@, view_of_spec(v[i].1)),
    decreases v.len(),
{
    lemma_view_of_cases_index_len(v);
    if i > 0 {
        lemma_view_of_cases_index(v.drop_first(), i - 1);
    }
}

// ------------------------------------------------------------------
// Builders.
// ------------------------------------------------------------------

impl SpecType {
    /// Wraps the alternatives and continuation into a variant node.
    pub fn variant_expr(specs: Vec<Spec>, rest: Option<Spec>) -> (r: Self)
        ensures
            r@ == SpecTypeV::Variant(
                VariantExprV { specs: view_of_specs(specs@) },
                match rest {
                    Some(s) => Some(Box::new(s@)),
                    None => None,
                },
            ),
    {
        let r = SpecType::Variant(
            Box::new(VariantExpr { specs }),
            match rest {
                Some(s) => Some(Box::new(s)),
                None => None,
            },
        );
        r
    }

    /// Wraps the cases and continuation into a match node.
    pub fn match_expr(cases: Vec<(Expr, Spec)>, rest: Option<Spec>) -> (r: Self)
        ensures
            r@ == SpecTypeV::Match(
                MatchExprV { cases: view_of_cases(cases@) },
                match rest {
                    Some(s) => Some(Box::new(s@)),
                    None => None,
                },
            ),
    {
        let r = SpecType::Match(
            Box::new(MatchExpr { cases }),
            match rest {
                Some(s) => Some(Box::new(s)),
                None => None,
            },
        );
        r
    }
}

impl From<String> for Spec {
    /// A bare literal spec.
    fn from(s: String) -> (r: Spec) {
        Spec { string: Some(s), spectype: SpecType::Leaf }
    }
}

impl vstd::std_specs::convert::FromSpecImpl<String> for Spec {
    open spec fn obeys_from_spec() -> bool {
        true
    }

    open spec fn from_spec(s: String) -> Spec {
        Spec { string: Some(s), spectype: SpecType::Leaf }
    }
}

impl<'a> From<&'a str> for Spec {
    /// A bare literal spec, copying the slice.
    fn from(s: &'a str) -> (r: Spec) {
        Spec { string: Some(s.to_owned()), spectype: SpecType::Leaf }
    }
}

impl<'a> vstd::std_specs::convert::FromSpecImpl<&'a str> for Spec {
    // The `String` the conversion allocates has no spec-level identity,
    // so nothing is claimed of this conversion.
    open spec fn obeys_from_spec() -> bool {
        false
    }

    open spec fn from_spec(s: &'a str) -> Spec {
        Spec { string: None, spectype: SpecType::Leaf }
    }
}

impl From<SpecType> for Spec {
    /// A spec with no literal prefix around the given node.
    fn from(t: SpecType) -> (r: Spec) {
        Spec { string: None, spectype: t }
    }
}

impl vstd::std_specs::convert::FromSpecImpl<SpecType> for Spec {
    open spec fn obeys_from_spec() -> bool {
        true
    }

    open spec fn from_spec(t: SpecType) -> Spec {
        Spec { string: None, spectype: t }
    }
}

} // verus!
