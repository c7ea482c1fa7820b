//! The classifier: a recursive boolean expression tree over attributes and
//! literal values, evaluated purely against one context.

use vstd::prelude::*;
use crate::attribute::Attribute;
use crate::attribute::AttributeResolutionError;
use crate::attribute::Context;
use crate::attribute::SpecAttr;
use crate::attribute::spec_resolve;
use crate::values::SpecVal;
use crate::values::Value;
use crate::values::spec_truthy;
use crate::values::wf_val;

verus! {

/// A boolean expression node. Leaf predicates pair one attribute with one
/// literal; combinators hold only nested classifiers or a literal operand.
#[allow(non_camel_case_types)]
#[allow(inconsistent_fields)]
#[derive(Debug, PartialEq)]
pub enum Classifier {
    /// Satisfied when the attribute resolves to a string that the pattern
    /// matches anywhere (an unanchored search).
    REGEXMATCH { attribute: Attribute, value: Value },
    /// Satisfied when every child is satisfied; vacuously true when empty.
    ALL { value: Vec<Classifier> },
    /// Satisfied when at least one child is satisfied; false when empty.
    ANY { value: Vec<Classifier> },
    /// Negation: of a nested classifier's outcome, or of a literal's
    /// truthiness.
    NOT { value: Value },
    LT { attribute: Attribute, value: Value },
    GT { attribute: Attribute, value: Value },
    GTE { attribute: Attribute, value: Value },
    LTE { attribute: Attribute, value: Value },
    EQ { attribute: Attribute, value: Value },
}

/// The mathematical image of a [`Classifier`].
pub enum SpecClassifier {
    RegexMatch(SpecAttr, SpecVal),
    All(Seq<SpecClassifier>),
    Any(Seq<SpecClassifier>),
    Not(SpecVal),
    Lt(SpecAttr, SpecVal),
    Gt(SpecAttr, SpecVal),
    Gte(SpecAttr, SpecVal),
    Lte(SpecAttr, SpecVal),
    Eq(SpecAttr, SpecVal),
}

impl View for Classifier {
    type V = SpecClassifier;

    open spec fn view(&self) -> SpecClassifier
        decreases self,
    {
        match self {
            Classifier::REGEXMATCH { attribute, value } => SpecClassifier::RegexMatch(
                attribute@,
                value@,
            ),
            Classifier::ALL { value } => SpecClassifier::All(view_classifiers(value@)),
            Classifier::ANY { value } => SpecClassifier::Any(view_classifiers(value@)),
            Classifier::NOT { value } => SpecClassifier::Not(value@),
            Classifier::LT { attribute, value } => SpecClassifier::Lt(attribute@, value@),
            Classifier::GT { attribute, value } => SpecClassifier::Gt(attribute@, value@),
            Classifier::GTE { attribute, value } => SpecClassifier::Gte(attribute@, value@),
            Classifier::LTE { attribute, value } => SpecClassifier::Lte(attribute@, value@),
            Classifier::EQ { attribute, value } => SpecClassifier::Eq(attribute@, value@),
        }
    }
}

/// The views of a sequence of classifiers, element by element.
pub open spec fn view_classifiers(s: Seq<Classifier>) -> Seq<SpecClassifier>
    decreases s,
{
    if s.len() == 0 {
        Seq::empty()
    } else {
        view_classifiers(s.drop_last()).push(s.last()@)
    }
}

pub broadcast proof fn lemma_view_classifiers_len(s: Seq<Classifier>)
    ensures
        #[trigger] view_classifiers(s).len() == s.len(),
    decreases s,
{
    if s.len() > 0 {
        lemma_view_classifiers_len(s.drop_last());
        assert(view_classifiers(s) == view_classifiers(s.drop_last()).push(s.last()@));
    } else {
        assert(view_classifiers(s) == Seq::<SpecClassifier>::empty());
    }
}

pub broadcast proof fn lemma_view_classifiers_index(s: Seq<Classifier>, i: int)
    requires
        0 <= i < s.len(),
    ensures
        #[trigger] view_classifiers(s)[i] == s[i]@,
    decreases s,
{
    lemma_view_classifiers_len(s);
    assert(view_classifiers(s) == view_classifiers(s.drop_last()).push(s.last()@));
    lemma_view_classifiers_len(s.drop_last());
    if i < s.len() - 1 {
        lemma_view_classifiers_index(s.drop_last(), i);
        assert(s.drop_last()[i] == s[i]);
    } else {
        assert(view_classifiers(s)[i] == s.last()@);
    }
}

/// The view of a classifier, spelled out constructor by constructor.
pub broadcast proof fn lemma_classifier_view(c: Classifier)
    ensures
        #[trigger] c@ == (match c {
            Classifier::REGEXMATCH { attribute, value } => SpecClassifier::RegexMatch(
                attribute@,
                value@,
            ),
            Classifier::ALL { value } => SpecClassifier::All(view_classifiers(value@)),
            Classifier::ANY { value } => SpecClassifier::Any(view_classifiers(value@)),
            Classifier::NOT { value } => SpecClassifier::Not(value@),
            Classifier::LT { attribute, value } => SpecClassifier::Lt(attribute@, value@),
            Classifier::GT { attribute, value } => SpecClassifier::Gt(attribute@, value@),
            Classifier::GTE { attribute, value } => SpecClassifier::Gte(attribute@, value@),
            Classifier::LTE { attribute, value } => SpecClassifier::Lte(attribute@, value@),
            Classifier::EQ { attribute, value } => SpecClassifier::Eq(attribute@, value@),
        }),
{
    assert(c@ == (match c {
        Classifier::REGEXMATCH { attribute, value } => SpecClassifier::RegexMatch(
            attribute@,
            value@,
        ),
        Classifier::ALL { value } => SpecClassifier::All(view_classifiers(value@)),
        Classifier::ANY { value } => SpecClassifier::Any(view_classifiers(value@)),
        Classifier::NOT { value } => SpecClassifier::Not(value@),
        Classifier::LT { attribute, value } => SpecClassifier::Lt(attribute@, value@),
        Classifier::GT { attribute, value } => SpecClassifier::Gt(attribute@, value@),
        Classifier::GTE { attribute, value } => SpecClassifier::Gte(attribute@, value@),
        Classifier::LTE { attribute, value } => SpecClassifier::Lte(attribute@, value@),
        Classifier::EQ { attribute, value } => SpecClassifier::Eq(attribute@, value@),
    }));
}

/// The discriminator strings the codec recognizes as classifier tags.
pub open spec fn recognized_tag(t: Seq<char>) -> bool {
    ||| t == "re.match"@
    ||| t == "bool.all"@
    ||| t == "bool.any"@
    ||| t == "bool.none"@
    ||| t == "comparison.lt"@
    ||| t == "comparison.gt"@
    ||| t == "comparison.gte"@
    ||| t == "comparison.lte"@
    ||| t == "comparison.eq"@
}

/// An attribute the codec can round-trip: an embedded literal lies in the
/// machine range.
pub open spec fn wf_attr(a: SpecAttr) -> bool {
    match a {
        SpecAttr::StaticNumber(n) => -0x8000_0000_0000_0000 <= n <= 0x7fff_ffff_ffff_ffff,
        _ => true,
    }
}

/// A classifier the codec can round-trip: every literal in it is well formed.
pub open spec fn wf_classifier(c: SpecClassifier) -> bool
    decreases c,
{
    match c {
        SpecClassifier::RegexMatch(a, lit) => wf_attr(a) && wf_val(lit),
        SpecClassifier::All(cs) => forall|i: int|
            0 <= i < cs.len() ==> wf_classifier(#[trigger] cs[i]),
        SpecClassifier::Any(cs) => forall|i: int|
            0 <= i < cs.len() ==> wf_classifier(#[trigger] cs[i]),
        SpecClassifier::Not(v) => wf_val(v),
        SpecClassifier::Lt(a, lit) => wf_attr(a) && wf_val(lit),
        SpecClassifier::Gt(a, lit) => wf_attr(a) && wf_val(lit),
        SpecClassifier::Gte(a, lit) => wf_attr(a) && wf_val(lit),
        SpecClassifier::Lte(a, lit) => wf_attr(a) && wf_val(lit),
        SpecClassifier::Eq(a, lit) => wf_attr(a) && wf_val(lit),
    }
}

/// Whether some compiled form of `pattern` exists: exactly when
/// regex::Regex::new succeeds on it.
pub uninterp spec fn regex_valid(pattern: Seq<char>) -> bool;

/// The outcome of an unanchored search of `pattern` in `text`, a function of
/// the two strings alone.
pub uninterp spec fn regex_match(pattern: Seq<char>, text: Seq<char>) -> bool;

/// Relies on regex::Regex::new, which compiles exactly the valid patterns,
/// and regex::Regex::is_match, an unanchored search whose outcome depends on
/// the pattern and the haystack alone.
#[verifier::external_body]
fn regex_match_str(pattern: &str, text: &str) -> (r: Option<bool>)
    ensures
        r == if regex_valid(pattern@) {
            Option::Some(regex_match(pattern@, text@))
        } else {
            Option::None::<bool>
        },
{
    match regex::Regex::new(pattern) {
        Result::Ok(re) => Option::Some(re.is_match(text)),
        Result::Err(_) => Option::None,
    }
}

/// Whether a resolved value satisfies a regex-match leaf: both sides must be
/// strings and the pattern must compile; any failure degrades to false.
pub open spec fn spec_regex_sat(resolved: SpecVal, lit: SpecVal) -> bool {
    match (resolved, lit) {
        (SpecVal::Str(text), SpecVal::Str(pattern)) => regex_valid(pattern) && regex_match(
            pattern,
            text,
        ),
        _ => false,
    }
}

/// The comparison operators a leaf can apply to two numbers.
pub enum CmpOp {
    Lt,
    Gt,
    Gte,
    Lte,
}

/// Whether a resolved value satisfies a numeric comparison leaf: both sides
/// must be numbers; any other pairing is not satisfied.
pub open spec fn spec_cmp_sat(op: CmpOp, resolved: SpecVal, lit: SpecVal) -> bool {
    match (resolved, lit) {
        (SpecVal::Num(m), SpecVal::Num(n)) => match op {
            CmpOp::Lt => m < n,
            CmpOp::Gt => m > n,
            CmpOp::Gte => m >= n,
            CmpOp::Lte => m <= n,
        },
        _ => false,
    }
}

/// Whether a resolved value equals a literal: string against string or number
/// against number only; no pairing across variants is ever coerced.
pub open spec fn spec_eq_sat(resolved: SpecVal, lit: SpecVal) -> bool {
    match (resolved, lit) {
        (SpecVal::Num(m), SpecVal::Num(n)) => m == n,
        (SpecVal::Str(t), SpecVal::Str(s)) => t == s,
        _ => false,
    }
}

/// What evaluating a classifier returns, as a function of the tree and the
/// context alone: `None` exactly when a hostname lookup was reached and the
/// context has no hostname.
pub open spec fn spec_eval(c: SpecClassifier, ctx: crate::attribute::SpecContext) -> Option<bool>
    decreases c,
{
    match c {
        SpecClassifier::RegexMatch(a, lit) => match spec_resolve(a, ctx) {
            Option::Some(rv) => Option::Some(spec_regex_sat(rv, lit)),
            Option::None => Option::None,
        },
        SpecClassifier::All(cs) => spec_eval_all(cs, ctx),
        SpecClassifier::Any(cs) => spec_eval_any(cs, ctx),
        SpecClassifier::Not(v) => match v {
            SpecVal::Expr(inner) => match spec_eval(*inner, ctx) {
                Option::Some(b) => Option::Some(!b),
                Option::None => Option::None,
            },
            _ => Option::Some(!spec_truthy(v)),
        },
        SpecClassifier::Lt(a, lit) => spec_eval_cmp(CmpOp::Lt, a, lit, ctx),
        SpecClassifier::Gt(a, lit) => spec_eval_cmp(CmpOp::Gt, a, lit, ctx),
        SpecClassifier::Gte(a, lit) => spec_eval_cmp(CmpOp::Gte, a, lit, ctx),
        SpecClassifier::Lte(a, lit) => spec_eval_cmp(CmpOp::Lte, a, lit, ctx),
        SpecClassifier::Eq(a, lit) => match spec_resolve(a, ctx) {
            Option::Some(rv) => Option::Some(spec_eq_sat(rv, lit)),
            Option::None => Option::None,
        },
    }
}

/// A numeric comparison leaf: resolve, then compare.
pub open spec fn spec_eval_cmp(
    op: CmpOp,
    a: SpecAttr,
    lit: SpecVal,
    ctx: crate::attribute::SpecContext,
) -> Option<bool> {
    match spec_resolve(a, ctx) {
        Option::Some(rv) => Option::Some(spec_cmp_sat(op, rv, lit)),
        Option::None => Option::None,
    }
}

/// Conjunction over children in list order, short-circuiting on the first
/// false child; the empty list is vacuously true.
pub open spec fn spec_eval_all(cs: Seq<SpecClassifier>, ctx: crate::attribute::SpecContext) -> Option<
    bool,
>
    decreases cs,
{
    if cs.len() == 0 {
        Option::Some(true)
    } else {
        match spec_eval(cs[0], ctx) {
            Option::None => Option::None,
            Option::Some(false) => Option::Some(false),
            Option::Some(true) => spec_eval_all(cs.drop_first(), ctx),
        }
    }
}

/// Disjunction over children in list order, short-circuiting on the first
/// true child; the empty list is false.
pub open spec fn spec_eval_any(cs: Seq<SpecClassifier>, ctx: crate::attribute::SpecContext) -> Option<
    bool,
>
    decreases cs,
{
    if cs.len() == 0 {
        Option::Some(false)
    } else {
        match spec_eval(cs[0], ctx) {
            Option::None => Option::None,
            Option::Some(true) => Option::Some(true),
            Option::Some(false) => spec_eval_any(cs.drop_first(), ctx),
        }
    }
}

/// Truthiness of a literal as the negation combinator reads it.
pub fn truthy(v: &Value) -> (r: bool)
    ensures
        r == spec_truthy(v@),
{
    broadcast use
        crate::values::lemma_value_view,
        crate::values::lemma_view_values_len,
        crate::values::lemma_view_entries_len;

    match v {
        Value::Str(s) => !s.as_str().is_empty(),
        Value::Number(n) => n.micros != 0,
        Value::Boolean(b) => *b,
        Value::Array(items) => items.len() > 0,
        Value::Dict(entries) => entries.len() > 0,
        Value::Null => false,
        Value::Classifier(_) => true,
    }
}

impl Classifier {
    /// Evaluates this classifier against `ctx`. Every type or shape mismatch
    /// degrades to an unsatisfied leaf; only a failed hostname lookup aborts.
    #[verifier::loop_isolation(false)]
    pub fn eval(&self, ctx: &Context) -> (r: Result<bool, AttributeResolutionError>)
        ensures
            match spec_eval(self@, ctx@) {
                Option::Some(b) => r == Result::Ok::<bool, AttributeResolutionError>(b),
                Option::None => r == Result::Err::<bool, _>(
                    AttributeResolutionError::HostnameUnavailable,
                ),
            },
        decreases self,
    {
        broadcast use crate::values::lemma_value_view, lemma_classifier_view;

        match self {
            Classifier::REGEXMATCH { attribute, value } => match attribute.eval(ctx) {
                Result::Ok(resolved) => Result::Ok(regex_leaf_sat(&resolved, value)),
                Result::Err(e) => Result::Err(e),
            },
            Classifier::ALL { value } => {
                let n = value.len();
                proof {
                    lemma_view_classifiers_len(value@);
                    assert(view_classifiers(value@).skip(0) =~= view_classifiers(value@));
                }
                let mut i: usize = 0;
                while i < n
                    invariant
                        n == value@.len(),
                        0 <= i <= n,
                        spec_eval_all(view_classifiers(value@), ctx@) == spec_eval_all(
                            view_classifiers(value@).skip(i as int),
                            ctx@,
                        ),
                    decreases n - i,
                {
                    proof {
                        lemma_view_classifiers_len(value@);
                        lemma_view_classifiers_index(value@, i as int);
                        assert(decreases_to!(*self => (*self)->ALL_value));
                        assert(decreases_to!((*self)->ALL_value => value@[i as int]));
                        assert(decreases_to!(self => value@[i as int]));
                    }
                    let child = match value[i].eval(ctx) {
                        Result::Ok(b) => b,
                        Result::Err(e) => {
                            proof {
                                reveal_with_fuel(spec_eval_all, 2);
                                assert(view_classifiers(value@).skip(i as int)[0] == value@[i as int]@);
                            }
                            return Result::Err(e);
                        },
                    };
                    if !child {
                        proof {
                            reveal_with_fuel(spec_eval_all, 2);
                            assert(view_classifiers(value@).skip(i as int)[0] == value@[i as int]@);
                        }
                        return Result::Ok(false);
                    }
                    proof {
                        reveal_with_fuel(spec_eval_all, 2);
                        assert(view_classifiers(value@).skip(i as int)[0] == value@[i as int]@);
                        assert(view_classifiers(value@).skip(i as int).drop_first()
                            =~= view_classifiers(value@).skip(i as int + 1));
                    }
                    i = i + 1;
                }
                proof {
                    lemma_view_classifiers_len(value@);
                    assert(view_classifiers(value@).skip(n as int).len() == 0);
                }
                Result::Ok(true)
            },
            Classifier::ANY { value } => {
                let n = value.len();
                proof {
                    lemma_view_classifiers_len(value@);
                    assert(view_classifiers(value@).skip(0) =~= view_classifiers(value@));
                }
                let mut i: usize = 0;
                while i < n
                    invariant
                        n == value@.len(),
                        0 <= i <= n,
                        spec_eval_any(view_classifiers(value@), ctx@) == spec_eval_any(
                            view_classifiers(value@).skip(i as int),
                            ctx@,
                        ),
                    decreases n - i,
                {
                    proof {
                        lemma_view_classifiers_len(value@);
                        lemma_view_classifiers_index(value@, i as int);
                        assert(decreases_to!(*self => (*self)->ANY_value));
                        assert(decreases_to!((*self)->ANY_value => value@[i as int]));
                        assert(decreases_to!(self => value@[i as int]));
                    }
                    let child = match value[i].eval(ctx) {
                        Result::Ok(b) => b,
                        Result::Err(e) => {
                            proof {
                                reveal_with_fuel(spec_eval_any, 2);
                                assert(view_classifiers(value@).skip(i as int)[0] == value@[i as int]@);
                            }
                            return Result::Err(e);
                        },
                    };
                    if child {
                        proof {
                            reveal_with_fuel(spec_eval_any, 2);
                            assert(view_classifiers(value@).skip(i as int)[0] == value@[i as int]@);
                        }
                        return Result::Ok(true);
                    }
                    proof {
                        reveal_with_fuel(spec_eval_any, 2);
                        assert(view_classifiers(value@).skip(i as int)[0] == value@[i as int]@);
                        assert(view_classifiers(value@).skip(i as int).drop_first()
                            =~= view_classifiers(value@).skip(i as int + 1));
                    }
                    i = i + 1;
                }
                proof {
                    lemma_view_classifiers_len(value@);
                    assert(view_classifiers(value@).skip(n as int).len() == 0);
                }
                Result::Ok(false)
            },
            Classifier::NOT { value } => match value {
                Value::Classifier(inner) => match inner.eval(ctx) {
                    Result::Ok(b) => Result::Ok(!b),
                    Result::Err(e) => Result::Err(e),
                },
                _ => Result::Ok(!truthy(value)),
            },
            Classifier::LT { attribute, value } => match attribute.eval(ctx) {
                Result::Ok(resolved) => Result::Ok(cmp_leaf_sat(CmpOp::Lt, &resolved, value)),
                Result::Err(e) => Result::Err(e),
            },
            Classifier::GT { attribute, value } => match attribute.eval(ctx) {
                Result::Ok(resolved) => Result::Ok(cmp_leaf_sat(CmpOp::Gt, &resolved, value)),
                Result::Err(e) => Result::Err(e),
            },
            Classifier::GTE { attribute, value } => match attribute.eval(ctx) {
                Result::Ok(resolved) => Result::Ok(cmp_leaf_sat(CmpOp::Gte, &resolved, value)),
                Result::Err(e) => Result::Err(e),
            },
            Classifier::LTE { attribute, value } => match attribute.eval(ctx) {
                Result::Ok(resolved) => Result::Ok(cmp_leaf_sat(CmpOp::Lte, &resolved, value)),
                Result::Err(e) => Result::Err(e),
            },
            Classifier::EQ { attribute, value } => match attribute.eval(ctx) {
                Result::Ok(resolved) => Result::Ok(eq_leaf_sat(&resolved, value)),
                Result::Err(e) => Result::Err(e),
            },
        }
    }
}

/// Whether a resolved value satisfies a regex-match leaf.
fn regex_leaf_sat(resolved: &Value, lit: &Value) -> (r: bool)
    ensures
        r == spec_regex_sat(resolved@, lit@),
{
    broadcast use crate::values::lemma_value_view;

    match (resolved, lit) {
        (Value::Str(text), Value::Str(pattern)) => match regex_match_str(
            pattern.as_str(),
            text.as_str(),
        ) {
            Option::Some(m) => m,
            Option::None => false,
        },
        _ => false,
    }
}

/// Whether a resolved value satisfies a numeric comparison leaf.
fn cmp_leaf_sat(op: CmpOp, resolved: &Value, lit: &Value) -> (r: bool)
    ensures
        r == spec_cmp_sat(op, resolved@, lit@),
{
    broadcast use crate::values::lemma_value_view;

    match (resolved, lit) {
        (Value::Number(m), Value::Number(n)) => match op {
            CmpOp::Lt => m.micros < n.micros,
            CmpOp::Gt => m.micros > n.micros,
            CmpOp::Gte => m.micros >= n.micros,
            CmpOp::Lte => m.micros <= n.micros,
        },
        _ => false,
    }
}

/// Whether a resolved value equals a literal, with no cross-variant coercion.
fn eq_leaf_sat(resolved: &Value, lit: &Value) -> (r: bool)
    ensures
        r == spec_eq_sat(resolved@, lit@),
{
    broadcast use crate::values::lemma_value_view;

    match (resolved, lit) {
        (Value::Number(m), Value::Number(n)) => m.micros == n.micros,
        (Value::Str(t), Value::Str(s)) => t.eq(s),
        _ => false,
    }
}

/// Two classifier sequences equal view by view have one image.
pub proof fn lemma_view_classifiers_pointwise(a: Seq<Classifier>, b: Seq<Classifier>)
    requires
        a.len() == b.len(),
        forall|i: int| 0 <= i < a.len() ==> a[i]@ == #[trigger] b[i]@,
    ensures
        view_classifiers(a) == view_classifiers(b),
{
    lemma_view_classifiers_len(a);
    lemma_view_classifiers_len(b);
    assert forall|i: int| 0 <= i < a.len() implies view_classifiers(a)[i]
        == view_classifiers(b)[i] by {
        lemma_view_classifiers_index(a, i);
        lemma_view_classifiers_index(b, i);
    }
    assert(view_classifiers(a) =~= view_classifiers(b));
}

impl Classifier {
    /// A structurally equal copy of this classifier.
    #[verifier::loop_isolation(false)]
    pub fn duplicate(&self) -> (r: Classifier)
        ensures
            r@ == self@,
        decreases self, 1int,
    {
        broadcast use crate::values::lemma_value_view, lemma_classifier_view;

        match self {
            Classifier::REGEXMATCH { attribute, value } => Classifier::REGEXMATCH {
                attribute: *attribute,
                value: value.duplicate(),
            },
            Classifier::ALL { value } => Classifier::ALL { value: duplicate_classifiers(value, Ghost(*self)) },
            Classifier::ANY { value } => Classifier::ANY { value: duplicate_classifiers(value, Ghost(*self)) },
            Classifier::NOT { value } => Classifier::NOT { value: value.duplicate() },
            Classifier::LT { attribute, value } => Classifier::LT {
                attribute: *attribute,
                value: value.duplicate(),
            },
            Classifier::GT { attribute, value } => Classifier::GT {
                attribute: *attribute,
                value: value.duplicate(),
            },
            Classifier::GTE { attribute, value } => Classifier::GTE {
                attribute: *attribute,
                value: value.duplicate(),
            },
            Classifier::LTE { attribute, value } => Classifier::LTE {
                attribute: *attribute,
                value: value.duplicate(),
            },
            Classifier::EQ { attribute, value } => Classifier::EQ {
                attribute: *attribute,
                value: value.duplicate(),
            },
        }
    }
}

/// A copy of a classifier list, element by element.
#[verifier::loop_isolation(false)]
fn duplicate_classifiers(cs: &Vec<Classifier>, parent: Ghost<Classifier>) -> (r: Vec<Classifier>)
    requires
        decreases_to!(parent@ => cs@),
    ensures
        view_classifiers(r@) == view_classifiers(cs@),
    decreases parent@, 0int,
{
    let n = cs.len();
    let mut out: Vec<Classifier> = Vec::new();
    let mut i: usize = 0;
    while i < n
        invariant
            n == cs@.len(),
            0 <= i <= n,
            out@.len() == i,
            forall|j: int| 0 <= j < i ==> out@[j]@ == #[trigger] cs@[j]@,
        decreases n - i,
    {
        proof {
            assert(decreases_to!(cs@ => cs@[i as int]));
        }
        let copied = cs[i].duplicate();
        out.push(copied);
        i = i + 1;
    }
    proof {
        lemma_view_classifiers_pointwise(out@, cs@);
    }
    out
}

/// The empty conjunction is vacuously satisfied; the empty disjunction is
/// not.
pub proof fn lemma_empty_combinators(ctx: crate::attribute::SpecContext)
    ensures
        spec_eval(SpecClassifier::All(Seq::empty()), ctx) == Option::Some(true),
        spec_eval(SpecClassifier::Any(Seq::empty()), ctx) == Option::Some(false),
{
    assert(spec_eval_all(Seq::empty(), ctx) == Option::Some(true));
    assert(spec_eval_any(Seq::empty(), ctx) == Option::Some(false));
}

} // verus!
