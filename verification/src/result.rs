//! The outermost evaluation boundary: every lower failure degrades to the
//! caller's default, with an outcome code saying why.

use vstd::prelude::*;
use crate::attribute::Context;
use crate::attribute::SpecContext;
use crate::codec::spec_decode;
use crate::offline_feature::OfflineFeature;
use crate::offline_feature::default_name;
use crate::offline_feature::spec_evaluate;
use crate::offline_feature::spec_selected;
use crate::values::SpecVal;
use crate::values::Value;

verus! {

/// How an evaluation concluded, as the outermost caller observes it.
#[derive(Clone, Copy, Debug, PartialEq, Eq, Structural)]
pub enum EvalResultType {
    /// A bucket matched; its value was returned.
    Selected,
    /// No bucket matched; the feature's own default was returned.
    UsedDefault,
    /// No artifact text was available; the caller's default was returned.
    FeatureMissing,
    /// The artifact text did not decode; the caller's default was returned.
    DecodeFailed,
}

/// What the outermost evaluation returns: an outcome code, the selected
/// bucket's name where resolution ran, and the value handed back.
#[derive(Debug, PartialEq)]
pub struct EvalResult {
    pub result_type: EvalResultType,
    pub bucket_name: Option<String>,
    pub value: Value,
}

/// The mathematical image of an [`EvalResult`].
pub struct SpecEvalResult {
    pub result_type: EvalResultType,
    pub bucket_name: Option<Seq<char>>,
    pub value: SpecVal,
}

impl View for EvalResult {
    type V = SpecEvalResult;

    open spec fn view(&self) -> SpecEvalResult {
        SpecEvalResult {
            result_type: self.result_type,
            bucket_name: match self.bucket_name {
                Option::Some(n) => Option::Some(n@),
                Option::None => Option::None,
            },
            value: self.value@,
        }
    }
}

impl EvalResult {
    /// Assembles a result from its parts.
    pub fn new(result_type: EvalResultType, bucket_name: Option<String>, value: Value) -> (r:
        EvalResult)
        ensures
            r@ == (SpecEvalResult {
                result_type,
                bucket_name: match bucket_name {
                    Option::Some(n) => Option::Some(n@),
                    Option::None => Option::None::<Seq<char>>,
                },
                value: value@,
            }),
    {
        EvalResult { result_type, bucket_name, value }
    }
}

/// What evaluating an artifact's text returns, for every input: missing
/// text degrades to the caller's default, as does text that does not
/// decode; otherwise the feature is resolved and the outcome says whether a
/// bucket matched or the feature's default was used.
pub open spec fn spec_eval_outcome(
    content: Option<Seq<char>>,
    default: SpecVal,
    ctx: SpecContext,
) -> SpecEvalResult {
    match content {
        Option::None => SpecEvalResult {
            result_type: EvalResultType::FeatureMissing,
            bucket_name: Option::None,
            value: default,
        },
        Option::Some(s) => match spec_decode(s) {
            Option::None => SpecEvalResult {
                result_type: EvalResultType::DecodeFailed,
                bucket_name: Option::None,
                value: default,
            },
            Option::Some(f) => {
                let (name, value) = spec_evaluate(f, ctx);
                SpecEvalResult {
                    result_type: if spec_selected(f.buckets, ctx) is Some {
                        EvalResultType::Selected
                    } else {
                        EvalResultType::UsedDefault
                    },
                    bucket_name: Option::Some(name),
                    value,
                }
            },
        },
    }
}

/// Evaluates a feature artifact's text against a context, degrading every
/// lower failure to the caller's default. Deterministic: the result is a
/// function of the text, the default and the context alone.
pub fn eval(content: Option<&str>, default_value: Value, ctx: &Context) -> (r: EvalResult)
    ensures
        r@ == spec_eval_outcome(
            match content {
                Option::Some(s) => Option::Some(s@),
                Option::None => Option::None::<Seq<char>>,
            },
            default_value@,
            ctx@,
        ),
{
    match content {
        Option::None => EvalResult::new(EvalResultType::FeatureMissing, Option::None, default_value),
        Option::Some(text) => match OfflineFeature::loads(text) {
            Result::Err(_) => EvalResult::new(EvalResultType::DecodeFailed, Option::None, default_value),
            Result::Ok(f) => match f.get_bucket(ctx) {
                Option::Some(b) => EvalResult::new(
                    EvalResultType::Selected,
                    Option::Some(crate::values::clone_string(&b.name)),
                    b.value,
                ),
                Option::None => EvalResult::new(
                    EvalResultType::UsedDefault,
                    Option::Some(default_name()),
                    f.default.duplicate(),
                ),
            },
        },
    }
}

/// Determinism: one feature and one context admit one evaluation result.
/// Two results of resolving the same feature against the same context are
/// the same pair.
pub proof fn lemma_evaluate_deterministic(
    f: crate::offline_feature::SpecFeature,
    ctx: SpecContext,
    r1: (Seq<char>, SpecVal),
    r2: (Seq<char>, SpecVal),
)
    requires
        r1 == spec_evaluate(f, ctx),
        r2 == spec_evaluate(f, ctx),
    ensures
        r1 == r2,
{
}

} // verus!
