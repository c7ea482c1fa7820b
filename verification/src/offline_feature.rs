//! Named buckets and the ordered, first-match-wins bucket resolver.

use vstd::prelude::*;
use crate::attribute::Context;
use crate::attribute::SpecContext;
use crate::classifier::Classifier;
use crate::classifier::SpecClassifier;
use crate::classifier::spec_eval;
use crate::classifier::wf_classifier;
use crate::type_enum::FeatureType;
use crate::type_enum::PythonVersion;
use crate::values::SpecVal;
use crate::values::Value;
use crate::values::clone_string;
use crate::values::str_eq;
use crate::values::wf_val;

verus! {

/// The fault reported when a constructor rejects its arguments.
#[derive(Clone, Copy, Debug, PartialEq, Eq, Structural)]
pub enum ValidationError {
    /// "default" names the fallback, so no bucket may carry it.
    ReservedBucketName,
}

/// A named population segment: selected when its guarding classifier is
/// satisfied, yielding its value.
#[derive(Debug, PartialEq)]
pub struct Bucket {
    pub name: String,
    pub classifier: Classifier,
    pub value: Value,
}

/// The mathematical image of a [`Bucket`].
pub struct SpecBucket {
    pub name: Seq<char>,
    pub classifier: SpecClassifier,
    pub value: SpecVal,
}

impl View for Bucket {
    type V = SpecBucket;

    open spec fn view(&self) -> SpecBucket {
        SpecBucket { name: self.name@, classifier: self.classifier@, value: self.value@ }
    }
}

impl SpecBucket {
    /// A bucket the codec can round-trip: its name is not the reserved
    /// fallback name and its tree is well formed.
    pub open spec fn wf(self) -> bool {
        &&& self.name != "default"@
        &&& crate::json::str_printable(self.name)
        &&& wf_classifier(self.classifier)
        &&& wf_val(self.value)
    }
}

impl Bucket {
    /// Builds a bucket, rejecting the reserved name "default" whatever the
    /// classifier and value are.
    pub fn new(name: String, classifier: Classifier, value: Value) -> (r: Result<
        Bucket,
        ValidationError,
    >)
        ensures
            name@ == "default"@ ==> r == Result::Err::<Bucket, _>(
                ValidationError::ReservedBucketName,
            ),
            name@ != "default"@ ==> (r matches Result::Ok(b) && b@ == (SpecBucket {
                name: name@,
                classifier: classifier@,
                value: value@,
            })),
    {
        if str_eq(name.as_str(), "default") {
            Result::Err(ValidationError::ReservedBucketName)
        } else {
            Result::Ok(Bucket { name, classifier, value })
        }
    }

    /// A structurally equal copy of this bucket.
    pub fn duplicate(&self) -> (r: Bucket)
        ensures
            r@ == self@,
    {
        Bucket {
            name: clone_string(&self.name),
            classifier: self.classifier.duplicate(),
            value: self.value.duplicate(),
        }
    }
}

/// The views of a bucket sequence, element by element.
pub open spec fn view_buckets(s: Seq<Bucket>) -> Seq<SpecBucket> {
    s.map_values(|b: Bucket| b@)
}

/// One decoded feature artifact: ordered buckets and a default value, plus
/// opaque compatibility metadata. Immutable once built; evaluated any number
/// of times.
#[derive(Debug, PartialEq)]
pub struct OfflineFeature {
    pub feature_type: FeatureType,
    pub python_versions: Vec<PythonVersion>,
    pub buckets: Vec<Bucket>,
    pub default: Value,
}

/// The mathematical image of an [`OfflineFeature`].
pub struct SpecFeature {
    pub feature_type: FeatureType,
    pub python_versions: Seq<PythonVersion>,
    pub buckets: Seq<SpecBucket>,
    pub default: SpecVal,
}

impl View for OfflineFeature {
    type V = SpecFeature;

    open spec fn view(&self) -> SpecFeature {
        SpecFeature {
            feature_type: self.feature_type,
            python_versions: self.python_versions@,
            buckets: view_buckets(self.buckets@),
            default: self.default@,
        }
    }
}

impl SpecFeature {
    /// A feature the codec can round-trip: every bucket and the default are
    /// well formed.
    pub open spec fn wf(self) -> bool {
        &&& forall|i: int| 0 <= i < self.buckets.len() ==> (#[trigger] self.buckets[i]).wf()
        &&& wf_val(self.default)
    }
}

impl OfflineFeature {
    /// Assembles a feature from its parts.
    pub fn new(
        feature_type: FeatureType,
        python_versions: Vec<PythonVersion>,
        buckets: Vec<Bucket>,
        default: Value,
    ) -> (r: OfflineFeature)
        ensures
            r@ == (SpecFeature {
                feature_type,
                python_versions: python_versions@,
                buckets: view_buckets(buckets@),
                default: default@,
            }),
    {
        OfflineFeature { feature_type, python_versions, buckets, default }
    }
}

/// The bucket the resolver selects: the first, in declaration order, whose
/// classifier is satisfied. A bucket whose evaluation aborts on an
/// environment fault is passed over like an unsatisfied one.
pub open spec fn spec_selected(buckets: Seq<SpecBucket>, ctx: SpecContext) -> Option<SpecBucket>
    decreases buckets,
{
    if buckets.len() == 0 {
        Option::None
    } else {
        match spec_eval(buckets[0].classifier, ctx) {
            Option::Some(true) => Option::Some(buckets[0]),
            _ => spec_selected(buckets.drop_first(), ctx),
        }
    }
}

/// What one evaluation of a feature returns: the selected bucket's name and
/// value, or the reserved name "default" and the feature's default value.
pub open spec fn spec_evaluate(f: SpecFeature, ctx: SpecContext) -> (Seq<char>, SpecVal) {
    match spec_selected(f.buckets, ctx) {
        Option::Some(b) => (b.name, b.value),
        Option::None => ("default"@, f.default),
    }
}

/// First-match-wins: when the bucket at index `i` is the first satisfied
/// one, it is the selected bucket, whatever stands after it.
pub proof fn lemma_first_match_wins(buckets: Seq<SpecBucket>, ctx: SpecContext, i: int)
    requires
        0 <= i < buckets.len(),
        spec_eval(buckets[i].classifier, ctx) == Option::Some(true),
        forall|j: int| 0 <= j < i ==> spec_eval(
            (#[trigger] buckets[j]).classifier,
            ctx,
        ) != Option::Some(true),
    ensures
        spec_selected(buckets, ctx) == Option::Some(buckets[i]),
    decreases i,
{
    if i == 0 {
        assert(spec_selected(buckets, ctx) == Option::Some(buckets[0]));
    } else {
        lemma_first_match_wins(buckets.drop_first(), ctx, i - 1);
        assert(spec_selected(buckets, ctx) == spec_selected(buckets.drop_first(), ctx));
    }
}

impl OfflineFeature {
    /// Walks the buckets in order and returns a copy of the first whose
    /// classifier is satisfied; `None` when none is. An evaluation aborted
    /// by an environment fault counts as a non-match and the walk goes on.
    #[verifier::loop_isolation(false)]
    pub fn get_bucket(&self, ctx: &Context) -> (r: Option<Bucket>)
        ensures
            match spec_selected(self@.buckets, ctx@) {
                Option::Some(b) => r matches Option::Some(rb) && rb@ == b,
                Option::None => r is None,
            },
    {
        let n = self.buckets.len();
        proof {
            assert(view_buckets(self.buckets@).skip(0) =~= view_buckets(self.buckets@));
        }
        let mut i: usize = 0;
        while i < n
            invariant
                n == self.buckets@.len(),
                0 <= i <= n,
                spec_selected(view_buckets(self.buckets@), ctx@) == spec_selected(
                    view_buckets(self.buckets@).skip(i as int),
                    ctx@,
                ),
            decreases n - i,
        {
            proof {
                assert(view_buckets(self.buckets@).skip(i as int)[0] == self.buckets@[
                    i as int
                ]@);
            }
            let matched = match self.buckets[i].classifier.eval(ctx) {
                Result::Ok(b) => b,
                Result::Err(_) => false,
            };
            if matched {
                proof {
                    reveal_with_fuel(spec_selected, 2);
                }
                return Option::Some(self.buckets[i].duplicate());
            }
            proof {
                reveal_with_fuel(spec_selected, 2);
                assert(view_buckets(self.buckets@).skip(i as int).drop_first()
                    =~= view_buckets(self.buckets@).skip(i as int + 1));
            }
            i = i + 1;
        }
        proof {
            assert(view_buckets(self.buckets@).skip(n as int).len() == 0);
        }
        Option::None
    }

    /// The selected bucket's name, or "default" when no bucket matches.
    pub fn get_bucket_name(&self, ctx: &Context) -> (r: String)
        ensures
            r@ == spec_evaluate(self@, ctx@).0,
    {
        match self.get_bucket(ctx) {
            Option::Some(bucket) => bucket.name,
            Option::None => default_name(),
        }
    }

    /// The selected bucket's name and value, or ("default", the feature's
    /// default) when no bucket matches. Deterministic for a fixed context:
    /// the result is a function of the feature and the context alone.
    pub fn get_bucket_name_and_value(&self, ctx: &Context) -> (r: (String, Value))
        ensures
            (r.0@, r.1@) == spec_evaluate(self@, ctx@),
    {
        match self.get_bucket(ctx) {
            Option::Some(bucket) => (bucket.name, bucket.value),
            Option::None => (default_name(), self.default.duplicate()),
        }
    }

    /// The value a named bucket would yield: the feature's default under the
    /// reserved name, the first bucket of that name otherwise, and `None`
    /// when the name is unknown.
    #[verifier::loop_isolation(false)]
    pub fn get_value_for_bucket(&self, bucket_name: &str) -> (r: Option<Value>)
        ensures
            match spec_value_for(self@, bucket_name@) {
                Option::Some(v) => r matches Option::Some(rv) && rv@ == v,
                Option::None => r is None,
            },
    {
        if str_eq(bucket_name, "default") {
            return Option::Some(self.default.duplicate());
        }
        let n = self.buckets.len();
        proof {
            assert(view_buckets(self.buckets@).skip(0) =~= view_buckets(self.buckets@));
        }
        let mut i: usize = 0;
        while i < n
            invariant
                n == self.buckets@.len(),
                0 <= i <= n,
                spec_value_in(view_buckets(self.buckets@), bucket_name@) == spec_value_in(
                    view_buckets(self.buckets@).skip(i as int),
                    bucket_name@,
                ),
            decreases n - i,
        {
            proof {
                assert(view_buckets(self.buckets@).skip(i as int)[0] == self.buckets@[
                    i as int
                ]@);
            }
            if str_eq(self.buckets[i].name.as_str(), bucket_name) {
                proof {
                    reveal_with_fuel(spec_value_in, 2);
                }
                return Option::Some(self.buckets[i].value.duplicate());
            }
            proof {
                reveal_with_fuel(spec_value_in, 2);
                assert(view_buckets(self.buckets@).skip(i as int).drop_first()
                    =~= view_buckets(self.buckets@).skip(i as int + 1));
            }
            i = i + 1;
        }
        proof {
            assert(view_buckets(self.buckets@).skip(n as int).len() == 0);
        }
        Option::None
    }
}

/// The value the named bucket yields, by name alone: the default under the
/// reserved name, else the first bucket of that name.
pub open spec fn spec_value_for(f: SpecFeature, name: Seq<char>) -> Option<SpecVal> {
    if name == "default"@ {
        Option::Some(f.default)
    } else {
        spec_value_in(f.buckets, name)
    }
}

/// The value of the first bucket carrying `name`, in declaration order.
pub open spec fn spec_value_in(buckets: Seq<SpecBucket>, name: Seq<char>) -> Option<SpecVal>
    decreases buckets,
{
    if buckets.len() == 0 {
        Option::None
    } else if buckets[0].name == name {
        Option::Some(buckets[0].value)
    } else {
        spec_value_in(buckets.drop_first(), name)
    }
}

/// The reserved fallback name as an owned string.
pub fn default_name() -> (r: String)
    ensures
        r@ == "default"@,
{
    String::from_str("default")
}

} // verus!
