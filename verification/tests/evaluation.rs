//! Evaluation: resolution order, comparison semantics, degradation and the
//! session-random contract.

use offline_feature::attribute::Attribute;
use offline_feature::attribute::AttributeResolutionError;
use offline_feature::attribute::Context;
use offline_feature::attribute::fresh_session_random;
use offline_feature::classifier::Classifier;
use offline_feature::offline_feature::Bucket;
use offline_feature::offline_feature::OfflineFeature;
use offline_feature::result::EvalResult;
use offline_feature::result::EvalResultType;
use offline_feature::result::eval;
use offline_feature::type_enum::FeatureType;
use offline_feature::type_enum::PythonVersion;
use offline_feature::values::Number;
use offline_feature::values::Value;

fn num(units: i64) -> Value {
    Value::Number(Number::from_int(units))
}

fn text(s: &str) -> Value {
    Value::Str(String::from(s))
}

fn ctx_with_host(host: &str) -> Context {
    Context::new(Some(String::from(host)), Number::from_micros(250_000))
}

fn always() -> Classifier {
    Classifier::ALL { value: vec![] }
}

fn never() -> Classifier {
    Classifier::ANY { value: vec![] }
}

fn bucket(name: &str, classifier: Classifier, value: Value) -> Bucket {
    Bucket::new(String::from(name), classifier, value).unwrap()
}

fn feature(buckets: Vec<Bucket>, default: Value) -> OfflineFeature {
    OfflineFeature::new(FeatureType::Offline, vec![PythonVersion::All], buckets, default)
}

#[test]
fn static_number_gte_selects_bucket() {
    let f = feature(
        vec![bucket(
            "beta",
            Classifier::GTE {
                attribute: Attribute::StaticNumber { value: Number::from_int(5) },
                value: num(3),
            },
            num(7),
        )],
        num(0),
    );
    let (name, value) = f.get_bucket_name_and_value(&ctx_with_host("db-01"));
    assert_eq!(name, "beta");
    assert_eq!(value, num(7));
}

#[test]
fn empty_all_is_true_and_empty_any_is_false() {
    let f = feature(vec![bucket("any", never(), num(1)), bucket("all", always(), num(2))], num(0));
    let (name, value) = f.get_bucket_name_and_value(&ctx_with_host("h"));
    assert_eq!(name, "all");
    assert_eq!(value, num(2));
}

#[test]
fn first_match_wins_among_many() {
    let f = feature(
        vec![
            bucket("first", never(), num(1)),
            bucket("second", always(), num(2)),
            bucket("third", always(), num(3)),
        ],
        num(0),
    );
    let (name, value) = f.get_bucket_name_and_value(&ctx_with_host("h"));
    assert_eq!(name, "second");
    assert_eq!(value, num(2));
}

#[test]
fn regex_mismatch_falls_through_to_default() {
    let f = feature(
        vec![bucket(
            "web",
            Classifier::REGEXMATCH { attribute: Attribute::Hostname, value: text("^web-") },
            num(1),
        )],
        num(0),
    );
    let (name, value) = f.get_bucket_name_and_value(&ctx_with_host("db-01"));
    assert_eq!(name, "default");
    assert_eq!(value, num(0));
}

#[test]
fn regex_match_selects_bucket() {
    let f = feature(
        vec![bucket(
            "web",
            Classifier::REGEXMATCH { attribute: Attribute::Hostname, value: text("^web-") },
            num(1),
        )],
        num(0),
    );
    let (name, _) = f.get_bucket_name_and_value(&ctx_with_host("web-07"));
    assert_eq!(name, "web");
}

#[test]
fn invalid_regex_pattern_is_not_satisfied() {
    let c = Classifier::REGEXMATCH { attribute: Attribute::Hostname, value: text("[unclosed") };
    assert_eq!(c.eval(&ctx_with_host("anything")), Ok(false));
}

#[test]
fn bucket_named_default_is_rejected() {
    let r = Bucket::new(String::from("default"), always(), num(1));
    assert!(r.is_err());
}

#[test]
fn eq_never_coerces_across_variants() {
    let c = Classifier::EQ { attribute: Attribute::Hostname, value: num(5) };
    assert_eq!(c.eval(&ctx_with_host("5")), Ok(false));
    let c2 = Classifier::EQ { attribute: Attribute::Hostname, value: text("5") };
    assert_eq!(c2.eval(&ctx_with_host("5")), Ok(true));
}

#[test]
fn comparisons_on_non_numbers_are_not_satisfied() {
    let c = Classifier::LT { attribute: Attribute::Hostname, value: num(5) };
    assert_eq!(c.eval(&ctx_with_host("abc")), Ok(false));
    let c2 = Classifier::GT {
        attribute: Attribute::StaticNumber { value: Number::from_int(9) },
        value: text("3"),
    };
    assert_eq!(c2.eval(&ctx_with_host("abc")), Ok(false));
}

#[test]
fn not_reads_literal_truthiness() {
    let ctx = ctx_with_host("h");
    assert_eq!(Classifier::NOT { value: num(0) }.eval(&ctx), Ok(true));
    assert_eq!(Classifier::NOT { value: num(1) }.eval(&ctx), Ok(false));
    assert_eq!(Classifier::NOT { value: text("") }.eval(&ctx), Ok(true));
    assert_eq!(Classifier::NOT { value: text("x") }.eval(&ctx), Ok(false));
    assert_eq!(Classifier::NOT { value: Value::Boolean(false) }.eval(&ctx), Ok(true));
    assert_eq!(Classifier::NOT { value: Value::Array(vec![]) }.eval(&ctx), Ok(true));
    assert_eq!(Classifier::NOT { value: Value::Null }.eval(&ctx), Ok(true));
}

#[test]
fn not_negates_nested_classifier() {
    let ctx = ctx_with_host("h");
    let c = Classifier::NOT { value: Value::Classifier(Box::new(never())) };
    assert_eq!(c.eval(&ctx), Ok(true));
    let c2 = Classifier::NOT { value: Value::Classifier(Box::new(always())) };
    assert_eq!(c2.eval(&ctx), Ok(false));
}

#[test]
fn missing_hostname_aborts_one_classifier_only() {
    let ctx = Context::new(None, Number::from_micros(0));
    let c = Classifier::REGEXMATCH { attribute: Attribute::Hostname, value: text(".*") };
    assert_eq!(c.eval(&ctx), Err(AttributeResolutionError::HostnameUnavailable));
    let f = feature(
        vec![bucket("needs-host", c, num(1)), bucket("fallback", always(), num(2))],
        num(0),
    );
    let (name, value) = f.get_bucket_name_and_value(&ctx);
    assert_eq!(name, "fallback");
    assert_eq!(value, num(2));
}

#[test]
fn short_circuit_stops_before_hostname_fault() {
    let ctx = Context::new(None, Number::from_micros(0));
    let needs_host = Classifier::REGEXMATCH { attribute: Attribute::Hostname, value: text(".*") };
    let all = Classifier::ALL { value: vec![never(), needs_host.duplicate()] };
    assert_eq!(all.eval(&ctx), Ok(false));
}

#[test]
fn evaluation_is_deterministic_within_one_context() {
    let ctx = ctx_with_host("web-01");
    let f = feature(
        vec![bucket(
            "rollout",
            Classifier::LT { attribute: Attribute::SessionRandom, value: num(1) },
            num(1),
        )],
        num(0),
    );
    let first = f.get_bucket_name_and_value(&ctx);
    let second = f.get_bucket_name_and_value(&ctx);
    assert_eq!(first, second);
}

#[test]
fn session_random_is_stable_for_one_draw() {
    let draw = fresh_session_random();
    assert!(0 <= draw.micros && draw.micros < 1_000_000);
    let ctx1 = Context::from_process(draw);
    let ctx2 = Context::from_process(draw);
    let f = feature(
        vec![bucket(
            "half",
            Classifier::LT {
                attribute: Attribute::SessionRandom,
                value: Value::Number(Number::from_micros(500_000)),
            },
            num(1),
        )],
        num(0),
    );
    assert_eq!(f.get_bucket_name_and_value(&ctx1), f.get_bucket_name_and_value(&ctx2));
}

#[test]
fn attribute_eval_returns_embedded_and_context_values() {
    let ctx = ctx_with_host("web-01");
    assert_eq!(
        Attribute::StaticNumber { value: Number::from_int(5) }.eval(&ctx),
        Ok(num(5))
    );
    assert_eq!(Attribute::Hostname.eval(&ctx), Ok(text("web-01")));
    assert_eq!(
        Attribute::SessionRandom.eval(&ctx),
        Ok(Value::Number(Number::from_micros(250_000)))
    );
}

#[test]
fn get_value_for_bucket_resolves_names() {
    let f = feature(vec![bucket("beta", always(), num(7))], num(0));
    assert_eq!(f.get_value_for_bucket("beta"), Some(num(7)));
    assert_eq!(f.get_value_for_bucket("default"), Some(num(0)));
    assert_eq!(f.get_value_for_bucket("missing"), None);
}

#[test]
fn get_bucket_name_matches_resolution() {
    let f = feature(vec![bucket("beta", always(), num(7))], num(0));
    assert_eq!(f.get_bucket_name(&ctx_with_host("h")), "beta");
    let empty = feature(vec![], num(0));
    assert_eq!(empty.get_bucket_name(&ctx_with_host("h")), "default");
}

#[test]
fn eval_outcomes_cover_all_cases() {
    let ctx = ctx_with_host("h");
    let missing = eval(None, num(9), &ctx);
    assert_eq!(missing.result_type, EvalResultType::FeatureMissing);
    assert_eq!(missing.bucket_name, None);
    assert_eq!(missing.value, num(9));

    let broken = eval(Some("not json"), num(9), &ctx);
    assert_eq!(broken.result_type, EvalResultType::DecodeFailed);
    assert_eq!(broken.value, num(9));

    let matched_text = feature(vec![bucket("beta", always(), num(1))], num(0)).dumps();
    let matched = eval(Some(&matched_text), num(9), &ctx);
    assert_eq!(
        matched,
        EvalResult {
            result_type: EvalResultType::Selected,
            bucket_name: Some(String::from("beta")),
            value: num(1),
        }
    );

    let default_text = feature(vec![bucket("beta", never(), num(1))], num(0)).dumps();
    let defaulted = eval(Some(&default_text), num(9), &ctx);
    assert_eq!(defaulted.result_type, EvalResultType::UsedDefault);
    assert_eq!(defaulted.bucket_name, Some(String::from("default")));
    assert_eq!(defaulted.value, num(0));
}
