//! The codec: canonical text, round trips, legacy layouts and decode faults.

use offline_feature::attribute::Attribute;
use offline_feature::classifier::Classifier;
use offline_feature::codec::DecodeError;
use offline_feature::offline_feature::Bucket;
use offline_feature::offline_feature::OfflineFeature;
use offline_feature::type_enum::FeatureType;
use offline_feature::type_enum::PythonVersion;
use offline_feature::values::Number;
use offline_feature::values::Value;

fn num(units: i64) -> Value {
    Value::Number(Number::from_int(units))
}

fn text(s: &str) -> Value {
    Value::Str(String::from(s))
}

fn gte_bucket(name: &str, threshold: i64, value: Value) -> Bucket {
    Bucket::new(
        String::from(name),
        Classifier::GTE {
            attribute: Attribute::StaticNumber { value: Number::from_int(5) },
            value: num(threshold),
        },
        value,
    )
    .unwrap()
}

fn feature(buckets: Vec<Bucket>, default: Value) -> OfflineFeature {
    OfflineFeature::new(FeatureType::Offline, vec![PythonVersion::All], buckets, default)
}

#[test]
fn dumps_simple_feature_exact_text() {
    let f = feature(vec![gte_bucket("beta", 3, num(1))], num(0));
    assert_eq!(
        f.dumps(),
        "{\"type\":\"offline-feature\",\"python_versions\":[\"all\"],\"buckets\":[\
         {\"name\":\"beta\",\"classifier\":{\"__type\":\"comparison.gte\",\"attribute\":\
         {\"name\":\"static.number\",\"value\":5},\"value\":3},\"value\":1}],\"default\":0}"
    );
}

#[test]
fn round_trip_simple_feature() {
    let f = feature(vec![gte_bucket("beta", 3, num(1))], num(0));
    let back = OfflineFeature::loads(&f.dumps()).unwrap();
    assert_eq!(back, f);
}

#[test]
fn round_trip_rich_feature() {
    let nested = Classifier::NOT {
        value: Value::Classifier(Box::new(Classifier::ANY { value: vec![] })),
    };
    let dict_value = Value::Dict(vec![
        (String::from("limit"), Value::Number(Number::from_micros(2_500_000))),
        (String::from("tags"), Value::Array(vec![text("a"), Value::Boolean(true), Value::Null])),
    ]);
    let b1 = Bucket::new(
        String::from("quoted \"name\" with \\ slash"),
        Classifier::ALL {
            value: vec![
                Classifier::REGEXMATCH {
                    attribute: Attribute::Hostname,
                    value: text("^web-"),
                },
                nested,
            ],
        },
        dict_value,
    )
    .unwrap();
    let b2 = Bucket::new(
        String::from("negatives"),
        Classifier::LT {
            attribute: Attribute::SessionRandom,
            value: Value::Number(Number::from_micros(-1_250_000)),
        },
        Value::Array(vec![num(-7), Value::Number(Number::from_micros(123))]),
    )
    .unwrap();
    let f = feature(
        vec![b1, b2],
        Value::Dict(vec![(String::from("fallback"), Value::Null)]),
    );
    let encoded = f.dumps();
    let back = OfflineFeature::loads(&encoded).unwrap();
    assert_eq!(back, f);
    assert_eq!(back.dumps(), encoded);
}

#[test]
fn fractional_numbers_use_six_digits() {
    let f = feature(vec![], Value::Number(Number::from_micros(500_000)));
    let encoded = f.dumps();
    assert!(encoded.ends_with("\"default\":0.500000}"));
    let back = OfflineFeature::loads(&encoded).unwrap();
    assert_eq!(back, f);
}

#[test]
fn negative_number_round_trip() {
    let f = feature(vec![], Value::Number(Number::from_micros(-10_250_000)));
    let encoded = f.dumps();
    assert!(encoded.ends_with("\"default\":-10.250000}"));
    assert_eq!(OfflineFeature::loads(&encoded).unwrap(), f);
}

#[test]
fn loads_accepts_whitespace_and_short_fractions() {
    let text = "{ \"type\": \"offline-feature\", \"python_versions\": [\"py3.12\"],\n  \"buckets\": [], \"default\": 2.5 }";
    let f = OfflineFeature::loads(text).unwrap();
    assert_eq!(f.python_versions, vec![PythonVersion::Py312]);
    assert_eq!(f.default, Value::Number(Number::from_micros(2_500_000)));
}

#[test]
fn loads_legacy_type_tag_and_values_map() {
    let text = "{\"type\":\"offline-feature\",\"python_versions\":[\"all\"],\"buckets\":[\
        {\"name\":\"beta\",\"classifier\":{\"type\":\"bool.all\",\"value\":[]}}],\
        \"values\":{\"beta\":41},\"default\":0}";
    let f = OfflineFeature::loads(text).unwrap();
    assert_eq!(f.buckets.len(), 1);
    assert_eq!(f.buckets[0].name, "beta");
    assert_eq!(f.buckets[0].classifier, Classifier::ALL { value: vec![] });
    assert_eq!(f.buckets[0].value, num(41));
}

#[test]
fn loads_bucket_without_value_anywhere_gets_null() {
    let text = "{\"type\":\"offline-feature\",\"python_versions\":[],\"buckets\":[\
        {\"name\":\"beta\",\"classifier\":{\"__type\":\"bool.any\",\"value\":[]}}],\"default\":0}";
    let f = OfflineFeature::loads(text).unwrap();
    assert_eq!(f.buckets[0].value, Value::Null);
}

#[test]
fn loads_rejects_bad_json_as_syntax() {
    assert_eq!(OfflineFeature::loads("{\"type\":"), Err(DecodeError::Syntax));
    assert_eq!(OfflineFeature::loads(""), Err(DecodeError::Syntax));
    assert_eq!(OfflineFeature::loads("{} trailing"), Err(DecodeError::Syntax));
}

#[test]
fn loads_rejects_wrong_shape_as_schema() {
    assert_eq!(OfflineFeature::loads("{}"), Err(DecodeError::Schema));
    assert_eq!(OfflineFeature::loads("[1,2]"), Err(DecodeError::Schema));
    assert_eq!(
        OfflineFeature::loads("{\"type\":\"something-else\",\"python_versions\":[],\"buckets\":[],\"default\":0}"),
        Err(DecodeError::Schema)
    );
}

#[test]
fn loads_rejects_unrecognized_classifier_discriminator() {
    let text = "{\"type\":\"offline-feature\",\"python_versions\":[],\"buckets\":[\
        {\"name\":\"beta\",\"classifier\":{\"__type\":\"bool.unknown\",\"value\":[]},\"value\":1}],\
        \"default\":0}";
    assert_eq!(OfflineFeature::loads(text), Err(DecodeError::Schema));
}

#[test]
fn loads_rejects_reserved_bucket_name() {
    let text = "{\"type\":\"offline-feature\",\"python_versions\":[],\"buckets\":[\
        {\"name\":\"default\",\"classifier\":{\"__type\":\"bool.all\",\"value\":[]},\"value\":1}],\
        \"default\":0}";
    assert_eq!(OfflineFeature::loads(text), Err(DecodeError::Schema));
}

#[test]
fn loads_rejects_seven_fraction_digits() {
    let text = "{\"type\":\"offline-feature\",\"python_versions\":[],\"buckets\":[],\
        \"default\":0.1234567}";
    assert_eq!(OfflineFeature::loads(text), Err(DecodeError::Syntax));
}

#[test]
fn extreme_numbers_round_trip() {
    let f = feature(vec![], Value::Number(Number::from_micros(i64::MAX)));
    assert_eq!(OfflineFeature::loads(&f.dumps()).unwrap(), f);
    let g = feature(vec![], Value::Number(Number::from_micros(i64::MIN)));
    assert_eq!(OfflineFeature::loads(&g.dumps()).unwrap(), g);
}

#[test]
fn loads_rejects_numbers_out_of_machine_range() {
    let text = "{\"type\":\"offline-feature\",\"python_versions\":[],\"buckets\":[],\"default\":9223372036854775808}";
    assert_eq!(OfflineFeature::loads(text), Err(DecodeError::Syntax));
}

#[test]
fn string_escapes_decode() {
    let text = "{\"type\":\"offline-feature\",\"python_versions\":[],\"buckets\":[],\
        \"default\":\"a\\\"b\\\\c\\n\\u0041\"}";
    let f = OfflineFeature::loads(text).unwrap();
    assert_eq!(f.default, Value::Str(String::from("a\"b\\c\nA")));
}
