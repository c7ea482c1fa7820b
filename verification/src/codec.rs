//! The discriminated-union codec: between decoded artifacts and the generic
//! JSON values of the text layer.
//!
//! Decoding normalizes bottom-up: every dictionary whose discriminator names
//! a recognized classifier tag becomes a classifier node; every other value
//! keeps its shape. Encoding writes the canonical layout: the value embedded
//! in each bucket, the discriminator under "__type" for classifiers and
//! under "name" for attributes. Decoding also accepts the older layouts: the
//! "type" discriminator key, and a feature-level "values" map consulted for
//! buckets that carry no value of their own.

use vstd::prelude::*;
use crate::attribute::SpecAttr;
use crate::classifier::SpecClassifier;
use crate::classifier::recognized_tag;
use crate::json::print_json;
use crate::json::str_printable;
use crate::json::printable;
use crate::json::spec_parse_text;
use crate::offline_feature::SpecBucket;
use crate::offline_feature::SpecFeature;
use crate::type_enum::FeatureType;
use crate::type_enum::PythonVersion;
use crate::values::SpecVal;
use crate::values::Value;
use crate::values::view_values;
use crate::values::view_entries;
use crate::classifier::Classifier;
use crate::classifier::view_classifiers;
use crate::attribute::Attribute;
use crate::offline_feature::Bucket;
use crate::offline_feature::OfflineFeature;
use crate::offline_feature::view_buckets;
use crate::json::emit_number;
use crate::json::emit_string;
use crate::json::print_items;
use crate::json::print_members;
use crate::json::print_string;
use crate::json::print_number;

use crate::values::wf_val;
use crate::classifier::wf_classifier;

verus! {

/// The first value bound to `key`, in entry order.
pub open spec fn lookup(entries: Seq<(Seq<char>, SpecVal)>, key: Seq<char>) -> Option<SpecVal>
    decreases entries,
{
    if entries.len() == 0 {
        Option::None
    } else if entries[0].0 == key {
        Option::Some(entries[0].1)
    } else {
        lookup(entries.drop_first(), key)
    }
}

/// A found binding stands somewhere in the entries.
pub proof fn lemma_lookup_found(entries: Seq<(Seq<char>, SpecVal)>, key: Seq<char>, x: SpecVal)
    requires
        lookup(entries, key) == Option::Some(x),
    ensures
        exists|i: int|
            0 <= i < entries.len() && (#[trigger] entries[i]).0 == key && entries[i].1 == x,
    decreases entries,
{
    if entries.len() > 0 && entries[0].0 != key {
        lemma_lookup_found(entries.drop_first(), key, x);
        let j = choose|j: int|
            0 <= j < entries.drop_first().len() && (#[trigger] entries.drop_first()[j]).0 == key
                && entries.drop_first()[j].1 == x;
        assert(entries[j + 1].0 == key && entries[j + 1].1 == x);
    }
}

/// The discriminator string of a dictionary: the first string bound to
/// "__type", or failing that to "type".
pub open spec fn tag_of(entries: Seq<(Seq<char>, SpecVal)>) -> Option<Seq<char>> {
    match lookup(entries, "__type"@) {
        Option::Some(SpecVal::Str(t)) => Option::Some(t),
        _ => match lookup(entries, "type"@) {
            Option::Some(SpecVal::Str(t)) => Option::Some(t),
            _ => Option::None,
        },
    }
}

/// The attribute a dictionary stands for: its provider under "name" (or the
/// older "__type"), plus the embedded literal for the constant provider.
pub open spec fn attr_of(v: SpecVal) -> Option<SpecAttr> {
    match v {
        SpecVal::Dict(e) => {
            let name = match lookup(e, "name"@) {
                Option::Some(SpecVal::Str(t)) => Option::Some(t),
                _ => match lookup(e, "__type"@) {
                    Option::Some(SpecVal::Str(t)) => Option::Some(t),
                    _ => Option::None,
                },
            };
            match name {
                Option::Some(t) => if t == "static.number"@ {
                    match lookup(e, "value"@) {
                        Option::Some(SpecVal::Num(n)) => Option::Some(SpecAttr::StaticNumber(n)),
                        _ => Option::None,
                    }
                } else if t == "socket.hostname"@ {
                    Option::Some(SpecAttr::Hostname)
                } else if t == "random.session"@ {
                    Option::Some(SpecAttr::SessionRandom)
                } else {
                    Option::None
                },
                Option::None => Option::None,
            }
        },
        _ => Option::None,
    }
}

/// Whether every element is a classifier node.
pub open spec fn all_exprs(items: Seq<SpecVal>) -> bool {
    forall|i: int| 0 <= i < items.len() ==> (#[trigger] items[i]) is Expr
}

/// The classifiers inside a sequence of classifier nodes.
pub open spec fn exprs_of(items: Seq<SpecVal>) -> Seq<SpecClassifier> {
    items.map_values(|v: SpecVal| *v->Expr_0)
}

/// The comparison or match leaf a recognized tag names.
pub open spec fn mk_leaf(t: Seq<char>, a: SpecAttr, v: SpecVal) -> SpecClassifier {
    if t == "re.match"@ {
        SpecClassifier::RegexMatch(a, v)
    } else if t == "comparison.lt"@ {
        SpecClassifier::Lt(a, v)
    } else if t == "comparison.gt"@ {
        SpecClassifier::Gt(a, v)
    } else if t == "comparison.gte"@ {
        SpecClassifier::Gte(a, v)
    } else if t == "comparison.lte"@ {
        SpecClassifier::Lte(a, v)
    } else {
        SpecClassifier::Eq(a, v)
    }
}

/// The classifier a dictionary with already-normalized values stands for:
/// `None` when its discriminator is missing, unrecognized, or its fields do
/// not fit the tag.
pub open spec fn classify_shallow(entries: Seq<(Seq<char>, SpecVal)>) -> Option<SpecClassifier> {
    match tag_of(entries) {
        Option::Some(t) => if t == "bool.all"@ || t == "bool.any"@ {
            match lookup(entries, "value"@) {
                Option::Some(SpecVal::Arr(items)) => if all_exprs(items) {
                    if t == "bool.all"@ {
                        Option::Some(SpecClassifier::All(exprs_of(items)))
                    } else {
                        Option::Some(SpecClassifier::Any(exprs_of(items)))
                    }
                } else {
                    Option::None
                },
                _ => Option::None,
            }
        } else if t == "bool.none"@ {
            match lookup(entries, "value"@) {
                Option::Some(v) => Option::Some(SpecClassifier::Not(v)),
                Option::None => Option::None,
            }
        } else if recognized_tag(t) {
            match lookup(entries, "attribute"@) {
                Option::Some(av) => match attr_of(av) {
                    Option::Some(a) => match lookup(entries, "value"@) {
                        Option::Some(lv) => Option::Some(mk_leaf(t, a, lv)),
                        Option::None => Option::None,
                    },
                    Option::None => Option::None,
                },
                Option::None => Option::None,
            }
        } else {
            Option::None
        },
        Option::None => Option::None,
    }
}

/// Normalizes a generic value bottom-up, turning every dictionary that
/// stands for a classifier into a classifier node.
pub open spec fn val_of(v: SpecVal) -> SpecVal
    decreases v,
{
    match v {
        SpecVal::Arr(items) => SpecVal::Arr(vals_of(items)),
        SpecVal::Dict(entries) => {
            let es = entries_of(entries);
            match classify_shallow(es) {
                Option::Some(c) => SpecVal::Expr(Box::new(c)),
                Option::None => SpecVal::Dict(es),
            }
        },
        _ => v,
    }
}

/// Normalizes each element.
pub open spec fn vals_of(items: Seq<SpecVal>) -> Seq<SpecVal>
    decreases items,
{
    if items.len() == 0 {
        Seq::empty()
    } else {
        vals_of(items.drop_last()).push(val_of(items.last()))
    }
}

/// Normalizes each entry's value, keeping its key.
pub open spec fn entries_of(entries: Seq<(Seq<char>, SpecVal)>) -> Seq<(Seq<char>, SpecVal)>
    decreases entries,
{
    if entries.len() == 0 {
        Seq::empty()
    } else {
        entries_of(entries.drop_last()).push(
            (entries.last().0, val_of(entries.last().1)),
        )
    }
}

pub proof fn lemma_vals_of_len(items: Seq<SpecVal>)
    ensures
        vals_of(items).len() == items.len(),
    decreases items,
{
    if items.len() > 0 {
        lemma_vals_of_len(items.drop_last());
        assert(vals_of(items) == vals_of(items.drop_last()).push(val_of(items.last())));
    } else {
        assert(vals_of(items) == Seq::<SpecVal>::empty());
    }
}

pub proof fn lemma_vals_of_index(items: Seq<SpecVal>, i: int)
    requires
        0 <= i < items.len(),
    ensures
        vals_of(items)[i] == val_of(items[i]),
    decreases items,
{
    lemma_vals_of_len(items);
    lemma_vals_of_len(items.drop_last());
    assert(vals_of(items) == vals_of(items.drop_last()).push(val_of(items.last())));
    if i < items.len() - 1 {
        lemma_vals_of_index(items.drop_last(), i);
        assert(items.drop_last()[i] == items[i]);
    } else {
        assert(vals_of(items)[i] == val_of(items.last()));
    }
}

pub proof fn lemma_entries_of_len(entries: Seq<(Seq<char>, SpecVal)>)
    ensures
        entries_of(entries).len() == entries.len(),
    decreases entries,
{
    if entries.len() > 0 {
        lemma_entries_of_len(entries.drop_last());
        assert(entries_of(entries) == entries_of(entries.drop_last()).push(
            (entries.last().0, val_of(entries.last().1)),
        ));
    } else {
        assert(entries_of(entries) == Seq::<(Seq<char>, SpecVal)>::empty());
    }
}

pub proof fn lemma_entries_of_index(entries: Seq<(Seq<char>, SpecVal)>, i: int)
    requires
        0 <= i < entries.len(),
    ensures
        entries_of(entries)[i] == (entries[i].0, val_of(entries[i].1)),
    decreases entries,
{
    lemma_entries_of_len(entries);
    lemma_entries_of_len(entries.drop_last());
    assert(entries_of(entries) == entries_of(entries.drop_last()).push(
        (entries.last().0, val_of(entries.last().1)),
    ));
    if i < entries.len() - 1 {
        lemma_entries_of_index(entries.drop_last(), i);
        assert(entries.drop_last()[i] == entries[i]);
    } else {
        assert(entries_of(entries)[i] == (entries.last().0, val_of(entries.last().1)));
    }
}

/// The classifier a raw generic value stands for, if any.
pub open spec fn classifier_of(v: SpecVal) -> Option<SpecClassifier> {
    match val_of(v) {
        SpecVal::Expr(c) => Option::Some(*c),
        _ => Option::None,
    }
}

/// The version tag a generic value stands for.
pub open spec fn version_of(v: SpecVal) -> Option<PythonVersion> {
    match v {
        SpecVal::Str(t) => if t == "all"@ {
            Option::Some(PythonVersion::All)
        } else if t == "py3.10"@ {
            Option::Some(PythonVersion::Py310)
        } else if t == "py3.12"@ {
            Option::Some(PythonVersion::Py312)
        } else if t == "py3.14"@ {
            Option::Some(PythonVersion::Py314)
        } else {
            Option::None
        },
        _ => Option::None,
    }
}

/// Every element decoded as a version tag, or nothing.
pub open spec fn versions_of(items: Seq<SpecVal>) -> Option<Seq<PythonVersion>>
    decreases items,
{
    if items.len() == 0 {
        Option::Some(Seq::empty())
    } else {
        match version_of(items[0]) {
            Option::Some(pv) => match versions_of(items.drop_first()) {
                Option::Some(rest) => Option::Some(seq![pv] + rest),
                Option::None => Option::None,
            },
            Option::None => Option::None,
        }
    }
}

/// The bucket a raw generic value stands for. Its value is the embedded
/// "value" field when present, else the entry under the bucket's name in
/// the artifact's legacy "values" map, else null. The reserved name
/// "default" is refused.
pub open spec fn bucket_of(
    v: SpecVal,
    legacy: Option<Seq<(Seq<char>, SpecVal)>>,
) -> Option<SpecBucket> {
    match v {
        SpecVal::Dict(be) => match lookup(be, "name"@) {
            Option::Some(SpecVal::Str(nm)) => if nm == "default"@ {
                Option::None
            } else {
                match lookup(be, "classifier"@) {
                    Option::Some(cv) => match classifier_of(cv) {
                        Option::Some(c) => {
                            let value = match lookup(be, "value"@) {
                                Option::Some(raw) => val_of(raw),
                                Option::None => match legacy {
                                    Option::Some(vd) => match lookup(vd, nm) {
                                        Option::Some(raw) => val_of(raw),
                                        Option::None => SpecVal::Null,
                                    },
                                    Option::None => SpecVal::Null,
                                },
                            };
                            Option::Some(SpecBucket { name: nm, classifier: c, value })
                        },
                        Option::None => Option::None,
                    },
                    Option::None => Option::None,
                }
            },
            _ => Option::None,
        },
        _ => Option::None,
    }
}

/// Every element decoded as a bucket, in order, or nothing.
pub open spec fn buckets_of(
    items: Seq<SpecVal>,
    legacy: Option<Seq<(Seq<char>, SpecVal)>>,
) -> Option<Seq<SpecBucket>>
    decreases items,
{
    if items.len() == 0 {
        Option::Some(Seq::empty())
    } else {
        match bucket_of(items[0], legacy) {
            Option::Some(b) => match buckets_of(items.drop_first(), legacy) {
                Option::Some(rest) => Option::Some(seq![b] + rest),
                Option::None => Option::None,
            },
            Option::None => Option::None,
        }
    }
}

/// The feature a raw generic value stands for: a dictionary tagged
/// "offline-feature", with version tags, ordered buckets and a default.
pub open spec fn feature_of(v: SpecVal) -> Option<SpecFeature> {
    match v {
        SpecVal::Dict(fe) => match lookup(fe, "type"@) {
            Option::Some(SpecVal::Str(t)) => if t != "offline-feature"@ {
                Option::None
            } else {
                match lookup(fe, "python_versions"@) {
                    Option::Some(SpecVal::Arr(pvs)) => match versions_of(pvs) {
                        Option::Some(versions) => match lookup(fe, "buckets"@) {
                            Option::Some(SpecVal::Arr(bs)) => {
                                let legacy = match lookup(fe, "values"@) {
                                    Option::Some(SpecVal::Dict(vd)) => Option::Some(vd),
                                    _ => Option::None,
                                };
                                match buckets_of(bs, legacy) {
                                    Option::Some(buckets) => match lookup(fe, "default"@) {
                                        Option::Some(dv) => Option::Some(
                                            SpecFeature {
                                                feature_type: FeatureType::Offline,
                                                python_versions: versions,
                                                buckets,
                                                default: val_of(dv),
                                            },
                                        ),
                                        Option::None => Option::None,
                                    },
                                    Option::None => Option::None,
                                }
                            },
                            _ => Option::None,
                        },
                        Option::None => Option::None,
                    },
                    _ => Option::None,
                }
            },
            _ => Option::None,
        },
        _ => Option::None,
    }
}

/// The wire form of an attribute.
pub open spec fn gen_of_attr(a: SpecAttr) -> SpecVal {
    match a {
        SpecAttr::StaticNumber(n) => SpecVal::Dict(
            seq![
                ("name"@, SpecVal::Str("static.number"@)),
                ("value"@, SpecVal::Num(n)),
            ],
        ),
        SpecAttr::Hostname => SpecVal::Dict(
            seq![("name"@, SpecVal::Str("socket.hostname"@))],
        ),
        SpecAttr::SessionRandom => SpecVal::Dict(
            seq![("name"@, SpecVal::Str("random.session"@))],
        ),
    }
}

/// The wire form of a value: itself, with every classifier node written as
/// its tagged dictionary.
pub open spec fn gen_of_val(v: SpecVal) -> SpecVal
    decreases v, 0int,
{
    match v {
        SpecVal::Arr(items) => SpecVal::Arr(gens_of_vals(items)),
        SpecVal::Dict(entries) => SpecVal::Dict(gens_of_entries(entries)),
        SpecVal::Expr(c) => gen_of_classifier(*c),
        _ => v,
    }
}

/// The wire form of a classifier: a dictionary tagged under "__type".
pub open spec fn gen_of_classifier(c: SpecClassifier) -> SpecVal
    decreases c, 1int,
{
    match c {
        SpecClassifier::RegexMatch(a, lit) => gen_leaf("re.match"@, a, lit),
        SpecClassifier::All(cs) => SpecVal::Dict(
            seq![
                ("__type"@, SpecVal::Str("bool.all"@)),
                ("value"@, SpecVal::Arr(gens_of_classifiers(cs))),
            ],
        ),
        SpecClassifier::Any(cs) => SpecVal::Dict(
            seq![
                ("__type"@, SpecVal::Str("bool.any"@)),
                ("value"@, SpecVal::Arr(gens_of_classifiers(cs))),
            ],
        ),
        SpecClassifier::Not(v) => SpecVal::Dict(
            seq![
                ("__type"@, SpecVal::Str("bool.none"@)),
                ("value"@, gen_of_val(v)),
            ],
        ),
        SpecClassifier::Lt(a, lit) => gen_leaf("comparison.lt"@, a, lit),
        SpecClassifier::Gt(a, lit) => gen_leaf("comparison.gt"@, a, lit),
        SpecClassifier::Gte(a, lit) => gen_leaf("comparison.gte"@, a, lit),
        SpecClassifier::Lte(a, lit) => gen_leaf("comparison.lte"@, a, lit),
        SpecClassifier::Eq(a, lit) => gen_leaf("comparison.eq"@, a, lit),
    }
}

/// The wire form of a comparison or match leaf.
pub open spec fn gen_leaf(t: Seq<char>, a: SpecAttr, lit: SpecVal) -> SpecVal
    decreases lit,
{
    SpecVal::Dict(
        seq![
            ("__type"@, SpecVal::Str(t)),
            ("attribute"@, gen_of_attr(a)),
            ("value"@, gen_of_val(lit)),
        ],
    )
}

/// The wire forms of each element.
pub open spec fn gens_of_vals(items: Seq<SpecVal>) -> Seq<SpecVal>
    decreases items, 2int,
{
    if items.len() == 0 {
        Seq::empty()
    } else {
        gens_of_vals(items.drop_last()).push(gen_of_val(items.last()))
    }
}

/// The wire forms of each entry's value, keys kept.
pub open spec fn gens_of_entries(entries: Seq<(Seq<char>, SpecVal)>) -> Seq<(Seq<char>, SpecVal)>
    decreases entries, 2int,
{
    if entries.len() == 0 {
        Seq::empty()
    } else {
        gens_of_entries(entries.drop_last()).push(
            (entries.last().0, gen_of_val(entries.last().1)),
        )
    }
}

/// The wire forms of each child classifier.
pub open spec fn gens_of_classifiers(cs: Seq<SpecClassifier>) -> Seq<SpecVal>
    decreases cs, 2int,
{
    if cs.len() == 0 {
        Seq::empty()
    } else {
        gens_of_classifiers(cs.drop_last()).push(gen_of_classifier(cs.last()))
    }
}

/// The wire form of a version tag.
pub open spec fn version_str(pv: PythonVersion) -> Seq<char> {
    match pv {
        PythonVersion::All => "all"@,
        PythonVersion::Py310 => "py3.10"@,
        PythonVersion::Py312 => "py3.12"@,
        PythonVersion::Py314 => "py3.14"@,
    }
}

/// The wire forms of each version tag.
pub open spec fn gens_of_versions(vs: Seq<PythonVersion>) -> Seq<SpecVal> {
    vs.map_values(|pv: PythonVersion| SpecVal::Str(version_str(pv)))
}

/// The wire form of a bucket: name, classifier and embedded value.
pub open spec fn gen_of_bucket(b: SpecBucket) -> SpecVal {
    SpecVal::Dict(
        seq![
            ("name"@, SpecVal::Str(b.name)),
            ("classifier"@, gen_of_classifier(b.classifier)),
            ("value"@, gen_of_val(b.value)),
        ],
    )
}

/// The wire forms of each bucket.
pub open spec fn gens_of_buckets(bs: Seq<SpecBucket>) -> Seq<SpecVal>
    decreases bs,
{
    if bs.len() == 0 {
        Seq::empty()
    } else {
        gens_of_buckets(bs.drop_last()).push(gen_of_bucket(bs.last()))
    }
}

/// The wire form of a whole feature.
pub open spec fn gen_of_feature(f: SpecFeature) -> SpecVal {
    SpecVal::Dict(
        seq![
            ("type"@, SpecVal::Str("offline-feature"@)),
            ("python_versions"@, SpecVal::Arr(gens_of_versions(f.python_versions))),
            ("buckets"@, SpecVal::Arr(gens_of_buckets(f.buckets))),
            ("default"@, gen_of_val(f.default)),
        ],
    )
}

/// The canonical text of a feature.
pub open spec fn spec_dumps(f: SpecFeature) -> Seq<char> {
    print_json(gen_of_feature(f))
}

/// The feature a text decodes to, if its JSON parses and its schema fits.
pub open spec fn spec_decode(s: Seq<char>) -> Option<SpecFeature> {
    match spec_parse_text(s) {
        Option::Some(g) => feature_of(g),
        Option::None => Option::None,
    }
}


/// The wire format's fixed words: each is printable, and the distinctions
/// the decoder draws between them hold.
#[verifier::rlimit(100)]
pub proof fn lemma_wire_words()
    ensures
        str_printable("type"@),
        str_printable("__type"@),
        str_printable("name"@),
        str_printable("value"@),
        str_printable("attribute"@),
        str_printable("classifier"@),
        str_printable("buckets"@),
        str_printable("python_versions"@),
        str_printable("default"@),
        str_printable("values"@),
        str_printable("offline-feature"@),
        str_printable("static.number"@),
        str_printable("socket.hostname"@),
        str_printable("random.session"@),
        str_printable("re.match"@),
        str_printable("bool.all"@),
        str_printable("bool.any"@),
        str_printable("bool.none"@),
        str_printable("comparison.lt"@),
        str_printable("comparison.gt"@),
        str_printable("comparison.gte"@),
        str_printable("comparison.lte"@),
        str_printable("comparison.eq"@),
        str_printable("all"@),
        str_printable("py3.10"@),
        str_printable("py3.12"@),
        str_printable("py3.14"@),
        "name"@ != "__type"@,
        "name"@ != "type"@,
        "value"@ != "__type"@,
        "value"@ != "type"@,
        "__type"@ != "value"@,
        "attribute"@ != "value"@,
        "__type"@ != "attribute"@,
        "__type"@ != "type"@,
        "name"@ != "classifier"@,
        "name"@ != "value"@,
        "classifier"@ != "value"@,
        "type"@ != "python_versions"@,
        "type"@ != "buckets"@,
        "python_versions"@ != "buckets"@,
        "values"@ != "type"@,
        "values"@ != "python_versions"@,
        "values"@ != "buckets"@,
        "values"@ != "default"@,
        "default"@ != "type"@,
        "default"@ != "python_versions"@,
        "default"@ != "buckets"@,
        "re.match"@ != "bool.all"@,
        "re.match"@ != "bool.any"@,
        "re.match"@ != "bool.none"@,
        "comparison.lt"@ != "bool.all"@,
        "comparison.lt"@ != "bool.any"@,
        "comparison.lt"@ != "bool.none"@,
        "comparison.gt"@ != "bool.all"@,
        "comparison.gt"@ != "bool.any"@,
        "comparison.gt"@ != "bool.none"@,
        "comparison.gte"@ != "bool.all"@,
        "comparison.gte"@ != "bool.any"@,
        "comparison.gte"@ != "bool.none"@,
        "comparison.lte"@ != "bool.all"@,
        "comparison.lte"@ != "bool.any"@,
        "comparison.lte"@ != "bool.none"@,
        "comparison.eq"@ != "bool.all"@,
        "comparison.eq"@ != "bool.any"@,
        "comparison.eq"@ != "bool.none"@,
        "comparison.lt"@ != "re.match"@,
        "comparison.gt"@ != "re.match"@,
        "comparison.gte"@ != "re.match"@,
        "comparison.lte"@ != "re.match"@,
        "comparison.eq"@ != "re.match"@,
        "comparison.gt"@ != "comparison.lt"@,
        "comparison.gte"@ != "comparison.lt"@,
        "comparison.lte"@ != "comparison.lt"@,
        "comparison.eq"@ != "comparison.lt"@,
        "comparison.gte"@ != "comparison.gt"@,
        "comparison.lte"@ != "comparison.gt"@,
        "comparison.eq"@ != "comparison.gt"@,
        "comparison.lte"@ != "comparison.gte"@,
        "comparison.eq"@ != "comparison.gte"@,
        "comparison.eq"@ != "comparison.lte"@,
        "socket.hostname"@ != "static.number"@,
        "random.session"@ != "static.number"@,
        "random.session"@ != "socket.hostname"@,
        "py3.10"@ != "all"@,
        "py3.12"@ != "all"@,
        "py3.14"@ != "all"@,
        "py3.12"@ != "py3.10"@,
        "py3.14"@ != "py3.10"@,
        "py3.14"@ != "py3.12"@,
        "bool.all"@ != "bool.any"@,
        "bool.all"@ != "bool.none"@,
        "bool.any"@ != "bool.none"@,
{
    reveal_strlit("type");
    reveal_strlit("__type");
    reveal_strlit("name");
    reveal_strlit("value");
    reveal_strlit("attribute");
    reveal_strlit("classifier");
    reveal_strlit("buckets");
    reveal_strlit("python_versions");
    reveal_strlit("default");
    reveal_strlit("values");
    reveal_strlit("offline-feature");
    reveal_strlit("static.number");
    reveal_strlit("socket.hostname");
    reveal_strlit("random.session");
    reveal_strlit("re.match");
    reveal_strlit("bool.all");
    reveal_strlit("bool.any");
    reveal_strlit("bool.none");
    reveal_strlit("comparison.lt");
    reveal_strlit("comparison.gt");
    reveal_strlit("comparison.gte");
    reveal_strlit("comparison.lte");
    reveal_strlit("comparison.eq");
    reveal_strlit("all");
    reveal_strlit("py3.10");
    reveal_strlit("py3.12");
    reveal_strlit("py3.14");
    assert("name"@[0] == 'n' && "type"@[0] == 't');
    assert("default"@[0] == 'd' && "buckets"@[0] == 'b');
    assert("re.match"@[0] == 'r' && "bool.all"@[0] == 'b');
    assert("re.match"@[0] == 'r' && "bool.any"@[0] == 'b');
    assert("comparison.gt"@[11] == 'g' && "comparison.lt"@[11] == 'l');
    assert("comparison.eq"@[11] == 'e' && "comparison.lt"@[11] == 'l');
    assert("comparison.eq"@[11] == 'e' && "comparison.gt"@[11] == 'g');
    assert("comparison.lte"@[11] == 'l' && "comparison.gte"@[11] == 'g');
    assert("py3.12"@[5] == '2' && "py3.10"@[5] == '0');
    assert("py3.14"@[5] == '4' && "py3.10"@[5] == '0');
    assert("py3.14"@[5] == '4' && "py3.12"@[5] == '2');
    assert("bool.all"@[6] == 'l' && "bool.any"@[6] == 'n');
    assert("__type"@.len() == 6 && "attribute"@.len() == 9);
    assert("__type"@.len() == 6 && "type"@.len() == 4);
    assert("__type"@.len() == 6 && "value"@.len() == 5);
    assert("attribute"@.len() == 9 && "value"@.len() == 5);
    assert("bool.all"@.len() == 8 && "bool.none"@.len() == 9);
    assert("bool.any"@.len() == 8 && "bool.none"@.len() == 9);
    assert("classifier"@.len() == 10 && "value"@.len() == 5);
    assert("comparison.eq"@.len() == 13 && "bool.all"@.len() == 8);
    assert("comparison.eq"@.len() == 13 && "bool.any"@.len() == 8);
    assert("comparison.eq"@.len() == 13 && "bool.none"@.len() == 9);
    assert("comparison.eq"@.len() == 13 && "comparison.gte"@.len() == 14);
    assert("comparison.eq"@.len() == 13 && "comparison.lte"@.len() == 14);
    assert("comparison.eq"@.len() == 13 && "re.match"@.len() == 8);
    assert("comparison.gt"@.len() == 13 && "bool.all"@.len() == 8);
    assert("comparison.gt"@.len() == 13 && "bool.any"@.len() == 8);
    assert("comparison.gt"@.len() == 13 && "bool.none"@.len() == 9);
    assert("comparison.gt"@.len() == 13 && "re.match"@.len() == 8);
    assert("comparison.gte"@.len() == 14 && "bool.all"@.len() == 8);
    assert("comparison.gte"@.len() == 14 && "bool.any"@.len() == 8);
    assert("comparison.gte"@.len() == 14 && "bool.none"@.len() == 9);
    assert("comparison.gte"@.len() == 14 && "comparison.gt"@.len() == 13);
    assert("comparison.gte"@.len() == 14 && "comparison.lt"@.len() == 13);
    assert("comparison.gte"@.len() == 14 && "re.match"@.len() == 8);
    assert("comparison.lt"@.len() == 13 && "bool.all"@.len() == 8);
    assert("comparison.lt"@.len() == 13 && "bool.any"@.len() == 8);
    assert("comparison.lt"@.len() == 13 && "bool.none"@.len() == 9);
    assert("comparison.lt"@.len() == 13 && "re.match"@.len() == 8);
    assert("comparison.lte"@.len() == 14 && "bool.all"@.len() == 8);
    assert("comparison.lte"@.len() == 14 && "bool.any"@.len() == 8);
    assert("comparison.lte"@.len() == 14 && "bool.none"@.len() == 9);
    assert("comparison.lte"@.len() == 14 && "comparison.gt"@.len() == 13);
    assert("comparison.lte"@.len() == 14 && "comparison.lt"@.len() == 13);
    assert("comparison.lte"@.len() == 14 && "re.match"@.len() == 8);
    assert("default"@.len() == 7 && "python_versions"@.len() == 15);
    assert("default"@.len() == 7 && "type"@.len() == 4);
    assert("name"@.len() == 4 && "__type"@.len() == 6);
    assert("name"@.len() == 4 && "classifier"@.len() == 10);
    assert("name"@.len() == 4 && "value"@.len() == 5);
    assert("py3.10"@.len() == 6 && "all"@.len() == 3);
    assert("py3.12"@.len() == 6 && "all"@.len() == 3);
    assert("py3.14"@.len() == 6 && "all"@.len() == 3);
    assert("python_versions"@.len() == 15 && "buckets"@.len() == 7);
    assert("random.session"@.len() == 14 && "socket.hostname"@.len() == 15);
    assert("random.session"@.len() == 14 && "static.number"@.len() == 13);
    assert("re.match"@.len() == 8 && "bool.none"@.len() == 9);
    assert("socket.hostname"@.len() == 15 && "static.number"@.len() == 13);
    assert("type"@.len() == 4 && "buckets"@.len() == 7);
    assert("type"@.len() == 4 && "python_versions"@.len() == 15);
    assert("value"@.len() == 5 && "__type"@.len() == 6);
    assert("value"@.len() == 5 && "type"@.len() == 4);
    assert("values"@.len() == 6 && "buckets"@.len() == 7);
    assert("values"@.len() == 6 && "default"@.len() == 7);
    assert("values"@.len() == 6 && "python_versions"@.len() == 15);
    assert("values"@.len() == 6 && "type"@.len() == 4);
}


pub proof fn lemma_gens_of_vals_len(items: Seq<SpecVal>)
    ensures
        gens_of_vals(items).len() == items.len(),
    decreases items,
{
    if items.len() > 0 {
        lemma_gens_of_vals_len(items.drop_last());
        assert(gens_of_vals(items) == gens_of_vals(items.drop_last()).push(
            gen_of_val(items.last()),
        ));
    } else {
        assert(gens_of_vals(items) == Seq::<SpecVal>::empty());
    }
}

pub proof fn lemma_gens_of_vals_index(items: Seq<SpecVal>, i: int)
    requires
        0 <= i < items.len(),
    ensures
        gens_of_vals(items)[i] == gen_of_val(items[i]),
    decreases items,
{
    lemma_gens_of_vals_len(items);
    lemma_gens_of_vals_len(items.drop_last());
    assert(gens_of_vals(items) == gens_of_vals(items.drop_last()).push(gen_of_val(items.last())));
    if i < items.len() - 1 {
        lemma_gens_of_vals_index(items.drop_last(), i);
        assert(items.drop_last()[i] == items[i]);
    }
}

pub proof fn lemma_gens_of_entries_len(entries: Seq<(Seq<char>, SpecVal)>)
    ensures
        gens_of_entries(entries).len() == entries.len(),
    decreases entries,
{
    if entries.len() > 0 {
        lemma_gens_of_entries_len(entries.drop_last());
        assert(gens_of_entries(entries) == gens_of_entries(entries.drop_last()).push(
            (entries.last().0, gen_of_val(entries.last().1)),
        ));
    } else {
        assert(gens_of_entries(entries) == Seq::<(Seq<char>, SpecVal)>::empty());
    }
}

pub proof fn lemma_gens_of_entries_index(entries: Seq<(Seq<char>, SpecVal)>, i: int)
    requires
        0 <= i < entries.len(),
    ensures
        gens_of_entries(entries)[i] == (entries[i].0, gen_of_val(entries[i].1)),
    decreases entries,
{
    lemma_gens_of_entries_len(entries);
    lemma_gens_of_entries_len(entries.drop_last());
    assert(gens_of_entries(entries) == gens_of_entries(entries.drop_last()).push(
        (entries.last().0, gen_of_val(entries.last().1)),
    ));
    if i < entries.len() - 1 {
        lemma_gens_of_entries_index(entries.drop_last(), i);
        assert(entries.drop_last()[i] == entries[i]);
    }
}

pub proof fn lemma_gens_of_classifiers_len(cs: Seq<SpecClassifier>)
    ensures
        gens_of_classifiers(cs).len() == cs.len(),
    decreases cs,
{
    if cs.len() > 0 {
        lemma_gens_of_classifiers_len(cs.drop_last());
        assert(gens_of_classifiers(cs) == gens_of_classifiers(cs.drop_last()).push(
            gen_of_classifier(cs.last()),
        ));
    } else {
        assert(gens_of_classifiers(cs) == Seq::<SpecVal>::empty());
    }
}

pub proof fn lemma_gens_of_classifiers_index(cs: Seq<SpecClassifier>, i: int)
    requires
        0 <= i < cs.len(),
    ensures
        gens_of_classifiers(cs)[i] == gen_of_classifier(cs[i]),
    decreases cs,
{
    lemma_gens_of_classifiers_len(cs);
    lemma_gens_of_classifiers_len(cs.drop_last());
    assert(gens_of_classifiers(cs) == gens_of_classifiers(cs.drop_last()).push(
        gen_of_classifier(cs.last()),
    ));
    if i < cs.len() - 1 {
        lemma_gens_of_classifiers_index(cs.drop_last(), i);
        assert(cs.drop_last()[i] == cs[i]);
    }
}

pub proof fn lemma_gens_of_buckets_len(bs: Seq<SpecBucket>)
    ensures
        gens_of_buckets(bs).len() == bs.len(),
    decreases bs,
{
    if bs.len() > 0 {
        lemma_gens_of_buckets_len(bs.drop_last());
        assert(gens_of_buckets(bs) == gens_of_buckets(bs.drop_last()).push(
            gen_of_bucket(bs.last()),
        ));
    } else {
        assert(gens_of_buckets(bs) == Seq::<SpecVal>::empty());
    }
}

pub proof fn lemma_gens_of_buckets_index(bs: Seq<SpecBucket>, i: int)
    requires
        0 <= i < bs.len(),
    ensures
        gens_of_buckets(bs)[i] == gen_of_bucket(bs[i]),
    decreases bs,
{
    lemma_gens_of_buckets_len(bs);
    lemma_gens_of_buckets_len(bs.drop_last());
    assert(gens_of_buckets(bs) == gens_of_buckets(bs.drop_last()).push(gen_of_bucket(bs.last())));
    if i < bs.len() - 1 {
        lemma_gens_of_buckets_index(bs.drop_last(), i);
        assert(bs.drop_last()[i] == bs[i]);
    }
}

/// A dictionary that does not masquerade as a classifier never decodes as
/// one.
pub proof fn lemma_plain_dict(entries: Seq<(Seq<char>, SpecVal)>)
    requires
        !crate::values::dict_classifier_like(entries),
    ensures
        classify_shallow(entries) == Option::None::<SpecClassifier>,
{
    match tag_of(entries) {
        Option::Some(t) => {
            match lookup(entries, "__type"@) {
                Option::Some(SpecVal::Str(t0)) => {
                    lemma_lookup_found(entries, "__type"@, SpecVal::Str(t0));
                    assert(!recognized_tag(t0));
                },
                _ => {
                    match lookup(entries, "type"@) {
                        Option::Some(SpecVal::Str(t1)) => {
                            lemma_lookup_found(entries, "type"@, SpecVal::Str(t1));
                            assert(!recognized_tag(t1));
                        },
                        _ => {},
                    }
                },
            }
            assert(!recognized_tag(t));
        },
        Option::None => {},
    }
}


/// The wire form of a well-formed attribute is already normal, reads back
/// as the same attribute, and prints.
pub proof fn lemma_attr_roundtrip(a: SpecAttr)
    requires
        crate::classifier::wf_attr(a),
    ensures
        attr_of(gen_of_attr(a)) == Option::Some(a),
        val_of(gen_of_attr(a)) == gen_of_attr(a),
        printable(gen_of_attr(a)),
{
    lemma_wire_words();
    match a {
        SpecAttr::StaticNumber(n) => {
            let e = seq![("name"@, SpecVal::Str("static.number"@)), ("value"@, SpecVal::Num(n))];
            assert(gen_of_attr(a) == SpecVal::Dict(e));
        assert(seq![("name"@, SpecVal::Str("static.number"@)), ("value"@, SpecVal::Num(n))].drop_first() =~= seq![("value"@, SpecVal::Num(n))]);
        assert(seq![("value"@, SpecVal::Num(n))].drop_first() =~= Seq::<(Seq<char>, SpecVal)>::empty());
        assert(lookup(seq![("name"@, SpecVal::Str("static.number"@)), ("value"@, SpecVal::Num(n))], "name"@) == Option::Some(SpecVal::Str("static.number"@)));
        assert(lookup(Seq::<(Seq<char>, SpecVal)>::empty(), "__type"@) == Option::None::<SpecVal>);
        assert(lookup(seq![("value"@, SpecVal::Num(n))], "__type"@) == Option::None::<SpecVal>);
        assert(lookup(seq![("name"@, SpecVal::Str("static.number"@)), ("value"@, SpecVal::Num(n))], "__type"@) == Option::None::<SpecVal>);
        assert(lookup(Seq::<(Seq<char>, SpecVal)>::empty(), "type"@) == Option::None::<SpecVal>);
        assert(lookup(seq![("value"@, SpecVal::Num(n))], "type"@) == Option::None::<SpecVal>);
        assert(lookup(seq![("name"@, SpecVal::Str("static.number"@)), ("value"@, SpecVal::Num(n))], "type"@) == Option::None::<SpecVal>);
        assert(lookup(seq![("value"@, SpecVal::Num(n))], "value"@) == Option::Some(SpecVal::Num(n)));
        assert(lookup(seq![("name"@, SpecVal::Str("static.number"@)), ("value"@, SpecVal::Num(n))], "value"@) == Option::Some(SpecVal::Num(n)));
            assert(val_of(SpecVal::Num(n)) == SpecVal::Num(n));
            assert(e.drop_last() =~= seq![("name"@, SpecVal::Str("static.number"@))]);
            assert(seq![("name"@, SpecVal::Str("static.number"@))].drop_last() =~= Seq::<(Seq<char>, SpecVal)>::empty());
            assert(val_of(SpecVal::Str("static.number"@)) == SpecVal::Str("static.number"@));
            assert(entries_of(Seq::<(Seq<char>, SpecVal)>::empty()) == Seq::<(Seq<char>, SpecVal)>::empty());
            assert(entries_of(seq![("name"@, SpecVal::Str("static.number"@))]) =~= seq![("name"@, SpecVal::Str("static.number"@))]);
            assert(entries_of(e) =~= e);
            assert(val_of(gen_of_attr(a)) == gen_of_attr(a));
            assert forall|i: int| 0 <= i < e.len() implies str_printable(#[trigger] e[i].0) && printable(e[i].1) by {
                if i == 0 {
                    assert(e[0].0 == "name"@ && e[0].1 == SpecVal::Str("static.number"@));
                    assert(printable(e[0].1));
                }
                if i == 1 {
                    assert(e[1].0 == "value"@ && e[1].1 == SpecVal::Num(n));
                    assert(printable(e[1].1));
                }
            }
            assert(printable(gen_of_attr(a)));
        },
        SpecAttr::Hostname => {
            let e = seq![("name"@, SpecVal::Str("socket.hostname"@))];
            assert(gen_of_attr(a) == SpecVal::Dict(e));
        assert(seq![("name"@, SpecVal::Str("socket.hostname"@))].drop_first() =~= Seq::<(Seq<char>, SpecVal)>::empty());
        assert(lookup(seq![("name"@, SpecVal::Str("socket.hostname"@))], "name"@) == Option::Some(SpecVal::Str("socket.hostname"@)));
        assert(lookup(Seq::<(Seq<char>, SpecVal)>::empty(), "__type"@) == Option::None::<SpecVal>);
        assert(lookup(seq![("name"@, SpecVal::Str("socket.hostname"@))], "__type"@) == Option::None::<SpecVal>);
        assert(lookup(Seq::<(Seq<char>, SpecVal)>::empty(), "type"@) == Option::None::<SpecVal>);
        assert(lookup(seq![("name"@, SpecVal::Str("socket.hostname"@))], "type"@) == Option::None::<SpecVal>);
        assert(lookup(Seq::<(Seq<char>, SpecVal)>::empty(), "value"@) == Option::None::<SpecVal>);
        assert(lookup(seq![("name"@, SpecVal::Str("socket.hostname"@))], "value"@) == Option::None::<SpecVal>);
            assert(val_of(SpecVal::Str("socket.hostname"@)) == SpecVal::Str("socket.hostname"@));
            assert(e.drop_last() =~= Seq::<(Seq<char>, SpecVal)>::empty());
            assert(entries_of(Seq::<(Seq<char>, SpecVal)>::empty()) == Seq::<(Seq<char>, SpecVal)>::empty());
            assert(entries_of(e) =~= e);
            assert(val_of(gen_of_attr(a)) == gen_of_attr(a));
            assert forall|i: int| 0 <= i < e.len() implies str_printable(#[trigger] e[i].0) && printable(e[i].1) by {
                if i == 0 {
                    assert(e[0].0 == "name"@ && e[0].1 == SpecVal::Str("socket.hostname"@));
                    assert(printable(e[0].1));
                }
            }
            assert(printable(gen_of_attr(a)));
        },
        SpecAttr::SessionRandom => {
            let e = seq![("name"@, SpecVal::Str("random.session"@))];
            assert(gen_of_attr(a) == SpecVal::Dict(e));
        assert(seq![("name"@, SpecVal::Str("random.session"@))].drop_first() =~= Seq::<(Seq<char>, SpecVal)>::empty());
        assert(lookup(seq![("name"@, SpecVal::Str("random.session"@))], "name"@) == Option::Some(SpecVal::Str("random.session"@)));
        assert(lookup(Seq::<(Seq<char>, SpecVal)>::empty(), "__type"@) == Option::None::<SpecVal>);
        assert(lookup(seq![("name"@, SpecVal::Str("random.session"@))], "__type"@) == Option::None::<SpecVal>);
        assert(lookup(Seq::<(Seq<char>, SpecVal)>::empty(), "type"@) == Option::None::<SpecVal>);
        assert(lookup(seq![("name"@, SpecVal::Str("random.session"@))], "type"@) == Option::None::<SpecVal>);
        assert(lookup(Seq::<(Seq<char>, SpecVal)>::empty(), "value"@) == Option::None::<SpecVal>);
        assert(lookup(seq![("name"@, SpecVal::Str("random.session"@))], "value"@) == Option::None::<SpecVal>);
            assert(val_of(SpecVal::Str("random.session"@)) == SpecVal::Str("random.session"@));
            assert(e.drop_last() =~= Seq::<(Seq<char>, SpecVal)>::empty());
            assert(entries_of(Seq::<(Seq<char>, SpecVal)>::empty()) == Seq::<(Seq<char>, SpecVal)>::empty());
            assert(entries_of(e) =~= e);
            assert(val_of(gen_of_attr(a)) == gen_of_attr(a));
            assert forall|i: int| 0 <= i < e.len() implies str_printable(#[trigger] e[i].0) && printable(e[i].1) by {
                if i == 0 {
                    assert(e[0].0 == "name"@ && e[0].1 == SpecVal::Str("random.session"@));
                    assert(printable(e[0].1));
                }
            }
            assert(printable(gen_of_attr(a)));
        },
    }
}

/// A version tag reads back from its wire string.
pub proof fn lemma_version_roundtrip(pv: PythonVersion)
    ensures
        version_of(SpecVal::Str(version_str(pv))) == Option::Some(pv),
        str_printable(version_str(pv)),
{
    lemma_wire_words();
}

/// A list of version tags reads back from its wire strings.
pub proof fn lemma_versions_roundtrip(vs: Seq<PythonVersion>)
    ensures
        versions_of(gens_of_versions(vs)) == Option::Some(vs),
        forall|i: int| 0 <= i < vs.len() ==> printable(#[trigger] gens_of_versions(vs)[i]),
    decreases vs,
{
    if vs.len() == 0 {
        assert(gens_of_versions(vs) =~= Seq::<SpecVal>::empty());
        assert(versions_of(gens_of_versions(vs)) == Option::Some(Seq::<PythonVersion>::empty()));
        assert(vs =~= Seq::<PythonVersion>::empty());
    } else {
        lemma_version_roundtrip(vs[0]);
        lemma_versions_roundtrip(vs.drop_first());
        assert(gens_of_versions(vs)[0] == SpecVal::Str(version_str(vs[0])));
        assert(gens_of_versions(vs).drop_first() =~= gens_of_versions(vs.drop_first()));
        assert(seq![vs[0]] + vs.drop_first() =~= vs);
        assert forall|i: int| 0 <= i < vs.len() implies printable(
            #[trigger] gens_of_versions(vs)[i],
        ) by {
            lemma_version_roundtrip(vs[i]);
            assert(gens_of_versions(vs)[i] == SpecVal::Str(version_str(vs[i])));
        }
    }
}


/// The wire form of a well-formed value normalizes back to exactly that
/// value, and prints.
pub proof fn lemma_val_roundtrip(v: SpecVal)
    requires
        wf_val(v),
    ensures
        val_of(gen_of_val(v)) == v,
        printable(gen_of_val(v)),
    decreases v, 0int,
{
    match v {
        SpecVal::Str(s) => {
            assert(wf_val(v) == str_printable(s));
            assert(gen_of_val(v) == v);
            assert(val_of(v) == v);
            assert(printable(v) == str_printable(s));
        },
        SpecVal::Num(n) => {
            assert(wf_val(v) == (-0x8000_0000_0000_0000 <= n <= 0x7fff_ffff_ffff_ffff));
            assert(gen_of_val(v) == v);
            assert(val_of(v) == v);
            assert(printable(v) == (-0x8000_0000_0000_0000 <= n <= 0x7fff_ffff_ffff_ffff));
        },
        SpecVal::Bool(b) => {
            assert(gen_of_val(v) == v);
            assert(val_of(v) == v);
            assert(printable(v));
        },
        SpecVal::Null => {
            assert(gen_of_val(v) == v);
            assert(val_of(v) == v);
            assert(printable(v));
        },
        SpecVal::Arr(items) => {
            assert(wf_val(v) == (forall|i: int|
                0 <= i < items.len() ==> wf_val(#[trigger] items[i])));
            lemma_vals_gen_roundtrip(items);
            assert(gen_of_val(v) == SpecVal::Arr(gens_of_vals(items)));
            assert(val_of(SpecVal::Arr(gens_of_vals(items))) == SpecVal::Arr(
                vals_of(gens_of_vals(items)),
            ));
            assert(printable(gen_of_val(v)) == (forall|i: int|
                0 <= i < gens_of_vals(items).len() ==> printable(
                    #[trigger] gens_of_vals(items)[i],
                )));
        },
        SpecVal::Dict(entries) => {
            assert(wf_val(v) == (!crate::values::dict_classifier_like(entries) && forall|i: int|
                0 <= i < entries.len() ==> str_printable(#[trigger] entries[i].0) && wf_val(
                    entries[i].1,
                )));
            lemma_entries_gen_roundtrip(entries);
            lemma_plain_dict(entries);
            assert(gen_of_val(v) == SpecVal::Dict(gens_of_entries(entries)));
            assert(val_of(gen_of_val(v)) == SpecVal::Dict(entries));
            assert(printable(gen_of_val(v)) == (forall|i: int|
                0 <= i < gens_of_entries(entries).len() ==> str_printable(
                    #[trigger] gens_of_entries(entries)[i].0,
                ) && printable(gens_of_entries(entries)[i].1)));
        },
        SpecVal::Expr(cb) => {
            assert(wf_val(v) == crate::classifier::wf_classifier(*cb));
            lemma_classifier_roundtrip(*cb);
            assert(gen_of_val(v) == gen_of_classifier(*cb));
            assert(Box::new(*cb) == cb);
            assert(val_of(gen_of_val(v)) == v);
        },
    }
}

/// Element-wise round trip for value lists.
pub proof fn lemma_vals_gen_roundtrip(items: Seq<SpecVal>)
    requires
        forall|i: int| 0 <= i < items.len() ==> wf_val(#[trigger] items[i]),
    ensures
        gens_of_vals(items).len() == items.len(),
        vals_of(gens_of_vals(items)) == items,
        forall|i: int| 0 <= i < items.len() ==> printable(#[trigger] gens_of_vals(items)[i]),
    decreases items, 2int,
{
    lemma_gens_of_vals_len(items);
    if items.len() == 0 {
        assert(gens_of_vals(items) =~= Seq::<SpecVal>::empty());
        assert(vals_of(Seq::<SpecVal>::empty()) == Seq::<SpecVal>::empty());
        assert(items =~= Seq::<SpecVal>::empty());
    } else {
        let pre = items.drop_last();
        assert(forall|i: int| 0 <= i < pre.len() ==> pre[i] == items[i]);
        lemma_vals_gen_roundtrip(pre);
        lemma_val_roundtrip(items.last());
        let g = gens_of_vals(items);
        assert(g == gens_of_vals(pre).push(gen_of_val(items.last())));
        assert(g.drop_last() =~= gens_of_vals(pre));
        assert(g.last() == gen_of_val(items.last()));
        assert(vals_of(g) == vals_of(g.drop_last()).push(val_of(g.last())));
        assert(vals_of(g.drop_last()) == vals_of(gens_of_vals(pre)));
        assert(vals_of(g) =~= items);
        assert forall|i: int| 0 <= i < items.len() implies printable(#[trigger] g[i]) by {
            if i < pre.len() {
                assert(g[i] == gens_of_vals(pre)[i]);
            } else {
                assert(g[i] == gen_of_val(items.last()));
            }
        }
    }
}

/// Element-wise round trip for keyed entry lists.
pub proof fn lemma_entries_gen_roundtrip(entries: Seq<(Seq<char>, SpecVal)>)
    requires
        forall|i: int| 0 <= i < entries.len() ==> str_printable(#[trigger] entries[i].0) && wf_val(
            entries[i].1,
        ),
    ensures
        gens_of_entries(entries).len() == entries.len(),
        entries_of(gens_of_entries(entries)) == entries,
        forall|i: int| 0 <= i < entries.len() ==> str_printable(
            #[trigger] gens_of_entries(entries)[i].0,
        ) && printable(gens_of_entries(entries)[i].1),
    decreases entries, 2int,
{
    lemma_gens_of_entries_len(entries);
    if entries.len() == 0 {
        assert(gens_of_entries(entries) =~= Seq::<(Seq<char>, SpecVal)>::empty());
        assert(entries_of(Seq::<(Seq<char>, SpecVal)>::empty()) == Seq::<(
            Seq<char>,
            SpecVal,
        )>::empty());
        assert(entries =~= Seq::<(Seq<char>, SpecVal)>::empty());
    } else {
        let pre = entries.drop_last();
        assert(forall|i: int| 0 <= i < pre.len() ==> pre[i] == entries[i]);
        lemma_entries_gen_roundtrip(pre);
        lemma_val_roundtrip(entries.last().1);
        let g = gens_of_entries(entries);
        assert(g == gens_of_entries(pre).push((entries.last().0, gen_of_val(entries.last().1))));
        assert(g.drop_last() =~= gens_of_entries(pre));
        assert(g.last() == (entries.last().0, gen_of_val(entries.last().1)));
        assert(entries_of(g) == entries_of(g.drop_last()).push((g.last().0, val_of(g.last().1))));
        assert(entries_of(g.drop_last()) == entries_of(gens_of_entries(pre)));
        assert(entries_of(g) =~= entries);
        assert forall|i: int| 0 <= i < entries.len() implies str_printable(#[trigger] g[i].0)
            && printable(g[i].1) by {
            if i < pre.len() {
                assert(g[i] == gens_of_entries(pre)[i]);
            } else {
                assert(g[i] == (entries.last().0, gen_of_val(entries.last().1)));
            }
        }
    }
}

/// Element-wise round trip for classifier lists: each wire form normalizes
/// back to its classifier node.
pub proof fn lemma_classifiers_gen_roundtrip(cs: Seq<SpecClassifier>)
    requires
        forall|i: int| 0 <= i < cs.len() ==> crate::classifier::wf_classifier(#[trigger] cs[i]),
    ensures
        gens_of_classifiers(cs).len() == cs.len(),
        vals_of(gens_of_classifiers(cs)).len() == cs.len(),
        forall|i: int| 0 <= i < cs.len() ==> vals_of(gens_of_classifiers(cs))[i]
            == SpecVal::Expr(Box::new(#[trigger] cs[i])),
        forall|i: int| 0 <= i < cs.len() ==> printable(#[trigger] gens_of_classifiers(cs)[i]),
    decreases cs, 2int,
{
    lemma_gens_of_classifiers_len(cs);
    lemma_vals_of_len(gens_of_classifiers(cs));
    if cs.len() == 0 {
    } else {
        let pre = cs.drop_last();
        assert(forall|i: int| 0 <= i < pre.len() ==> pre[i] == cs[i]);
        lemma_classifiers_gen_roundtrip(pre);
        lemma_classifier_roundtrip(cs.last());
        let g = gens_of_classifiers(cs);
        assert(g == gens_of_classifiers(pre).push(gen_of_classifier(cs.last())));
        assert(g.drop_last() =~= gens_of_classifiers(pre));
        assert(g.last() == gen_of_classifier(cs.last()));
        assert(vals_of(g) == vals_of(g.drop_last()).push(val_of(g.last())));
        assert(vals_of(g.drop_last()) == vals_of(gens_of_classifiers(pre)));
        assert forall|i: int| 0 <= i < cs.len() implies vals_of(g)[i] == SpecVal::Expr(
            Box::new(#[trigger] cs[i]),
        ) by {
            lemma_vals_of_len(gens_of_classifiers(pre));
            if i < pre.len() {
                assert(vals_of(g)[i] == vals_of(gens_of_classifiers(pre))[i]);
            } else {
                assert(vals_of(g)[i] == val_of(g.last()));
            }
        }
        assert forall|i: int| 0 <= i < cs.len() implies printable(#[trigger] g[i]) by {
            if i < pre.len() {
                assert(g[i] == gens_of_classifiers(pre)[i]);
            } else {
                assert(g[i] == gen_of_classifier(cs.last()));
            }
        }
    }
}

/// The wire form of a well-formed classifier normalizes back to exactly
/// that classifier, and prints.
#[verifier::rlimit(100)]
pub proof fn lemma_classifier_roundtrip(c: SpecClassifier)
    requires
        crate::classifier::wf_classifier(c),
    ensures
        val_of(gen_of_classifier(c)) == SpecVal::Expr(Box::new(c)),
        printable(gen_of_classifier(c)),
    decreases c, 1int,
{
    lemma_wire_words();
    match c {
        SpecClassifier::RegexMatch(a, lit) => {
            assert(wf_classifier(c) == (crate::classifier::wf_attr(a) && wf_val(lit)));
            lemma_attr_roundtrip(a);
            lemma_val_roundtrip(lit);
            assert(gen_of_classifier(c) == SpecVal::Dict(seq![("__type"@, SpecVal::Str("re.match"@)), ("attribute"@, gen_of_attr(a)), ("value"@, gen_of_val(lit))]));
            assert(val_of(SpecVal::Str("re.match"@)) == SpecVal::Str("re.match"@));
            assert(seq![("__type"@, SpecVal::Str("re.match"@)), ("attribute"@, gen_of_attr(a)), ("value"@, gen_of_val(lit))].drop_last() =~= seq![("__type"@, SpecVal::Str("re.match"@)), ("attribute"@, gen_of_attr(a))]);
            assert(seq![("__type"@, SpecVal::Str("re.match"@)), ("attribute"@, gen_of_attr(a))].drop_last() =~= seq![("__type"@, SpecVal::Str("re.match"@))]);
            assert(seq![("__type"@, SpecVal::Str("re.match"@))].drop_last() =~= Seq::<(Seq<char>, SpecVal)>::empty());
            assert(entries_of(Seq::<(Seq<char>, SpecVal)>::empty()) == Seq::<(Seq<char>, SpecVal)>::empty());
            assert(entries_of(seq![("__type"@, SpecVal::Str("re.match"@))]) =~= seq![("__type"@, SpecVal::Str("re.match"@))]);
            assert(entries_of(seq![("__type"@, SpecVal::Str("re.match"@)), ("attribute"@, gen_of_attr(a))]) =~= seq![("__type"@, SpecVal::Str("re.match"@)), ("attribute"@, gen_of_attr(a))]);
            assert(entries_of(seq![("__type"@, SpecVal::Str("re.match"@)), ("attribute"@, gen_of_attr(a)), ("value"@, gen_of_val(lit))]) =~= seq![("__type"@, SpecVal::Str("re.match"@)), ("attribute"@, gen_of_attr(a)), ("value"@, lit)]);
            assert(seq![("__type"@, SpecVal::Str("re.match"@)), ("attribute"@, gen_of_attr(a)), ("value"@, lit)].drop_first() =~= seq![("attribute"@, gen_of_attr(a)), ("value"@, lit)]);
            assert(seq![("attribute"@, gen_of_attr(a)), ("value"@, lit)].drop_first() =~= seq![("value"@, lit)]);
            assert(seq![("value"@, lit)].drop_first() =~= Seq::<(Seq<char>, SpecVal)>::empty());
            assert(lookup(seq![("__type"@, SpecVal::Str("re.match"@)), ("attribute"@, gen_of_attr(a)), ("value"@, lit)], "__type"@) == Option::Some(SpecVal::Str("re.match"@)));
            assert(lookup(seq![("attribute"@, gen_of_attr(a)), ("value"@, lit)], "attribute"@) == Option::Some(gen_of_attr(a)));
            assert(lookup(seq![("__type"@, SpecVal::Str("re.match"@)), ("attribute"@, gen_of_attr(a)), ("value"@, lit)], "attribute"@) == Option::Some(gen_of_attr(a)));
            assert(lookup(seq![("value"@, lit)], "value"@) == Option::Some(lit));
            assert(lookup(seq![("attribute"@, gen_of_attr(a)), ("value"@, lit)], "value"@) == Option::Some(lit));
            assert(lookup(seq![("__type"@, SpecVal::Str("re.match"@)), ("attribute"@, gen_of_attr(a)), ("value"@, lit)], "value"@) == Option::Some(lit));
            assert(recognized_tag("re.match"@));
            assert(mk_leaf("re.match"@, a, lit) == SpecClassifier::RegexMatch(a, lit));
            assert(classify_shallow(seq![("__type"@, SpecVal::Str("re.match"@)), ("attribute"@, gen_of_attr(a)), ("value"@, lit)]) == Option::Some(c));
            assert(val_of(gen_of_classifier(c)) == SpecVal::Expr(Box::new(c)));
            let pe = seq![("__type"@, SpecVal::Str("re.match"@)), ("attribute"@, gen_of_attr(a)), ("value"@, gen_of_val(lit))];
            assert forall|i: int| 0 <= i < pe.len() implies str_printable(#[trigger] pe[i].0) && printable(pe[i].1) by {
                if i == 0 {
                    assert(pe[0] == ("__type"@, SpecVal::Str("re.match"@)));
                    assert(printable(SpecVal::Str("re.match"@)));
                }
                if i == 1 {
                    assert(pe[1] == ("attribute"@, gen_of_attr(a)));
                    assert(printable(gen_of_attr(a)));
                }
                if i == 2 {
                    assert(pe[2] == ("value"@, gen_of_val(lit)));
                    assert(printable(gen_of_val(lit)));
                }
            }
            assert(printable(gen_of_classifier(c)));
        },
        SpecClassifier::Lt(a, lit) => {
            assert(wf_classifier(c) == (crate::classifier::wf_attr(a) && wf_val(lit)));
            lemma_attr_roundtrip(a);
            lemma_val_roundtrip(lit);
            assert(gen_of_classifier(c) == SpecVal::Dict(seq![("__type"@, SpecVal::Str("comparison.lt"@)), ("attribute"@, gen_of_attr(a)), ("value"@, gen_of_val(lit))]));
            assert(val_of(SpecVal::Str("comparison.lt"@)) == SpecVal::Str("comparison.lt"@));
            assert(seq![("__type"@, SpecVal::Str("comparison.lt"@)), ("attribute"@, gen_of_attr(a)), ("value"@, gen_of_val(lit))].drop_last() =~= seq![("__type"@, SpecVal::Str("comparison.lt"@)), ("attribute"@, gen_of_attr(a))]);
            assert(seq![("__type"@, SpecVal::Str("comparison.lt"@)), ("attribute"@, gen_of_attr(a))].drop_last() =~= seq![("__type"@, SpecVal::Str("comparison.lt"@))]);
            assert(seq![("__type"@, SpecVal::Str("comparison.lt"@))].drop_last() =~= Seq::<(Seq<char>, SpecVal)>::empty());
            assert(entries_of(Seq::<(Seq<char>, SpecVal)>::empty()) == Seq::<(Seq<char>, SpecVal)>::empty());
            assert(entries_of(seq![("__type"@, SpecVal::Str("comparison.lt"@))]) =~= seq![("__type"@, SpecVal::Str("comparison.lt"@))]);
            assert(entries_of(seq![("__type"@, SpecVal::Str("comparison.lt"@)), ("attribute"@, gen_of_attr(a))]) =~= seq![("__type"@, SpecVal::Str("comparison.lt"@)), ("attribute"@, gen_of_attr(a))]);
            assert(entries_of(seq![("__type"@, SpecVal::Str("comparison.lt"@)), ("attribute"@, gen_of_attr(a)), ("value"@, gen_of_val(lit))]) =~= seq![("__type"@, SpecVal::Str("comparison.lt"@)), ("attribute"@, gen_of_attr(a)), ("value"@, lit)]);
            assert(seq![("__type"@, SpecVal::Str("comparison.lt"@)), ("attribute"@, gen_of_attr(a)), ("value"@, lit)].drop_first() =~= seq![("attribute"@, gen_of_attr(a)), ("value"@, lit)]);
            assert(seq![("attribute"@, gen_of_attr(a)), ("value"@, lit)].drop_first() =~= seq![("value"@, lit)]);
            assert(seq![("value"@, lit)].drop_first() =~= Seq::<(Seq<char>, SpecVal)>::empty());
            assert(lookup(seq![("__type"@, SpecVal::Str("comparison.lt"@)), ("attribute"@, gen_of_attr(a)), ("value"@, lit)], "__type"@) == Option::Some(SpecVal::Str("comparison.lt"@)));
            assert(lookup(seq![("attribute"@, gen_of_attr(a)), ("value"@, lit)], "attribute"@) == Option::Some(gen_of_attr(a)));
            assert(lookup(seq![("__type"@, SpecVal::Str("comparison.lt"@)), ("attribute"@, gen_of_attr(a)), ("value"@, lit)], "attribute"@) == Option::Some(gen_of_attr(a)));
            assert(lookup(seq![("value"@, lit)], "value"@) == Option::Some(lit));
            assert(lookup(seq![("attribute"@, gen_of_attr(a)), ("value"@, lit)], "value"@) == Option::Some(lit));
            assert(lookup(seq![("__type"@, SpecVal::Str("comparison.lt"@)), ("attribute"@, gen_of_attr(a)), ("value"@, lit)], "value"@) == Option::Some(lit));
            assert(recognized_tag("comparison.lt"@));
            assert(mk_leaf("comparison.lt"@, a, lit) == SpecClassifier::Lt(a, lit));
            assert(classify_shallow(seq![("__type"@, SpecVal::Str("comparison.lt"@)), ("attribute"@, gen_of_attr(a)), ("value"@, lit)]) == Option::Some(c));
            assert(val_of(gen_of_classifier(c)) == SpecVal::Expr(Box::new(c)));
            let pe = seq![("__type"@, SpecVal::Str("comparison.lt"@)), ("attribute"@, gen_of_attr(a)), ("value"@, gen_of_val(lit))];
            assert forall|i: int| 0 <= i < pe.len() implies str_printable(#[trigger] pe[i].0) && printable(pe[i].1) by {
                if i == 0 {
                    assert(pe[0] == ("__type"@, SpecVal::Str("comparison.lt"@)));
                    assert(printable(SpecVal::Str("comparison.lt"@)));
                }
                if i == 1 {
                    assert(pe[1] == ("attribute"@, gen_of_attr(a)));
                    assert(printable(gen_of_attr(a)));
                }
                if i == 2 {
                    assert(pe[2] == ("value"@, gen_of_val(lit)));
                    assert(printable(gen_of_val(lit)));
                }
            }
            assert(printable(gen_of_classifier(c)));
        },
        SpecClassifier::Gt(a, lit) => {
            assert(wf_classifier(c) == (crate::classifier::wf_attr(a) && wf_val(lit)));
            lemma_attr_roundtrip(a);
            lemma_val_roundtrip(lit);
            assert(gen_of_classifier(c) == SpecVal::Dict(seq![("__type"@, SpecVal::Str("comparison.gt"@)), ("attribute"@, gen_of_attr(a)), ("value"@, gen_of_val(lit))]));
            assert(val_of(SpecVal::Str("comparison.gt"@)) == SpecVal::Str("comparison.gt"@));
            assert(seq![("__type"@, SpecVal::Str("comparison.gt"@)), ("attribute"@, gen_of_attr(a)), ("value"@, gen_of_val(lit))].drop_last() =~= seq![("__type"@, SpecVal::Str("comparison.gt"@)), ("attribute"@, gen_of_attr(a))]);
            assert(seq![("__type"@, SpecVal::Str("comparison.gt"@)), ("attribute"@, gen_of_attr(a))].drop_last() =~= seq![("__type"@, SpecVal::Str("comparison.gt"@))]);
            assert(seq![("__type"@, SpecVal::Str("comparison.gt"@))].drop_last() =~= Seq::<(Seq<char>, SpecVal)>::empty());
            assert(entries_of(Seq::<(Seq<char>, SpecVal)>::empty()) == Seq::<(Seq<char>, SpecVal)>::empty());
            assert(entries_of(seq![("__type"@, SpecVal::Str("comparison.gt"@))]) =~= seq![("__type"@, SpecVal::Str("comparison.gt"@))]);
            assert(entries_of(seq![("__type"@, SpecVal::Str("comparison.gt"@)), ("attribute"@, gen_of_attr(a))]) =~= seq![("__type"@, SpecVal::Str("comparison.gt"@)), ("attribute"@, gen_of_attr(a))]);
            assert(entries_of(seq![("__type"@, SpecVal::Str("comparison.gt"@)), ("attribute"@, gen_of_attr(a)), ("value"@, gen_of_val(lit))]) =~= seq![("__type"@, SpecVal::Str("comparison.gt"@)), ("attribute"@, gen_of_attr(a)), ("value"@, lit)]);
            assert(seq![("__type"@, SpecVal::Str("comparison.gt"@)), ("attribute"@, gen_of_attr(a)), ("value"@, lit)].drop_first() =~= seq![("attribute"@, gen_of_attr(a)), ("value"@, lit)]);
            assert(seq![("attribute"@, gen_of_attr(a)), ("value"@, lit)].drop_first() =~= seq![("value"@, lit)]);
            assert(seq![("value"@, lit)].drop_first() =~= Seq::<(Seq<char>, SpecVal)>::empty());
            assert(lookup(seq![("__type"@, SpecVal::Str("comparison.gt"@)), ("attribute"@, gen_of_attr(a)), ("value"@, lit)], "__type"@) == Option::Some(SpecVal::Str("comparison.gt"@)));
            assert(lookup(seq![("attribute"@, gen_of_attr(a)), ("value"@, lit)], "attribute"@) == Option::Some(gen_of_attr(a)));
            assert(lookup(seq![("__type"@, SpecVal::Str("comparison.gt"@)), ("attribute"@, gen_of_attr(a)), ("value"@, lit)], "attribute"@) == Option::Some(gen_of_attr(a)));
            assert(lookup(seq![("value"@, lit)], "value"@) == Option::Some(lit));
            assert(lookup(seq![("attribute"@, gen_of_attr(a)), ("value"@, lit)], "value"@) == Option::Some(lit));
            assert(lookup(seq![("__type"@, SpecVal::Str("comparison.gt"@)), ("attribute"@, gen_of_attr(a)), ("value"@, lit)], "value"@) == Option::Some(lit));
            assert(recognized_tag("comparison.gt"@));
            assert(mk_leaf("comparison.gt"@, a, lit) == SpecClassifier::Gt(a, lit));
            assert(classify_shallow(seq![("__type"@, SpecVal::Str("comparison.gt"@)), ("attribute"@, gen_of_attr(a)), ("value"@, lit)]) == Option::Some(c));
            assert(val_of(gen_of_classifier(c)) == SpecVal::Expr(Box::new(c)));
            let pe = seq![("__type"@, SpecVal::Str("comparison.gt"@)), ("attribute"@, gen_of_attr(a)), ("value"@, gen_of_val(lit))];
            assert forall|i: int| 0 <= i < pe.len() implies str_printable(#[trigger] pe[i].0) && printable(pe[i].1) by {
                if i == 0 {
                    assert(pe[0] == ("__type"@, SpecVal::Str("comparison.gt"@)));
                    assert(printable(SpecVal::Str("comparison.gt"@)));
                }
                if i == 1 {
                    assert(pe[1] == ("attribute"@, gen_of_attr(a)));
                    assert(printable(gen_of_attr(a)));
                }
                if i == 2 {
                    assert(pe[2] == ("value"@, gen_of_val(lit)));
                    assert(printable(gen_of_val(lit)));
                }
            }
            assert(printable(gen_of_classifier(c)));
        },
        SpecClassifier::Gte(a, lit) => {
            assert(wf_classifier(c) == (crate::classifier::wf_attr(a) && wf_val(lit)));
            lemma_attr_roundtrip(a);
            lemma_val_roundtrip(lit);
            assert(gen_of_classifier(c) == SpecVal::Dict(seq![("__type"@, SpecVal::Str("comparison.gte"@)), ("attribute"@, gen_of_attr(a)), ("value"@, gen_of_val(lit))]));
            assert(val_of(SpecVal::Str("comparison.gte"@)) == SpecVal::Str("comparison.gte"@));
            assert(seq![("__type"@, SpecVal::Str("comparison.gte"@)), ("attribute"@, gen_of_attr(a)), ("value"@, gen_of_val(lit))].drop_last() =~= seq![("__type"@, SpecVal::Str("comparison.gte"@)), ("attribute"@, gen_of_attr(a))]);
            assert(seq![("__type"@, SpecVal::Str("comparison.gte"@)), ("attribute"@, gen_of_attr(a))].drop_last() =~= seq![("__type"@, SpecVal::Str("comparison.gte"@))]);
            assert(seq![("__type"@, SpecVal::Str("comparison.gte"@))].drop_last() =~= Seq::<(Seq<char>, SpecVal)>::empty());
            assert(entries_of(Seq::<(Seq<char>, SpecVal)>::empty()) == Seq::<(Seq<char>, SpecVal)>::empty());
            assert(entries_of(seq![("__type"@, SpecVal::Str("comparison.gte"@))]) =~= seq![("__type"@, SpecVal::Str("comparison.gte"@))]);
            assert(entries_of(seq![("__type"@, SpecVal::Str("comparison.gte"@)), ("attribute"@, gen_of_attr(a))]) =~= seq![("__type"@, SpecVal::Str("comparison.gte"@)), ("attribute"@, gen_of_attr(a))]);
            assert(entries_of(seq![("__type"@, SpecVal::Str("comparison.gte"@)), ("attribute"@, gen_of_attr(a)), ("value"@, gen_of_val(lit))]) =~= seq![("__type"@, SpecVal::Str("comparison.gte"@)), ("attribute"@, gen_of_attr(a)), ("value"@, lit)]);
            assert(seq![("__type"@, SpecVal::Str("comparison.gte"@)), ("attribute"@, gen_of_attr(a)), ("value"@, lit)].drop_first() =~= seq![("attribute"@, gen_of_attr(a)), ("value"@, lit)]);
            assert(seq![("attribute"@, gen_of_attr(a)), ("value"@, lit)].drop_first() =~= seq![("value"@, lit)]);
            assert(seq![("value"@, lit)].drop_first() =~= Seq::<(Seq<char>, SpecVal)>::empty());
            assert(lookup(seq![("__type"@, SpecVal::Str("comparison.gte"@)), ("attribute"@, gen_of_attr(a)), ("value"@, lit)], "__type"@) == Option::Some(SpecVal::Str("comparison.gte"@)));
            assert(lookup(seq![("attribute"@, gen_of_attr(a)), ("value"@, lit)], "attribute"@) == Option::Some(gen_of_attr(a)));
            assert(lookup(seq![("__type"@, SpecVal::Str("comparison.gte"@)), ("attribute"@, gen_of_attr(a)), ("value"@, lit)], "attribute"@) == Option::Some(gen_of_attr(a)));
            assert(lookup(seq![("value"@, lit)], "value"@) == Option::Some(lit));
            assert(lookup(seq![("attribute"@, gen_of_attr(a)), ("value"@, lit)], "value"@) == Option::Some(lit));
            assert(lookup(seq![("__type"@, SpecVal::Str("comparison.gte"@)), ("attribute"@, gen_of_attr(a)), ("value"@, lit)], "value"@) == Option::Some(lit));
            assert(recognized_tag("comparison.gte"@));
            assert(mk_leaf("comparison.gte"@, a, lit) == SpecClassifier::Gte(a, lit));
            assert(classify_shallow(seq![("__type"@, SpecVal::Str("comparison.gte"@)), ("attribute"@, gen_of_attr(a)), ("value"@, lit)]) == Option::Some(c));
            assert(val_of(gen_of_classifier(c)) == SpecVal::Expr(Box::new(c)));
            let pe = seq![("__type"@, SpecVal::Str("comparison.gte"@)), ("attribute"@, gen_of_attr(a)), ("value"@, gen_of_val(lit))];
            assert forall|i: int| 0 <= i < pe.len() implies str_printable(#[trigger] pe[i].0) && printable(pe[i].1) by {
                if i == 0 {
                    assert(pe[0] == ("__type"@, SpecVal::Str("comparison.gte"@)));
                    assert(printable(SpecVal::Str("comparison.gte"@)));
                }
                if i == 1 {
                    assert(pe[1] == ("attribute"@, gen_of_attr(a)));
                    assert(printable(gen_of_attr(a)));
                }
                if i == 2 {
                    assert(pe[2] == ("value"@, gen_of_val(lit)));
                    assert(printable(gen_of_val(lit)));
                }
            }
            assert(printable(gen_of_classifier(c)));
        },
        SpecClassifier::Lte(a, lit) => {
            assert(wf_classifier(c) == (crate::classifier::wf_attr(a) && wf_val(lit)));
            lemma_attr_roundtrip(a);
            lemma_val_roundtrip(lit);
            assert(gen_of_classifier(c) == SpecVal::Dict(seq![("__type"@, SpecVal::Str("comparison.lte"@)), ("attribute"@, gen_of_attr(a)), ("value"@, gen_of_val(lit))]));
            assert(val_of(SpecVal::Str("comparison.lte"@)) == SpecVal::Str("comparison.lte"@));
            assert(seq![("__type"@, SpecVal::Str("comparison.lte"@)), ("attribute"@, gen_of_attr(a)), ("value"@, gen_of_val(lit))].drop_last() =~= seq![("__type"@, SpecVal::Str("comparison.lte"@)), ("attribute"@, gen_of_attr(a))]);
            assert(seq![("__type"@, SpecVal::Str("comparison.lte"@)), ("attribute"@, gen_of_attr(a))].drop_last() =~= seq![("__type"@, SpecVal::Str("comparison.lte"@))]);
            assert(seq![("__type"@, SpecVal::Str("comparison.lte"@))].drop_last() =~= Seq::<(Seq<char>, SpecVal)>::empty());
            assert(entries_of(Seq::<(Seq<char>, SpecVal)>::empty()) == Seq::<(Seq<char>, SpecVal)>::empty());
            assert(entries_of(seq![("__type"@, SpecVal::Str("comparison.lte"@))]) =~= seq![("__type"@, SpecVal::Str("comparison.lte"@))]);
            assert(entries_of(seq![("__type"@, SpecVal::Str("comparison.lte"@)), ("attribute"@, gen_of_attr(a))]) =~= seq![("__type"@, SpecVal::Str("comparison.lte"@)), ("attribute"@, gen_of_attr(a))]);
            assert(entries_of(seq![("__type"@, SpecVal::Str("comparison.lte"@)), ("attribute"@, gen_of_attr(a)), ("value"@, gen_of_val(lit))]) =~= seq![("__type"@, SpecVal::Str("comparison.lte"@)), ("attribute"@, gen_of_attr(a)), ("value"@, lit)]);
            assert(seq![("__type"@, SpecVal::Str("comparison.lte"@)), ("attribute"@, gen_of_attr(a)), ("value"@, lit)].drop_first() =~= seq![("attribute"@, gen_of_attr(a)), ("value"@, lit)]);
            assert(seq![("attribute"@, gen_of_attr(a)), ("value"@, lit)].drop_first() =~= seq![("value"@, lit)]);
            assert(seq![("value"@, lit)].drop_first() =~= Seq::<(Seq<char>, SpecVal)>::empty());
            assert(lookup(seq![("__type"@, SpecVal::Str("comparison.lte"@)), ("attribute"@, gen_of_attr(a)), ("value"@, lit)], "__type"@) == Option::Some(SpecVal::Str("comparison.lte"@)));
            assert(lookup(seq![("attribute"@, gen_of_attr(a)), ("value"@, lit)], "attribute"@) == Option::Some(gen_of_attr(a)));
            assert(lookup(seq![("__type"@, SpecVal::Str("comparison.lte"@)), ("attribute"@, gen_of_attr(a)), ("value"@, lit)], "attribute"@) == Option::Some(gen_of_attr(a)));
            assert(lookup(seq![("value"@, lit)], "value"@) == Option::Some(lit));
            assert(lookup(seq![("attribute"@, gen_of_attr(a)), ("value"@, lit)], "value"@) == Option::Some(lit));
            assert(lookup(seq![("__type"@, SpecVal::Str("comparison.lte"@)), ("attribute"@, gen_of_attr(a)), ("value"@, lit)], "value"@) == Option::Some(lit));
            assert(recognized_tag("comparison.lte"@));
            assert(mk_leaf("comparison.lte"@, a, lit) == SpecClassifier::Lte(a, lit));
            assert(classify_shallow(seq![("__type"@, SpecVal::Str("comparison.lte"@)), ("attribute"@, gen_of_attr(a)), ("value"@, lit)]) == Option::Some(c));
            assert(val_of(gen_of_classifier(c)) == SpecVal::Expr(Box::new(c)));
            let pe = seq![("__type"@, SpecVal::Str("comparison.lte"@)), ("attribute"@, gen_of_attr(a)), ("value"@, gen_of_val(lit))];
            assert forall|i: int| 0 <= i < pe.len() implies str_printable(#[trigger] pe[i].0) && printable(pe[i].1) by {
                if i == 0 {
                    assert(pe[0] == ("__type"@, SpecVal::Str("comparison.lte"@)));
                    assert(printable(SpecVal::Str("comparison.lte"@)));
                }
                if i == 1 {
                    assert(pe[1] == ("attribute"@, gen_of_attr(a)));
                    assert(printable(gen_of_attr(a)));
                }
                if i == 2 {
                    assert(pe[2] == ("value"@, gen_of_val(lit)));
                    assert(printable(gen_of_val(lit)));
                }
            }
            assert(printable(gen_of_classifier(c)));
        },
        SpecClassifier::Eq(a, lit) => {
            assert(wf_classifier(c) == (crate::classifier::wf_attr(a) && wf_val(lit)));
            lemma_attr_roundtrip(a);
            lemma_val_roundtrip(lit);
            assert(gen_of_classifier(c) == SpecVal::Dict(seq![("__type"@, SpecVal::Str("comparison.eq"@)), ("attribute"@, gen_of_attr(a)), ("value"@, gen_of_val(lit))]));
            assert(val_of(SpecVal::Str("comparison.eq"@)) == SpecVal::Str("comparison.eq"@));
            assert(seq![("__type"@, SpecVal::Str("comparison.eq"@)), ("attribute"@, gen_of_attr(a)), ("value"@, gen_of_val(lit))].drop_last() =~= seq![("__type"@, SpecVal::Str("comparison.eq"@)), ("attribute"@, gen_of_attr(a))]);
            assert(seq![("__type"@, SpecVal::Str("comparison.eq"@)), ("attribute"@, gen_of_attr(a))].drop_last() =~= seq![("__type"@, SpecVal::Str("comparison.eq"@))]);
            assert(seq![("__type"@, SpecVal::Str("comparison.eq"@))].drop_last() =~= Seq::<(Seq<char>, SpecVal)>::empty());
            assert(entries_of(Seq::<(Seq<char>, SpecVal)>::empty()) == Seq::<(Seq<char>, SpecVal)>::empty());
            assert(entries_of(seq![("__type"@, SpecVal::Str("comparison.eq"@))]) =~= seq![("__type"@, SpecVal::Str("comparison.eq"@))]);
            assert(entries_of(seq![("__type"@, SpecVal::Str("comparison.eq"@)), ("attribute"@, gen_of_attr(a))]) =~= seq![("__type"@, SpecVal::Str("comparison.eq"@)), ("attribute"@, gen_of_attr(a))]);
            assert(entries_of(seq![("__type"@, SpecVal::Str("comparison.eq"@)), ("attribute"@, gen_of_attr(a)), ("value"@, gen_of_val(lit))]) =~= seq![("__type"@, SpecVal::Str("comparison.eq"@)), ("attribute"@, gen_of_attr(a)), ("value"@, lit)]);
            assert(seq![("__type"@, SpecVal::Str("comparison.eq"@)), ("attribute"@, gen_of_attr(a)), ("value"@, lit)].drop_first() =~= seq![("attribute"@, gen_of_attr(a)), ("value"@, lit)]);
            assert(seq![("attribute"@, gen_of_attr(a)), ("value"@, lit)].drop_first() =~= seq![("value"@, lit)]);
            assert(seq![("value"@, lit)].drop_first() =~= Seq::<(Seq<char>, SpecVal)>::empty());
            assert(lookup(seq![("__type"@, SpecVal::Str("comparison.eq"@)), ("attribute"@, gen_of_attr(a)), ("value"@, lit)], "__type"@) == Option::Some(SpecVal::Str("comparison.eq"@)));
            assert(lookup(seq![("attribute"@, gen_of_attr(a)), ("value"@, lit)], "attribute"@) == Option::Some(gen_of_attr(a)));
            assert(lookup(seq![("__type"@, SpecVal::Str("comparison.eq"@)), ("attribute"@, gen_of_attr(a)), ("value"@, lit)], "attribute"@) == Option::Some(gen_of_attr(a)));
            assert(lookup(seq![("value"@, lit)], "value"@) == Option::Some(lit));
            assert(lookup(seq![("attribute"@, gen_of_attr(a)), ("value"@, lit)], "value"@) == Option::Some(lit));
            assert(lookup(seq![("__type"@, SpecVal::Str("comparison.eq"@)), ("attribute"@, gen_of_attr(a)), ("value"@, lit)], "value"@) == Option::Some(lit));
            assert(recognized_tag("comparison.eq"@));
            assert(mk_leaf("comparison.eq"@, a, lit) == SpecClassifier::Eq(a, lit));
            assert(classify_shallow(seq![("__type"@, SpecVal::Str("comparison.eq"@)), ("attribute"@, gen_of_attr(a)), ("value"@, lit)]) == Option::Some(c));
            assert(val_of(gen_of_classifier(c)) == SpecVal::Expr(Box::new(c)));
            let pe = seq![("__type"@, SpecVal::Str("comparison.eq"@)), ("attribute"@, gen_of_attr(a)), ("value"@, gen_of_val(lit))];
            assert forall|i: int| 0 <= i < pe.len() implies str_printable(#[trigger] pe[i].0) && printable(pe[i].1) by {
                if i == 0 {
                    assert(pe[0] == ("__type"@, SpecVal::Str("comparison.eq"@)));
                    assert(printable(SpecVal::Str("comparison.eq"@)));
                }
                if i == 1 {
                    assert(pe[1] == ("attribute"@, gen_of_attr(a)));
                    assert(printable(gen_of_attr(a)));
                }
                if i == 2 {
                    assert(pe[2] == ("value"@, gen_of_val(lit)));
                    assert(printable(gen_of_val(lit)));
                }
            }
            assert(printable(gen_of_classifier(c)));
        },
        SpecClassifier::All(cs) => {
            assert(wf_classifier(c) == (forall|i: int| 0 <= i < cs.len() ==> wf_classifier(#[trigger] cs[i])));
            lemma_classifiers_gen_roundtrip(cs);
            let items2 = vals_of(gens_of_classifiers(cs));
            assert(gen_of_classifier(c) == SpecVal::Dict(seq![("__type"@, SpecVal::Str("bool.all"@)), ("value"@, SpecVal::Arr(gens_of_classifiers(cs)))]));
            assert(val_of(SpecVal::Str("bool.all"@)) == SpecVal::Str("bool.all"@));
            assert(val_of(SpecVal::Arr(gens_of_classifiers(cs))) == SpecVal::Arr(items2));
            assert(seq![("__type"@, SpecVal::Str("bool.all"@)), ("value"@, SpecVal::Arr(gens_of_classifiers(cs)))].drop_last() =~= seq![("__type"@, SpecVal::Str("bool.all"@))]);
            assert(seq![("__type"@, SpecVal::Str("bool.all"@))].drop_last() =~= Seq::<(Seq<char>, SpecVal)>::empty());
            assert(entries_of(Seq::<(Seq<char>, SpecVal)>::empty()) == Seq::<(Seq<char>, SpecVal)>::empty());
            assert(entries_of(seq![("__type"@, SpecVal::Str("bool.all"@))]) =~= seq![("__type"@, SpecVal::Str("bool.all"@))]);
            assert(entries_of(seq![("__type"@, SpecVal::Str("bool.all"@)), ("value"@, SpecVal::Arr(gens_of_classifiers(cs)))]) =~= seq![("__type"@, SpecVal::Str("bool.all"@)), ("value"@, SpecVal::Arr(vals_of(gens_of_classifiers(cs))))]);
            assert(seq![("__type"@, SpecVal::Str("bool.all"@)), ("value"@, SpecVal::Arr(vals_of(gens_of_classifiers(cs))))].drop_first() =~= seq![("value"@, SpecVal::Arr(vals_of(gens_of_classifiers(cs))))]);
            assert(seq![("value"@, SpecVal::Arr(vals_of(gens_of_classifiers(cs))))].drop_first() =~= Seq::<(Seq<char>, SpecVal)>::empty());
            assert(lookup(seq![("__type"@, SpecVal::Str("bool.all"@)), ("value"@, SpecVal::Arr(vals_of(gens_of_classifiers(cs))))], "__type"@) == Option::Some(SpecVal::Str("bool.all"@)));
            assert(lookup(seq![("value"@, SpecVal::Arr(vals_of(gens_of_classifiers(cs))))], "value"@) == Option::Some(SpecVal::Arr(vals_of(gens_of_classifiers(cs)))));
            assert(lookup(seq![("__type"@, SpecVal::Str("bool.all"@)), ("value"@, SpecVal::Arr(vals_of(gens_of_classifiers(cs))))], "value"@) == Option::Some(SpecVal::Arr(vals_of(gens_of_classifiers(cs)))));
            assert forall|i: int| 0 <= i < items2.len() implies (#[trigger] items2[i]) is Expr by {
                assert(items2[i] == SpecVal::Expr(Box::new(cs[i])));
            }
            assert(all_exprs(items2));
            assert(exprs_of(items2) =~= cs) by {
                assert(forall|i: int| 0 <= i < cs.len() ==> exprs_of(items2)[i] == *(#[trigger] items2[i])->Expr_0);
            }
            assert(classify_shallow(seq![("__type"@, SpecVal::Str("bool.all"@)), ("value"@, SpecVal::Arr(vals_of(gens_of_classifiers(cs))))]) == Option::Some(SpecClassifier::All(exprs_of(items2))));
            assert(val_of(gen_of_classifier(c)) == SpecVal::Expr(Box::new(c)));
            let pe = seq![("__type"@, SpecVal::Str("bool.all"@)), ("value"@, SpecVal::Arr(gens_of_classifiers(cs)))];
            assert forall|i: int| 0 <= i < pe.len() implies str_printable(#[trigger] pe[i].0) && printable(pe[i].1) by {
                if i == 0 {
                    assert(pe[0] == ("__type"@, SpecVal::Str("bool.all"@)));
                    assert(printable(SpecVal::Str("bool.all"@)));
                }
                if i == 1 {
                    assert(pe[1] == ("value"@, SpecVal::Arr(gens_of_classifiers(cs))));
                    assert(printable(SpecVal::Arr(gens_of_classifiers(cs))));
                }
            }
            assert(printable(gen_of_classifier(c)));
        },
        SpecClassifier::Any(cs) => {
            assert(wf_classifier(c) == (forall|i: int| 0 <= i < cs.len() ==> wf_classifier(#[trigger] cs[i])));
            lemma_classifiers_gen_roundtrip(cs);
            let items2 = vals_of(gens_of_classifiers(cs));
            assert(gen_of_classifier(c) == SpecVal::Dict(seq![("__type"@, SpecVal::Str("bool.any"@)), ("value"@, SpecVal::Arr(gens_of_classifiers(cs)))]));
            assert(val_of(SpecVal::Str("bool.any"@)) == SpecVal::Str("bool.any"@));
            assert(val_of(SpecVal::Arr(gens_of_classifiers(cs))) == SpecVal::Arr(items2));
            assert(seq![("__type"@, SpecVal::Str("bool.any"@)), ("value"@, SpecVal::Arr(gens_of_classifiers(cs)))].drop_last() =~= seq![("__type"@, SpecVal::Str("bool.any"@))]);
            assert(seq![("__type"@, SpecVal::Str("bool.any"@))].drop_last() =~= Seq::<(Seq<char>, SpecVal)>::empty());
            assert(entries_of(Seq::<(Seq<char>, SpecVal)>::empty()) == Seq::<(Seq<char>, SpecVal)>::empty());
            assert(entries_of(seq![("__type"@, SpecVal::Str("bool.any"@))]) =~= seq![("__type"@, SpecVal::Str("bool.any"@))]);
            assert(entries_of(seq![("__type"@, SpecVal::Str("bool.any"@)), ("value"@, SpecVal::Arr(gens_of_classifiers(cs)))]) =~= seq![("__type"@, SpecVal::Str("bool.any"@)), ("value"@, SpecVal::Arr(vals_of(gens_of_classifiers(cs))))]);
            assert(seq![("__type"@, SpecVal::Str("bool.any"@)), ("value"@, SpecVal::Arr(vals_of(gens_of_classifiers(cs))))].drop_first() =~= seq![("value"@, SpecVal::Arr(vals_of(gens_of_classifiers(cs))))]);
            assert(seq![("value"@, SpecVal::Arr(vals_of(gens_of_classifiers(cs))))].drop_first() =~= Seq::<(Seq<char>, SpecVal)>::empty());
            assert(lookup(seq![("__type"@, SpecVal::Str("bool.any"@)), ("value"@, SpecVal::Arr(vals_of(gens_of_classifiers(cs))))], "__type"@) == Option::Some(SpecVal::Str("bool.any"@)));
            assert(lookup(seq![("value"@, SpecVal::Arr(vals_of(gens_of_classifiers(cs))))], "value"@) == Option::Some(SpecVal::Arr(vals_of(gens_of_classifiers(cs)))));
            assert(lookup(seq![("__type"@, SpecVal::Str("bool.any"@)), ("value"@, SpecVal::Arr(vals_of(gens_of_classifiers(cs))))], "value"@) == Option::Some(SpecVal::Arr(vals_of(gens_of_classifiers(cs)))));
            assert forall|i: int| 0 <= i < items2.len() implies (#[trigger] items2[i]) is Expr by {
                assert(items2[i] == SpecVal::Expr(Box::new(cs[i])));
            }
            assert(all_exprs(items2));
            assert(exprs_of(items2) =~= cs) by {
                assert(forall|i: int| 0 <= i < cs.len() ==> exprs_of(items2)[i] == *(#[trigger] items2[i])->Expr_0);
            }
            assert(classify_shallow(seq![("__type"@, SpecVal::Str("bool.any"@)), ("value"@, SpecVal::Arr(vals_of(gens_of_classifiers(cs))))]) == Option::Some(SpecClassifier::Any(exprs_of(items2))));
            assert(val_of(gen_of_classifier(c)) == SpecVal::Expr(Box::new(c)));
            let pe = seq![("__type"@, SpecVal::Str("bool.any"@)), ("value"@, SpecVal::Arr(gens_of_classifiers(cs)))];
            assert forall|i: int| 0 <= i < pe.len() implies str_printable(#[trigger] pe[i].0) && printable(pe[i].1) by {
                if i == 0 {
                    assert(pe[0] == ("__type"@, SpecVal::Str("bool.any"@)));
                    assert(printable(SpecVal::Str("bool.any"@)));
                }
                if i == 1 {
                    assert(pe[1] == ("value"@, SpecVal::Arr(gens_of_classifiers(cs))));
                    assert(printable(SpecVal::Arr(gens_of_classifiers(cs))));
                }
            }
            assert(printable(gen_of_classifier(c)));
        },
        SpecClassifier::Not(nv) => {
            assert(wf_classifier(c) == wf_val(nv));
            lemma_val_roundtrip(nv);
            assert(gen_of_classifier(c) == SpecVal::Dict(seq![("__type"@, SpecVal::Str("bool.none"@)), ("value"@, gen_of_val(nv))]));
            assert(val_of(SpecVal::Str("bool.none"@)) == SpecVal::Str("bool.none"@));
            assert(seq![("__type"@, SpecVal::Str("bool.none"@)), ("value"@, gen_of_val(nv))].drop_last() =~= seq![("__type"@, SpecVal::Str("bool.none"@))]);
            assert(seq![("__type"@, SpecVal::Str("bool.none"@))].drop_last() =~= Seq::<(Seq<char>, SpecVal)>::empty());
            assert(entries_of(Seq::<(Seq<char>, SpecVal)>::empty()) == Seq::<(Seq<char>, SpecVal)>::empty());
            assert(entries_of(seq![("__type"@, SpecVal::Str("bool.none"@))]) =~= seq![("__type"@, SpecVal::Str("bool.none"@))]);
            assert(entries_of(seq![("__type"@, SpecVal::Str("bool.none"@)), ("value"@, gen_of_val(nv))]) =~= seq![("__type"@, SpecVal::Str("bool.none"@)), ("value"@, nv)]);
            assert(seq![("__type"@, SpecVal::Str("bool.none"@)), ("value"@, nv)].drop_first() =~= seq![("value"@, nv)]);
            assert(seq![("value"@, nv)].drop_first() =~= Seq::<(Seq<char>, SpecVal)>::empty());
            assert(lookup(seq![("__type"@, SpecVal::Str("bool.none"@)), ("value"@, nv)], "__type"@) == Option::Some(SpecVal::Str("bool.none"@)));
            assert(lookup(seq![("value"@, nv)], "value"@) == Option::Some(nv));
            assert(lookup(seq![("__type"@, SpecVal::Str("bool.none"@)), ("value"@, nv)], "value"@) == Option::Some(nv));
            assert(classify_shallow(seq![("__type"@, SpecVal::Str("bool.none"@)), ("value"@, nv)]) == Option::Some(SpecClassifier::Not(nv)));
            assert(val_of(gen_of_classifier(c)) == SpecVal::Expr(Box::new(c)));
            let pe = seq![("__type"@, SpecVal::Str("bool.none"@)), ("value"@, gen_of_val(nv))];
            assert forall|i: int| 0 <= i < pe.len() implies str_printable(#[trigger] pe[i].0) && printable(pe[i].1) by {
                if i == 0 {
                    assert(pe[0] == ("__type"@, SpecVal::Str("bool.none"@)));
                    assert(printable(SpecVal::Str("bool.none"@)));
                }
                if i == 1 {
                    assert(pe[1] == ("value"@, gen_of_val(nv)));
                    assert(printable(gen_of_val(nv)));
                }
            }
            assert(printable(gen_of_classifier(c)));
        },
    }
}


/// The wire form of a well-formed bucket reads back as that bucket whatever
/// the legacy value map says, and prints.
pub proof fn lemma_bucket_roundtrip(b: SpecBucket, legacy: Option<Seq<(Seq<char>, SpecVal)>>)
    requires
        b.wf(),
    ensures
        bucket_of(gen_of_bucket(b), legacy) == Option::Some(b),
        printable(gen_of_bucket(b)),
{
    lemma_wire_words();
    lemma_classifier_roundtrip(b.classifier);
    lemma_val_roundtrip(b.value);
    assert(gen_of_bucket(b) == SpecVal::Dict(seq![("name"@, SpecVal::Str(b.name)), ("classifier"@, gen_of_classifier(b.classifier)), ("value"@, gen_of_val(b.value))]));
    assert(seq![("name"@, SpecVal::Str(b.name)), ("classifier"@, gen_of_classifier(b.classifier)), ("value"@, gen_of_val(b.value))].drop_first() =~= seq![("classifier"@, gen_of_classifier(b.classifier)), ("value"@, gen_of_val(b.value))]);
    assert(seq![("classifier"@, gen_of_classifier(b.classifier)), ("value"@, gen_of_val(b.value))].drop_first() =~= seq![("value"@, gen_of_val(b.value))]);
    assert(seq![("value"@, gen_of_val(b.value))].drop_first() =~= Seq::<(Seq<char>, SpecVal)>::empty());
    assert(lookup(seq![("name"@, SpecVal::Str(b.name)), ("classifier"@, gen_of_classifier(b.classifier)), ("value"@, gen_of_val(b.value))], "name"@) == Option::Some(SpecVal::Str(b.name)));
    assert(lookup(seq![("classifier"@, gen_of_classifier(b.classifier)), ("value"@, gen_of_val(b.value))], "classifier"@) == Option::Some(gen_of_classifier(b.classifier)));
    assert(lookup(seq![("name"@, SpecVal::Str(b.name)), ("classifier"@, gen_of_classifier(b.classifier)), ("value"@, gen_of_val(b.value))], "classifier"@) == Option::Some(gen_of_classifier(b.classifier)));
    assert(lookup(seq![("value"@, gen_of_val(b.value))], "value"@) == Option::Some(gen_of_val(b.value)));
    assert(lookup(seq![("classifier"@, gen_of_classifier(b.classifier)), ("value"@, gen_of_val(b.value))], "value"@) == Option::Some(gen_of_val(b.value)));
    assert(lookup(seq![("name"@, SpecVal::Str(b.name)), ("classifier"@, gen_of_classifier(b.classifier)), ("value"@, gen_of_val(b.value))], "value"@) == Option::Some(gen_of_val(b.value)));
    assert(*Box::new(b.classifier) == b.classifier);
    assert(classifier_of(gen_of_classifier(b.classifier)) == Option::Some(b.classifier));
    assert(bucket_of(gen_of_bucket(b), legacy) == Option::Some(
        SpecBucket { name: b.name, classifier: b.classifier, value: b.value },
    ));
    assert(SpecBucket { name: b.name, classifier: b.classifier, value: b.value } == b);
    let pe = seq![("name"@, SpecVal::Str(b.name)), ("classifier"@, gen_of_classifier(b.classifier)), ("value"@, gen_of_val(b.value))];
    assert forall|i: int| 0 <= i < pe.len() implies str_printable(#[trigger] pe[i].0) && printable(pe[i].1) by {
        if i == 0 {
            assert(pe[0] == ("name"@, SpecVal::Str(b.name)));
            assert(printable(SpecVal::Str(b.name)));
        }
        if i == 1 {
            assert(pe[1] == ("classifier"@, gen_of_classifier(b.classifier)));
            assert(printable(gen_of_classifier(b.classifier)));
        }
        if i == 2 {
            assert(pe[2] == ("value"@, gen_of_val(b.value)));
            assert(printable(gen_of_val(b.value)));
        }
    }
    assert(printable(gen_of_bucket(b)));
}

/// Element-wise round trip for bucket lists.
pub proof fn lemma_buckets_roundtrip(bs: Seq<SpecBucket>, legacy: Option<Seq<(Seq<char>, SpecVal)>>)
    requires
        forall|i: int| 0 <= i < bs.len() ==> (#[trigger] bs[i]).wf(),
    ensures
        buckets_of(gens_of_buckets(bs), legacy) == Option::Some(bs),
        forall|i: int| 0 <= i < bs.len() ==> printable(#[trigger] gens_of_buckets(bs)[i]),
    decreases bs,
{
    lemma_gens_of_buckets_len(bs);
    if bs.len() == 0 {
        assert(gens_of_buckets(bs) =~= Seq::<SpecVal>::empty());
        assert(buckets_of(Seq::<SpecVal>::empty(), legacy) == Option::Some(
            Seq::<SpecBucket>::empty(),
        ));
        assert(bs =~= Seq::<SpecBucket>::empty());
    } else {
        lemma_gens_of_buckets_index(bs, 0);
        lemma_bucket_roundtrip(bs[0], legacy);
        lemma_buckets_roundtrip(bs.drop_first(), legacy);
        let g = gens_of_buckets(bs);
        assert(g.drop_first() =~= gens_of_buckets(bs.drop_first())) by {
            lemma_gens_of_buckets_len(bs.drop_first());
            assert forall|i: int| 0 <= i < g.drop_first().len() implies g.drop_first()[i]
                == gens_of_buckets(bs.drop_first())[i] by {
                lemma_gens_of_buckets_index(bs, i + 1);
                lemma_gens_of_buckets_index(bs.drop_first(), i);
                assert(bs.drop_first()[i] == bs[i + 1]);
            }
        }
        assert(seq![bs[0]] + bs.drop_first() =~= bs);
        assert forall|i: int| 0 <= i < bs.len() implies printable(
            #[trigger] gens_of_buckets(bs)[i],
        ) by {
            lemma_gens_of_buckets_index(bs, i);
            lemma_bucket_roundtrip(bs[i], legacy);
        }
    }
}

/// The wire form of a well-formed feature reads back as that feature, and
/// prints.
pub proof fn lemma_feature_roundtrip(f: SpecFeature)
    requires
        f.wf(),
        f.feature_type == FeatureType::Offline,
    ensures
        feature_of(gen_of_feature(f)) == Option::Some(f),
        printable(gen_of_feature(f)),
{
    lemma_wire_words();
    lemma_versions_roundtrip(f.python_versions);
    lemma_buckets_roundtrip(f.buckets, Option::None);
    lemma_val_roundtrip(f.default);
    assert(gen_of_feature(f) == SpecVal::Dict(seq![("type"@, SpecVal::Str("offline-feature"@)), ("python_versions"@, SpecVal::Arr(gens_of_versions(f.python_versions))), ("buckets"@, SpecVal::Arr(gens_of_buckets(f.buckets))), ("default"@, gen_of_val(f.default))]));
    assert(seq![("type"@, SpecVal::Str("offline-feature"@)), ("python_versions"@, SpecVal::Arr(gens_of_versions(f.python_versions))), ("buckets"@, SpecVal::Arr(gens_of_buckets(f.buckets))), ("default"@, gen_of_val(f.default))].drop_first() =~= seq![("python_versions"@, SpecVal::Arr(gens_of_versions(f.python_versions))), ("buckets"@, SpecVal::Arr(gens_of_buckets(f.buckets))), ("default"@, gen_of_val(f.default))]);
    assert(seq![("python_versions"@, SpecVal::Arr(gens_of_versions(f.python_versions))), ("buckets"@, SpecVal::Arr(gens_of_buckets(f.buckets))), ("default"@, gen_of_val(f.default))].drop_first() =~= seq![("buckets"@, SpecVal::Arr(gens_of_buckets(f.buckets))), ("default"@, gen_of_val(f.default))]);
    assert(seq![("buckets"@, SpecVal::Arr(gens_of_buckets(f.buckets))), ("default"@, gen_of_val(f.default))].drop_first() =~= seq![("default"@, gen_of_val(f.default))]);
    assert(seq![("default"@, gen_of_val(f.default))].drop_first() =~= Seq::<(Seq<char>, SpecVal)>::empty());
    assert(lookup(seq![("type"@, SpecVal::Str("offline-feature"@)), ("python_versions"@, SpecVal::Arr(gens_of_versions(f.python_versions))), ("buckets"@, SpecVal::Arr(gens_of_buckets(f.buckets))), ("default"@, gen_of_val(f.default))], "type"@) == Option::Some(SpecVal::Str("offline-feature"@)));
    assert(lookup(seq![("python_versions"@, SpecVal::Arr(gens_of_versions(f.python_versions))), ("buckets"@, SpecVal::Arr(gens_of_buckets(f.buckets))), ("default"@, gen_of_val(f.default))], "python_versions"@) == Option::Some(SpecVal::Arr(gens_of_versions(f.python_versions))));
    assert(lookup(seq![("type"@, SpecVal::Str("offline-feature"@)), ("python_versions"@, SpecVal::Arr(gens_of_versions(f.python_versions))), ("buckets"@, SpecVal::Arr(gens_of_buckets(f.buckets))), ("default"@, gen_of_val(f.default))], "python_versions"@) == Option::Some(SpecVal::Arr(gens_of_versions(f.python_versions))));
    assert(lookup(seq![("buckets"@, SpecVal::Arr(gens_of_buckets(f.buckets))), ("default"@, gen_of_val(f.default))], "buckets"@) == Option::Some(SpecVal::Arr(gens_of_buckets(f.buckets))));
    assert(lookup(seq![("python_versions"@, SpecVal::Arr(gens_of_versions(f.python_versions))), ("buckets"@, SpecVal::Arr(gens_of_buckets(f.buckets))), ("default"@, gen_of_val(f.default))], "buckets"@) == Option::Some(SpecVal::Arr(gens_of_buckets(f.buckets))));
    assert(lookup(seq![("type"@, SpecVal::Str("offline-feature"@)), ("python_versions"@, SpecVal::Arr(gens_of_versions(f.python_versions))), ("buckets"@, SpecVal::Arr(gens_of_buckets(f.buckets))), ("default"@, gen_of_val(f.default))], "buckets"@) == Option::Some(SpecVal::Arr(gens_of_buckets(f.buckets))));
    assert(lookup(Seq::<(Seq<char>, SpecVal)>::empty(), "values"@) == Option::None::<SpecVal>);
    assert(lookup(seq![("default"@, gen_of_val(f.default))], "values"@) == Option::None::<SpecVal>);
    assert(lookup(seq![("buckets"@, SpecVal::Arr(gens_of_buckets(f.buckets))), ("default"@, gen_of_val(f.default))], "values"@) == Option::None::<SpecVal>);
    assert(lookup(seq![("python_versions"@, SpecVal::Arr(gens_of_versions(f.python_versions))), ("buckets"@, SpecVal::Arr(gens_of_buckets(f.buckets))), ("default"@, gen_of_val(f.default))], "values"@) == Option::None::<SpecVal>);
    assert(lookup(seq![("type"@, SpecVal::Str("offline-feature"@)), ("python_versions"@, SpecVal::Arr(gens_of_versions(f.python_versions))), ("buckets"@, SpecVal::Arr(gens_of_buckets(f.buckets))), ("default"@, gen_of_val(f.default))], "values"@) == Option::None::<SpecVal>);
    assert(lookup(seq![("default"@, gen_of_val(f.default))], "default"@) == Option::Some(gen_of_val(f.default)));
    assert(lookup(seq![("buckets"@, SpecVal::Arr(gens_of_buckets(f.buckets))), ("default"@, gen_of_val(f.default))], "default"@) == Option::Some(gen_of_val(f.default)));
    assert(lookup(seq![("python_versions"@, SpecVal::Arr(gens_of_versions(f.python_versions))), ("buckets"@, SpecVal::Arr(gens_of_buckets(f.buckets))), ("default"@, gen_of_val(f.default))], "default"@) == Option::Some(gen_of_val(f.default)));
    assert(lookup(seq![("type"@, SpecVal::Str("offline-feature"@)), ("python_versions"@, SpecVal::Arr(gens_of_versions(f.python_versions))), ("buckets"@, SpecVal::Arr(gens_of_buckets(f.buckets))), ("default"@, gen_of_val(f.default))], "default"@) == Option::Some(gen_of_val(f.default)));
    assert(feature_of(gen_of_feature(f)) == Option::Some(
        SpecFeature {
            feature_type: FeatureType::Offline,
            python_versions: f.python_versions,
            buckets: f.buckets,
            default: f.default,
        },
    ));
    assert(SpecFeature {
        feature_type: FeatureType::Offline,
        python_versions: f.python_versions,
        buckets: f.buckets,
        default: f.default,
    } == f);
    lemma_gens_of_buckets_len(f.buckets);
    assert(printable(SpecVal::Arr(gens_of_versions(f.python_versions))) == (forall|i: int|
        0 <= i < gens_of_versions(f.python_versions).len() ==> printable(
            #[trigger] gens_of_versions(f.python_versions)[i],
        )));
    assert(printable(SpecVal::Arr(gens_of_buckets(f.buckets))) == (forall|i: int|
        0 <= i < gens_of_buckets(f.buckets).len() ==> printable(
            #[trigger] gens_of_buckets(f.buckets)[i],
        )));
    assert(printable(SpecVal::Arr(gens_of_versions(f.python_versions))));
    assert(printable(SpecVal::Arr(gens_of_buckets(f.buckets))));
    let pef = seq![("type"@, SpecVal::Str("offline-feature"@)), ("python_versions"@, SpecVal::Arr(gens_of_versions(f.python_versions))), ("buckets"@, SpecVal::Arr(gens_of_buckets(f.buckets))), ("default"@, gen_of_val(f.default))];
    assert forall|i: int| 0 <= i < pef.len() implies str_printable(#[trigger] pef[i].0) && printable(pef[i].1) by {
        if i == 0 {
            assert(pef[0] == ("type"@, SpecVal::Str("offline-feature"@)));
            assert(printable(SpecVal::Str("offline-feature"@)));
        }
        if i == 1 {
            assert(pef[1] == ("python_versions"@, SpecVal::Arr(gens_of_versions(f.python_versions))));
            assert(printable(SpecVal::Arr(gens_of_versions(f.python_versions))));
        }
        if i == 2 {
            assert(pef[2] == ("buckets"@, SpecVal::Arr(gens_of_buckets(f.buckets))));
            assert(printable(SpecVal::Arr(gens_of_buckets(f.buckets))));
        }
        if i == 3 {
            assert(pef[3] == ("default"@, gen_of_val(f.default)));
            assert(printable(gen_of_val(f.default)));
        }
    }
    assert(printable(gen_of_feature(f)));
}

/// Round trip: decoding the canonical text of a well-formed feature yields
/// a feature structurally equal to it, bucket order preserved.
pub proof fn lemma_codec_round_trip(f: SpecFeature)
    requires
        f.wf(),
        f.feature_type == FeatureType::Offline,
    ensures
        spec_decode(spec_dumps(f)) == Option::Some(f),
{
    lemma_feature_roundtrip(f);
    crate::json::lemma_parse_print_text(gen_of_feature(f));
}


/// Writes the wire text of an attribute.
fn emit_attr(a: &Attribute, out: &mut Vec<char>)
    ensures
        final(out)@ == old(out)@ + print_json(gen_of_attr(a@)),
{
    match a {
            Attribute::StaticNumber { value } => {
                out.push('{');
                emit_string("name", out);
                out.push(':');
                emit_string("static.number", out);
                out.push(',');
                emit_string("value", out);
                out.push(':');
                emit_number(value.micros, out);
                out.push('}');
                proof {
                    assert(gen_of_attr(a@) == SpecVal::Dict(seq![("name"@, SpecVal::Str("static.number"@)), ("value"@, SpecVal::Num(value@))]));
                    assert(print_json(SpecVal::Str("static.number"@)) == print_string("static.number"@));
                    assert(print_json(SpecVal::Num(value@)) == print_number(value.micros as int));
                    assert(seq![("name"@, SpecVal::Str("static.number"@)), ("value"@, SpecVal::Num(value@))].drop_first() =~= seq![("value"@, SpecVal::Num(value@))]);
                    assert(seq![("value"@, SpecVal::Num(value@))].drop_first() =~= Seq::<(Seq<char>, SpecVal)>::empty());
                    assert(print_members(seq![("value"@, SpecVal::Num(value@))]) == print_string("value"@) + seq![':'] + print_json(SpecVal::Num(value@)));
                    assert(print_members(seq![("name"@, SpecVal::Str("static.number"@)), ("value"@, SpecVal::Num(value@))]) == print_string("name"@) + seq![':'] + print_json(SpecVal::Str("static.number"@)) + seq![','] + print_members(seq![("value"@, SpecVal::Num(value@))]));
                    assert(print_json(SpecVal::Dict(seq![("name"@, SpecVal::Str("static.number"@)), ("value"@, SpecVal::Num(value@))])) == seq!['{'] + print_members(seq![("name"@, SpecVal::Str("static.number"@)), ("value"@, SpecVal::Num(value@))]) + seq!['}']);
                    assert(final(out)@ =~= old(out)@ + print_json(gen_of_attr(a@)));
                }
            },
            Attribute::Hostname => {
                out.push('{');
                emit_string("name", out);
                out.push(':');
                emit_string("socket.hostname", out);
                out.push('}');
                proof {
                    assert(gen_of_attr(a@) == SpecVal::Dict(seq![("name"@, SpecVal::Str("socket.hostname"@))]));
                    assert(print_json(SpecVal::Str("socket.hostname"@)) == print_string("socket.hostname"@));
                    assert(seq![("name"@, SpecVal::Str("socket.hostname"@))].drop_first() =~= Seq::<(Seq<char>, SpecVal)>::empty());
                    assert(print_members(seq![("name"@, SpecVal::Str("socket.hostname"@))]) == print_string("name"@) + seq![':'] + print_json(SpecVal::Str("socket.hostname"@)));
                    assert(print_json(SpecVal::Dict(seq![("name"@, SpecVal::Str("socket.hostname"@))])) == seq!['{'] + print_members(seq![("name"@, SpecVal::Str("socket.hostname"@))]) + seq!['}']);
                    assert(final(out)@ =~= old(out)@ + print_json(gen_of_attr(a@)));
                }
            },
            Attribute::SessionRandom => {
                out.push('{');
                emit_string("name", out);
                out.push(':');
                emit_string("random.session", out);
                out.push('}');
                proof {
                    assert(gen_of_attr(a@) == SpecVal::Dict(seq![("name"@, SpecVal::Str("random.session"@))]));
                    assert(print_json(SpecVal::Str("random.session"@)) == print_string("random.session"@));
                    assert(seq![("name"@, SpecVal::Str("random.session"@))].drop_first() =~= Seq::<(Seq<char>, SpecVal)>::empty());
                    assert(print_members(seq![("name"@, SpecVal::Str("random.session"@))]) == print_string("name"@) + seq![':'] + print_json(SpecVal::Str("random.session"@)));
                    assert(print_json(SpecVal::Dict(seq![("name"@, SpecVal::Str("random.session"@))])) == seq!['{'] + print_members(seq![("name"@, SpecVal::Str("random.session"@))]) + seq!['}']);
                    assert(final(out)@ =~= old(out)@ + print_json(gen_of_attr(a@)));
                }
            },
    }
}

/// Writes the wire text of a value.
fn emit_value(v: &Value, out: &mut Vec<char>)
    ensures
        final(out)@ == old(out)@ + print_json(gen_of_val(v@)),
    decreases v, 0int, 0int,
{
    broadcast use crate::values::lemma_value_view;

    match v {
        Value::Str(s) => {
            emit_string(s.as_str(), out);
            proof {
                assert(gen_of_val(v@) == v@);
                assert(print_json(SpecVal::Str(s@)) == print_string(s@));
            }
        },
        Value::Number(n) => {
            emit_number(n.micros, out);
            proof {
                assert(gen_of_val(v@) == v@);
                assert(print_json(SpecVal::Num(n@)) == print_number(n.micros as int));
            }
        },
        Value::Boolean(b) => {
            if *b {
                out.push('t');
                out.push('r');
                out.push('u');
                out.push('e');
                proof {
                    assert(gen_of_val(v@) == v@);
                    assert(print_json(SpecVal::Bool(true)) == seq!['t', 'r', 'u', 'e']);
                    assert(final(out)@ =~= old(out)@ + print_json(gen_of_val(v@)));
                }
            } else {
                out.push('f');
                out.push('a');
                out.push('l');
                out.push('s');
                out.push('e');
                proof {
                    assert(gen_of_val(v@) == v@);
                    assert(print_json(SpecVal::Bool(false)) == seq!['f', 'a', 'l', 's', 'e']);
                    assert(final(out)@ =~= old(out)@ + print_json(gen_of_val(v@)));
                }
            }
        },
        Value::Null => {
            out.push('n');
            out.push('u');
            out.push('l');
            out.push('l');
            proof {
                assert(gen_of_val(v@) == v@);
                assert(print_json(SpecVal::Null) == seq!['n', 'u', 'l', 'l']);
                assert(final(out)@ =~= old(out)@ + print_json(gen_of_val(v@)));
            }
        },
        Value::Array(items) => {
            out.push('[');
            emit_value_list(items, 0, out);
            out.push(']');
            proof {
                let g = gens_of_vals(view_values(items@));
                assert(g.skip(0) =~= g);
                assert(gen_of_val(v@) == SpecVal::Arr(g));
                assert(print_json(SpecVal::Arr(g)) == seq!['['] + print_items(g) + seq![']']);
                assert(final(out)@ =~= old(out)@ + print_json(gen_of_val(v@)));
            }
        },
        Value::Dict(entries) => {
            out.push('{');
            emit_entry_list(entries, 0, out);
            out.push('}');
            proof {
                let g = gens_of_entries(view_entries(entries@));
                assert(g.skip(0) =~= g);
                assert(gen_of_val(v@) == SpecVal::Dict(g));
                assert(print_json(SpecVal::Dict(g)) == seq!['{'] + print_members(g) + seq!['}']);
                assert(final(out)@ =~= old(out)@ + print_json(gen_of_val(v@)));
            }
        },
        Value::Classifier(c) => {
            emit_classifier(c, out);
            proof {
                assert(gen_of_val(v@) == gen_of_classifier((*c)@));
            }
        },
    }
}

/// Writes the wire text of a comparison or match leaf.
fn emit_leaf(tag: &str, attribute: &Attribute, value: &Value, out: &mut Vec<char>)
    ensures
        final(out)@ == old(out)@ + print_json(gen_leaf(tag@, attribute@, value@)),
    decreases value, 0int, 1int,
{
    out.push('{');
    emit_string("__type", out);
    out.push(':');
    emit_string(tag, out);
    out.push(',');
    emit_string("attribute", out);
    out.push(':');
    emit_attr(attribute, out);
    out.push(',');
    emit_string("value", out);
    out.push(':');
    emit_value(value, out);
    out.push('}');
    proof {
        assert(gen_leaf(tag@, attribute@, value@) == SpecVal::Dict(seq![("__type"@, SpecVal::Str(tag@)), ("attribute"@, gen_of_attr(attribute@)), ("value"@, gen_of_val(value@))]));
        assert(print_json(SpecVal::Str(tag@)) == print_string(tag@));
        assert(seq![("__type"@, SpecVal::Str(tag@)), ("attribute"@, gen_of_attr(attribute@)), ("value"@, gen_of_val(value@))].drop_first() =~= seq![("attribute"@, gen_of_attr(attribute@)), ("value"@, gen_of_val(value@))]);
        assert(seq![("attribute"@, gen_of_attr(attribute@)), ("value"@, gen_of_val(value@))].drop_first() =~= seq![("value"@, gen_of_val(value@))]);
        assert(seq![("value"@, gen_of_val(value@))].drop_first() =~= Seq::<(Seq<char>, SpecVal)>::empty());
        assert(print_members(seq![("value"@, gen_of_val(value@))]) == print_string("value"@) + seq![':'] + print_json(gen_of_val(value@)));
        assert(print_members(seq![("attribute"@, gen_of_attr(attribute@)), ("value"@, gen_of_val(value@))]) == print_string("attribute"@) + seq![':'] + print_json(gen_of_attr(attribute@)) + seq![','] + print_members(seq![("value"@, gen_of_val(value@))]));
        assert(print_members(seq![("__type"@, SpecVal::Str(tag@)), ("attribute"@, gen_of_attr(attribute@)), ("value"@, gen_of_val(value@))]) == print_string("__type"@) + seq![':'] + print_json(SpecVal::Str(tag@)) + seq![','] + print_members(seq![("attribute"@, gen_of_attr(attribute@)), ("value"@, gen_of_val(value@))]));
        assert(print_json(SpecVal::Dict(seq![("__type"@, SpecVal::Str(tag@)), ("attribute"@, gen_of_attr(attribute@)), ("value"@, gen_of_val(value@))])) == seq!['{'] + print_members(seq![("__type"@, SpecVal::Str(tag@)), ("attribute"@, gen_of_attr(attribute@)), ("value"@, gen_of_val(value@))]) + seq!['}']);
        assert(final(out)@ =~= old(out)@ + print_json(gen_leaf(tag@, attribute@, value@)));
    }
}

/// Writes the wire text of a conjunction or disjunction node.
fn emit_combo(tag: &str, value: &Vec<Classifier>, out: &mut Vec<char>)
    ensures
        final(out)@ == old(out)@ + print_json(
            SpecVal::Dict(seq![("__type"@, SpecVal::Str(tag@)), ("value"@, SpecVal::Arr(gens_of_classifiers(view_classifiers(value@))))]),
        ),
    decreases value@, 3int, 0int,
{
    out.push('{');
    emit_string("__type", out);
    out.push(':');
    emit_string(tag, out);
    out.push(',');
    emit_string("value", out);
    out.push(':');
    out.push('[');
    emit_classifier_list(value, 0, out);
    out.push(']');
    out.push('}');
    proof {
        let g = gens_of_classifiers(view_classifiers(value@));
        assert(g.skip(0) =~= g);
        assert(print_json(SpecVal::Str(tag@)) == print_string(tag@));
        assert(print_json(SpecVal::Arr(g)) == seq!['['] + print_items(g) + seq![']']);
        assert(seq![("__type"@, SpecVal::Str(tag@)), ("value"@, SpecVal::Arr(gens_of_classifiers(view_classifiers(value@))))].drop_first() =~= seq![("value"@, SpecVal::Arr(gens_of_classifiers(view_classifiers(value@))))]);
        assert(seq![("value"@, SpecVal::Arr(gens_of_classifiers(view_classifiers(value@))))].drop_first() =~= Seq::<(Seq<char>, SpecVal)>::empty());
        assert(print_members(seq![("value"@, SpecVal::Arr(gens_of_classifiers(view_classifiers(value@))))]) == print_string("value"@) + seq![':'] + print_json(SpecVal::Arr(gens_of_classifiers(view_classifiers(value@)))));
        assert(print_members(seq![("__type"@, SpecVal::Str(tag@)), ("value"@, SpecVal::Arr(gens_of_classifiers(view_classifiers(value@))))]) == print_string("__type"@) + seq![':'] + print_json(SpecVal::Str(tag@)) + seq![','] + print_members(seq![("value"@, SpecVal::Arr(gens_of_classifiers(view_classifiers(value@))))]));
        assert(print_json(SpecVal::Dict(seq![("__type"@, SpecVal::Str(tag@)), ("value"@, SpecVal::Arr(gens_of_classifiers(view_classifiers(value@))))])) == seq!['{'] + print_members(seq![("__type"@, SpecVal::Str(tag@)), ("value"@, SpecVal::Arr(gens_of_classifiers(view_classifiers(value@))))]) + seq!['}']);
        assert(final(out)@ =~= old(out)@ + print_json(SpecVal::Dict(seq![("__type"@, SpecVal::Str(tag@)), ("value"@, SpecVal::Arr(gens_of_classifiers(view_classifiers(value@))))])));
    }
}

/// Writes the wire text of a classifier.
fn emit_classifier(c: &Classifier, out: &mut Vec<char>)
    ensures
        final(out)@ == old(out)@ + print_json(gen_of_classifier(c@)),
    decreases c, 1int, 0int,
{
    broadcast use crate::classifier::lemma_classifier_view;

    match c {
        Classifier::REGEXMATCH { attribute, value } => {
            emit_leaf("re.match", attribute, value, out);
            proof {
                assert(gen_of_classifier(c@) == gen_leaf("re.match"@, attribute@, value@));
            }
        },
        Classifier::LT { attribute, value } => {
            emit_leaf("comparison.lt", attribute, value, out);
            proof {
                assert(gen_of_classifier(c@) == gen_leaf("comparison.lt"@, attribute@, value@));
            }
        },
        Classifier::GT { attribute, value } => {
            emit_leaf("comparison.gt", attribute, value, out);
            proof {
                assert(gen_of_classifier(c@) == gen_leaf("comparison.gt"@, attribute@, value@));
            }
        },
        Classifier::GTE { attribute, value } => {
            emit_leaf("comparison.gte", attribute, value, out);
            proof {
                assert(gen_of_classifier(c@) == gen_leaf("comparison.gte"@, attribute@, value@));
            }
        },
        Classifier::LTE { attribute, value } => {
            emit_leaf("comparison.lte", attribute, value, out);
            proof {
                assert(gen_of_classifier(c@) == gen_leaf("comparison.lte"@, attribute@, value@));
            }
        },
        Classifier::EQ { attribute, value } => {
            emit_leaf("comparison.eq", attribute, value, out);
            proof {
                assert(gen_of_classifier(c@) == gen_leaf("comparison.eq"@, attribute@, value@));
            }
        },
        Classifier::ALL { value } => {
            emit_combo("bool.all", value, out);
            proof {
                assert(gen_of_classifier(c@) == SpecVal::Dict(
                    seq![
                        ("__type"@, SpecVal::Str("bool.all"@)),
                        ("value"@, SpecVal::Arr(gens_of_classifiers(view_classifiers(value@)))),
                    ],
                ));
            }
        },
        Classifier::ANY { value } => {
            emit_combo("bool.any", value, out);
            proof {
                assert(gen_of_classifier(c@) == SpecVal::Dict(
                    seq![
                        ("__type"@, SpecVal::Str("bool.any"@)),
                        ("value"@, SpecVal::Arr(gens_of_classifiers(view_classifiers(value@)))),
                    ],
                ));
            }
        },
        Classifier::NOT { value } => {
            out.push('{');
            emit_string("__type", out);
            out.push(':');
            emit_string("bool.none", out);
            out.push(',');
            emit_string("value", out);
            out.push(':');
            emit_value(value, out);
            out.push('}');
            proof {
                assert(gen_of_classifier(c@) == SpecVal::Dict(
                    seq![("__type"@, SpecVal::Str("bool.none"@)), ("value"@, gen_of_val(value@))],
                ));
                assert(print_json(SpecVal::Str("bool.none"@)) == print_string("bool.none"@));
                assert(seq![("__type"@, SpecVal::Str("bool.none"@)), ("value"@, gen_of_val(value@))].drop_first() =~= seq![("value"@, gen_of_val(value@))]);
                assert(seq![("value"@, gen_of_val(value@))].drop_first() =~= Seq::<(Seq<char>, SpecVal)>::empty());
                assert(print_members(seq![("value"@, gen_of_val(value@))]) == print_string("value"@) + seq![':'] + print_json(gen_of_val(value@)));
                assert(print_members(seq![("__type"@, SpecVal::Str("bool.none"@)), ("value"@, gen_of_val(value@))]) == print_string("__type"@) + seq![':'] + print_json(SpecVal::Str("bool.none"@)) + seq![','] + print_members(seq![("value"@, gen_of_val(value@))]));
                assert(print_json(SpecVal::Dict(seq![("__type"@, SpecVal::Str("bool.none"@)), ("value"@, gen_of_val(value@))])) == seq!['{'] + print_members(seq![("__type"@, SpecVal::Str("bool.none"@)), ("value"@, gen_of_val(value@))]) + seq!['}']);
                assert(final(out)@ =~= old(out)@ + print_json(gen_of_classifier(c@)));
            }
        },
    }
}

/// Writes the remaining array elements from `i` on, comma separated.
#[verifier::loop_isolation(false)]
fn emit_value_list(items: &Vec<Value>, i: usize, out: &mut Vec<char>)
    requires
        i <= items@.len(),
    ensures
        final(out)@ == old(out)@ + print_items(gens_of_vals(view_values(items@)).skip(i as int)),
    decreases items@, 2int, items@.len() - i,
{
    proof {
        crate::values::lemma_view_values_len(items@);
        lemma_gens_of_vals_len(view_values(items@));
    }
    let ghost g = gens_of_vals(view_values(items@));
    if i == items.len() {
        proof {
            assert(g.skip(i as int).len() == 0);
            assert(print_items(g.skip(i as int)) == Seq::<char>::empty());
            assert(final(out)@ =~= old(out)@);
        }
    } else {
        proof {
            crate::values::lemma_view_values_index(items@, i as int);
            lemma_gens_of_vals_index(view_values(items@), i as int);
            assert(g.skip(i as int)[0] == g[i as int]);
            assert(g[i as int] == gen_of_val(items@[i as int]@));
            assert(decreases_to!(items@ => items@[i as int]));
        }
        emit_value(&items[i], out);
        if i + 1 < items.len() {
            out.push(',');
            emit_value_list(items, i + 1, out);
            proof {
                assert(g.skip(i as int).drop_first() =~= g.skip(i as int + 1));
                assert(print_items(g.skip(i as int)) == print_json(g[i as int]) + seq![',']
                    + print_items(g.skip(i as int + 1)));
                assert(final(out)@ =~= old(out)@ + print_items(g.skip(i as int)));
            }
        } else {
            proof {
                assert(g.skip(i as int).len() == 1);
                assert(print_items(g.skip(i as int)) == print_json(g[i as int]));
                assert(final(out)@ =~= old(out)@ + print_items(g.skip(i as int)));
            }
        }
    }
}

/// Writes the remaining object members from `i` on, comma separated.
#[verifier::loop_isolation(false)]
fn emit_entry_list(entries: &Vec<(String, Value)>, i: usize, out: &mut Vec<char>)
    requires
        i <= entries@.len(),
    ensures
        final(out)@ == old(out)@ + print_members(
            gens_of_entries(view_entries(entries@)).skip(i as int),
        ),
    decreases entries@, 2int, entries@.len() - i,
{
    proof {
        crate::values::lemma_view_entries_len(entries@);
        lemma_gens_of_entries_len(view_entries(entries@));
    }
    let ghost g = gens_of_entries(view_entries(entries@));
    if i == entries.len() {
        proof {
            assert(g.skip(i as int).len() == 0);
            assert(print_members(g.skip(i as int)) == Seq::<char>::empty());
            assert(final(out)@ =~= old(out)@);
        }
    } else {
        proof {
            crate::values::lemma_view_entries_index(entries@, i as int);
            lemma_gens_of_entries_index(view_entries(entries@), i as int);
            assert(g.skip(i as int)[0] == g[i as int]);
            assert(g[i as int] == (entries@[i as int].0@, gen_of_val(entries@[i as int].1@)));
            assert(decreases_to!(entries@ => entries@[i as int]));
            assert(decreases_to!(entries@[i as int] => entries@[i as int].1));
        }
        emit_string(entries[i].0.as_str(), out);
        out.push(':');
        emit_value(&entries[i].1, out);
        if i + 1 < entries.len() {
            out.push(',');
            emit_entry_list(entries, i + 1, out);
            proof {
                assert(g.skip(i as int).drop_first() =~= g.skip(i as int + 1));
                assert(print_members(g.skip(i as int)) == print_string(g[i as int].0) + seq![':']
                    + print_json(g[i as int].1) + seq![','] + print_members(g.skip(i as int + 1)));
                assert(final(out)@ =~= old(out)@ + print_members(g.skip(i as int)));
            }
        } else {
            proof {
                assert(g.skip(i as int).len() == 1);
                assert(print_members(g.skip(i as int)) == print_string(g[i as int].0) + seq![':']
                    + print_json(g[i as int].1));
                assert(final(out)@ =~= old(out)@ + print_members(g.skip(i as int)));
            }
        }
    }
}

/// Writes the remaining children from `i` on, comma separated.
#[verifier::loop_isolation(false)]
fn emit_classifier_list(cs: &Vec<Classifier>, i: usize, out: &mut Vec<char>)
    requires
        i <= cs@.len(),
    ensures
        final(out)@ == old(out)@ + print_items(
            gens_of_classifiers(view_classifiers(cs@)).skip(i as int),
        ),
    decreases cs@, 2int, cs@.len() - i,
{
    proof {
        crate::classifier::lemma_view_classifiers_len(cs@);
        lemma_gens_of_classifiers_len(view_classifiers(cs@));
    }
    let ghost g = gens_of_classifiers(view_classifiers(cs@));
    if i == cs.len() {
        proof {
            assert(g.skip(i as int).len() == 0);
            assert(print_items(g.skip(i as int)) == Seq::<char>::empty());
            assert(final(out)@ =~= old(out)@);
        }
    } else {
        proof {
            crate::classifier::lemma_view_classifiers_index(cs@, i as int);
            lemma_gens_of_classifiers_index(view_classifiers(cs@), i as int);
            assert(g.skip(i as int)[0] == g[i as int]);
            assert(g[i as int] == gen_of_classifier(cs@[i as int]@));
            assert(decreases_to!(cs@ => cs@[i as int]));
        }
        emit_classifier(&cs[i], out);
        if i + 1 < cs.len() {
            out.push(',');
            emit_classifier_list(cs, i + 1, out);
            proof {
                assert(g.skip(i as int).drop_first() =~= g.skip(i as int + 1));
                assert(print_items(g.skip(i as int)) == print_json(g[i as int]) + seq![',']
                    + print_items(g.skip(i as int + 1)));
                assert(final(out)@ =~= old(out)@ + print_items(g.skip(i as int)));
            }
        } else {
            proof {
                assert(g.skip(i as int).len() == 1);
                assert(print_items(g.skip(i as int)) == print_json(g[i as int]));
                assert(final(out)@ =~= old(out)@ + print_items(g.skip(i as int)));
            }
        }
    }
}


/// Writes the wire text of one version tag.
fn emit_version(pv: &PythonVersion, out: &mut Vec<char>)
    ensures
        final(out)@ == old(out)@ + print_json(SpecVal::Str(version_str(*pv))),
{
    match pv {
        PythonVersion::All => emit_string("all", out),
        PythonVersion::Py310 => emit_string("py3.10", out),
        PythonVersion::Py312 => emit_string("py3.12", out),
        PythonVersion::Py314 => emit_string("py3.14", out),
    }
    proof {
        assert(print_json(SpecVal::Str(version_str(*pv))) == print_string(version_str(*pv)));
    }
}

/// Writes the remaining version tags from `i` on, comma separated.
#[verifier::loop_isolation(false)]
fn emit_version_list(vs: &Vec<PythonVersion>, i: usize, out: &mut Vec<char>)
    requires
        i <= vs@.len(),
    ensures
        final(out)@ == old(out)@ + print_items(gens_of_versions(vs@).skip(i as int)),
    decreases vs@.len() - i,
{
    let ghost g = gens_of_versions(vs@);
    if i == vs.len() {
        proof {
            assert(g.skip(i as int).len() == 0);
            assert(print_items(g.skip(i as int)) == Seq::<char>::empty());
            assert(final(out)@ =~= old(out)@);
        }
    } else {
        proof {
            assert(g.skip(i as int)[0] == g[i as int]);
            assert(g[i as int] == SpecVal::Str(version_str(vs@[i as int])));
        }
        emit_version(&vs[i], out);
        if i + 1 < vs.len() {
            out.push(',');
            emit_version_list(vs, i + 1, out);
            proof {
                assert(g.skip(i as int).drop_first() =~= g.skip(i as int + 1));
                assert(print_items(g.skip(i as int)) == print_json(g[i as int]) + seq![',']
                    + print_items(g.skip(i as int + 1)));
                assert(final(out)@ =~= old(out)@ + print_items(g.skip(i as int)));
            }
        } else {
            proof {
                assert(g.skip(i as int).len() == 1);
                assert(print_items(g.skip(i as int)) == print_json(g[i as int]));
                assert(final(out)@ =~= old(out)@ + print_items(g.skip(i as int)));
            }
        }
    }
}

/// Writes the wire text of one bucket.
fn emit_bucket(b: &Bucket, out: &mut Vec<char>)
    ensures
        final(out)@ == old(out)@ + print_json(gen_of_bucket(b@)),
{
    out.push('{');
    emit_string("name", out);
    out.push(':');
    emit_string(b.name.as_str(), out);
    out.push(',');
    emit_string("classifier", out);
    out.push(':');
    emit_classifier(&b.classifier, out);
    out.push(',');
    emit_string("value", out);
    out.push(':');
    emit_value(&b.value, out);
    out.push('}');
    proof {
        assert(gen_of_bucket(b@) == SpecVal::Dict(seq![("name"@, SpecVal::Str(b.name@)), ("classifier"@, gen_of_classifier(b.classifier@)), ("value"@, gen_of_val(b.value@))]));
        assert(print_json(SpecVal::Str(b.name@)) == print_string(b.name@));
        assert(seq![("name"@, SpecVal::Str(b.name@)), ("classifier"@, gen_of_classifier(b.classifier@)), ("value"@, gen_of_val(b.value@))].drop_first() =~= seq![("classifier"@, gen_of_classifier(b.classifier@)), ("value"@, gen_of_val(b.value@))]);
        assert(seq![("classifier"@, gen_of_classifier(b.classifier@)), ("value"@, gen_of_val(b.value@))].drop_first() =~= seq![("value"@, gen_of_val(b.value@))]);
        assert(seq![("value"@, gen_of_val(b.value@))].drop_first() =~= Seq::<(Seq<char>, SpecVal)>::empty());
        assert(print_members(seq![("value"@, gen_of_val(b.value@))]) == print_string("value"@) + seq![':'] + print_json(gen_of_val(b.value@)));
        assert(print_members(seq![("classifier"@, gen_of_classifier(b.classifier@)), ("value"@, gen_of_val(b.value@))]) == print_string("classifier"@) + seq![':'] + print_json(gen_of_classifier(b.classifier@)) + seq![','] + print_members(seq![("value"@, gen_of_val(b.value@))]));
        assert(print_members(seq![("name"@, SpecVal::Str(b.name@)), ("classifier"@, gen_of_classifier(b.classifier@)), ("value"@, gen_of_val(b.value@))]) == print_string("name"@) + seq![':'] + print_json(SpecVal::Str(b.name@)) + seq![','] + print_members(seq![("classifier"@, gen_of_classifier(b.classifier@)), ("value"@, gen_of_val(b.value@))]));
        assert(print_json(SpecVal::Dict(seq![("name"@, SpecVal::Str(b.name@)), ("classifier"@, gen_of_classifier(b.classifier@)), ("value"@, gen_of_val(b.value@))])) == seq!['{'] + print_members(seq![("name"@, SpecVal::Str(b.name@)), ("classifier"@, gen_of_classifier(b.classifier@)), ("value"@, gen_of_val(b.value@))]) + seq!['}']);
        assert(final(out)@ =~= old(out)@ + print_json(gen_of_bucket(b@)));
    }
}

/// Writes the remaining buckets from `i` on, comma separated.
#[verifier::loop_isolation(false)]
fn emit_bucket_list(bs: &Vec<Bucket>, i: usize, out: &mut Vec<char>)
    requires
        i <= bs@.len(),
    ensures
        final(out)@ == old(out)@ + print_items(
            gens_of_buckets(view_buckets(bs@)).skip(i as int),
        ),
    decreases bs@.len() - i,
{
    proof {
        lemma_gens_of_buckets_len(view_buckets(bs@));
    }
    let ghost g = gens_of_buckets(view_buckets(bs@));
    if i == bs.len() {
        proof {
            assert(g.skip(i as int).len() == 0);
            assert(print_items(g.skip(i as int)) == Seq::<char>::empty());
            assert(final(out)@ =~= old(out)@);
        }
    } else {
        proof {
            lemma_gens_of_buckets_index(view_buckets(bs@), i as int);
            assert(g.skip(i as int)[0] == g[i as int]);
            assert(view_buckets(bs@)[i as int] == bs@[i as int]@);
            assert(g[i as int] == gen_of_bucket(bs@[i as int]@));
        }
        emit_bucket(&bs[i], out);
        if i + 1 < bs.len() {
            out.push(',');
            emit_bucket_list(bs, i + 1, out);
            proof {
                assert(g.skip(i as int).drop_first() =~= g.skip(i as int + 1));
                assert(print_items(g.skip(i as int)) == print_json(g[i as int]) + seq![',']
                    + print_items(g.skip(i as int + 1)));
                assert(final(out)@ =~= old(out)@ + print_items(g.skip(i as int)));
            }
        } else {
            proof {
                assert(g.skip(i as int).len() == 1);
                assert(print_items(g.skip(i as int)) == print_json(g[i as int]));
                assert(final(out)@ =~= old(out)@ + print_items(g.skip(i as int)));
            }
        }
    }
}

/// Writes the wire text of a whole feature.
#[verifier::rlimit(100)]
fn emit_feature(f: &OfflineFeature, out: &mut Vec<char>)
    ensures
        final(out)@ == old(out)@ + spec_dumps(f@),
{
    out.push('{');
    emit_string("type", out);
    out.push(':');
    emit_string("offline-feature", out);
    out.push(',');
    emit_string("python_versions", out);
    out.push(':');
    out.push('[');
    emit_version_list(&f.python_versions, 0, out);
    out.push(']');
    out.push(',');
    emit_string("buckets", out);
    out.push(':');
    out.push('[');
    emit_bucket_list(&f.buckets, 0, out);
    out.push(']');
    out.push(',');
    emit_string("default", out);
    out.push(':');
    emit_value(&f.default, out);
    out.push('}');
    proof {
        let gv = gens_of_versions(f.python_versions@);
        let gb = gens_of_buckets(view_buckets(f.buckets@));
        assert(gv.skip(0) =~= gv);
        assert(gb.skip(0) =~= gb);
        assert(gen_of_feature(f@) == SpecVal::Dict(seq![("type"@, SpecVal::Str("offline-feature"@)), ("python_versions"@, SpecVal::Arr(gens_of_versions(f.python_versions@))), ("buckets"@, SpecVal::Arr(gens_of_buckets(view_buckets(f.buckets@)))), ("default"@, gen_of_val(f.default@))]));
        assert(print_json(SpecVal::Str("offline-feature"@)) == print_string("offline-feature"@));
        assert(print_json(SpecVal::Arr(gv)) == seq!['['] + print_items(gv) + seq![']']);
        assert(print_json(SpecVal::Arr(gb)) == seq!['['] + print_items(gb) + seq![']']);
        assert(seq![("type"@, SpecVal::Str("offline-feature"@)), ("python_versions"@, SpecVal::Arr(gens_of_versions(f.python_versions@))), ("buckets"@, SpecVal::Arr(gens_of_buckets(view_buckets(f.buckets@)))), ("default"@, gen_of_val(f.default@))].drop_first() =~= seq![("python_versions"@, SpecVal::Arr(gens_of_versions(f.python_versions@))), ("buckets"@, SpecVal::Arr(gens_of_buckets(view_buckets(f.buckets@)))), ("default"@, gen_of_val(f.default@))]);
        assert(seq![("python_versions"@, SpecVal::Arr(gens_of_versions(f.python_versions@))), ("buckets"@, SpecVal::Arr(gens_of_buckets(view_buckets(f.buckets@)))), ("default"@, gen_of_val(f.default@))].drop_first() =~= seq![("buckets"@, SpecVal::Arr(gens_of_buckets(view_buckets(f.buckets@)))), ("default"@, gen_of_val(f.default@))]);
        assert(seq![("buckets"@, SpecVal::Arr(gens_of_buckets(view_buckets(f.buckets@)))), ("default"@, gen_of_val(f.default@))].drop_first() =~= seq![("default"@, gen_of_val(f.default@))]);
        assert(seq![("default"@, gen_of_val(f.default@))].drop_first() =~= Seq::<(Seq<char>, SpecVal)>::empty());
        assert(print_members(seq![("default"@, gen_of_val(f.default@))]) == print_string("default"@) + seq![':'] + print_json(gen_of_val(f.default@)));
        assert(print_members(seq![("buckets"@, SpecVal::Arr(gens_of_buckets(view_buckets(f.buckets@)))), ("default"@, gen_of_val(f.default@))]) == print_string("buckets"@) + seq![':'] + print_json(SpecVal::Arr(gens_of_buckets(view_buckets(f.buckets@)))) + seq![','] + print_members(seq![("default"@, gen_of_val(f.default@))]));
        assert(print_members(seq![("python_versions"@, SpecVal::Arr(gens_of_versions(f.python_versions@))), ("buckets"@, SpecVal::Arr(gens_of_buckets(view_buckets(f.buckets@)))), ("default"@, gen_of_val(f.default@))]) == print_string("python_versions"@) + seq![':'] + print_json(SpecVal::Arr(gens_of_versions(f.python_versions@))) + seq![','] + print_members(seq![("buckets"@, SpecVal::Arr(gens_of_buckets(view_buckets(f.buckets@)))), ("default"@, gen_of_val(f.default@))]));
        assert(print_members(seq![("type"@, SpecVal::Str("offline-feature"@)), ("python_versions"@, SpecVal::Arr(gens_of_versions(f.python_versions@))), ("buckets"@, SpecVal::Arr(gens_of_buckets(view_buckets(f.buckets@)))), ("default"@, gen_of_val(f.default@))]) == print_string("type"@) + seq![':'] + print_json(SpecVal::Str("offline-feature"@)) + seq![','] + print_members(seq![("python_versions"@, SpecVal::Arr(gens_of_versions(f.python_versions@))), ("buckets"@, SpecVal::Arr(gens_of_buckets(view_buckets(f.buckets@)))), ("default"@, gen_of_val(f.default@))]));
        assert(print_json(SpecVal::Dict(seq![("type"@, SpecVal::Str("offline-feature"@)), ("python_versions"@, SpecVal::Arr(gens_of_versions(f.python_versions@))), ("buckets"@, SpecVal::Arr(gens_of_buckets(view_buckets(f.buckets@)))), ("default"@, gen_of_val(f.default@))])) == seq!['{'] + print_members(seq![("type"@, SpecVal::Str("offline-feature"@)), ("python_versions"@, SpecVal::Arr(gens_of_versions(f.python_versions@))), ("buckets"@, SpecVal::Arr(gens_of_buckets(view_buckets(f.buckets@)))), ("default"@, gen_of_val(f.default@))]) + seq!['}']);
        assert(final(out)@ =~= old(out)@ + print_json(gen_of_feature(f@)));
    }
}

impl OfflineFeature {
    /// The canonical wire text of this feature: the embedded-value layout,
    /// compact, in key order type, python_versions, buckets, default.
    pub fn dumps(&self) -> (r: String)
        ensures
            r@ == spec_dumps(self@),
    {
        let mut out: Vec<char> = Vec::new();
        emit_feature(self, &mut out);
        crate::json::chars_to_string(&out)
    }
}


/// Why a text failed to decode.
#[derive(Clone, Copy, Debug, PartialEq, Eq, Structural)]
pub enum DecodeError {
    /// The text is not well-formed JSON the parser accepts.
    Syntax,
    /// The JSON parses, but does not describe a feature: a missing field,
    /// an unrecognized discriminator, or an ill-shaped value.
    Schema,
}

/// The index of the first entry bound to `key`.
#[verifier::loop_isolation(false)]
fn lookup_exec(entries: &Vec<(String, Value)>, key: &str) -> (r: Option<usize>)
    ensures
        match r {
            Option::Some(idx) => idx < entries@.len() && lookup(view_entries(entries@), key@)
                == Option::Some(entries@[idx as int].1@),
            Option::None => lookup(view_entries(entries@), key@) is None,
        },
{
    let ghost w = view_entries(entries@);
    proof {
        crate::values::lemma_view_entries_len(entries@);
        assert(w.skip(0) =~= w);
    }
    let n = entries.len();
    let mut i: usize = 0;
    while i < n
        invariant
            n == entries@.len(),
            0 <= i <= n,
            lookup(w, key@) == lookup(w.skip(i as int), key@),
        decreases n - i,
    {
        proof {
            crate::values::lemma_view_entries_index(entries@, i as int);
            assert(w.skip(i as int)[0] == w[i as int]);
        }
        if crate::values::str_eq(entries[i].0.as_str(), key) {
            proof {
                assert(lookup(w.skip(i as int), key@) == Option::Some(w[i as int].1));
            }
            return Option::Some(i);
        }
        proof {
            assert(w.skip(i as int).drop_first() =~= w.skip(i as int + 1));
            assert(lookup(w.skip(i as int), key@) == lookup(w.skip(i as int + 1), key@));
        }
        i = i + 1;
    }
    proof {
        assert(w.skip(n as int).len() == 0);
    }
    Option::None
}

/// The attribute a parsed value stands for.
fn attr_from_value(v: &Value) -> (r: Option<Attribute>)
    ensures
        match attr_of(v@) {
            Option::Some(a) => r matches Option::Some(ra) && ra@ == a,
            Option::None => r is None,
        },
{
    broadcast use crate::values::lemma_value_view;

    let entries = match v {
        Value::Dict(entries) => entries,
        _ => {
            return Option::None;
        },
    };
    let name: &String = {
        let by_name: Option<&String> = match lookup_exec(entries, "name") {
            Option::Some(i) => match &entries[i].1 {
                Value::Str(t) => Option::Some(t),
                _ => Option::None,
            },
            Option::None => Option::None,
        };
        match by_name {
            Option::Some(t) => t,
            Option::None => match lookup_exec(entries, "__type") {
                Option::Some(i) => match &entries[i].1 {
                    Value::Str(t) => t,
                    _ => {
                        return Option::None;
                    },
                },
                Option::None => {
                    return Option::None;
                },
            },
        }
    };
    if crate::values::str_eq(name.as_str(), "static.number") {
        match lookup_exec(entries, "value") {
            Option::Some(i) => match &entries[i].1 {
                Value::Number(n) => Option::Some(Attribute::StaticNumber { value: *n }),
                _ => Option::None,
            },
            Option::None => Option::None,
        }
    } else if crate::values::str_eq(name.as_str(), "socket.hostname") {
        Option::Some(Attribute::Hostname)
    } else if crate::values::str_eq(name.as_str(), "random.session") {
        Option::Some(Attribute::SessionRandom)
    } else {
        Option::None
    }
}

/// The classifier a dictionary of already-normalized values stands for.
#[verifier::loop_isolation(false)]
#[verifier::rlimit(100)]
fn classify_shallow_exec(entries: &Vec<(String, Value)>) -> (r: Option<Classifier>)
    ensures
        match classify_shallow(view_entries(entries@)) {
            Option::Some(c) => r matches Option::Some(rc) && rc@ == c,
            Option::None => r is None,
        },
{
    broadcast use crate::values::lemma_value_view, crate::classifier::lemma_classifier_view;

    let ghost w = view_entries(entries@);
    let by_dunder: Option<&String> = match lookup_exec(entries, "__type") {
        Option::Some(i) => match &entries[i].1 {
            Value::Str(t) => Option::Some(t),
            _ => Option::None,
        },
        Option::None => Option::None,
    };
    let tag: &String = match by_dunder {
        Option::Some(t) => t,
        Option::None => match lookup_exec(entries, "type") {
            Option::Some(i) => match &entries[i].1 {
                Value::Str(t) => t,
                _ => {
                    return Option::None;
                },
            },
            Option::None => {
                return Option::None;
            },
        },
    };
    let is_all = crate::values::str_eq(tag.as_str(), "bool.all");
    let is_any = crate::values::str_eq(tag.as_str(), "bool.any");
    if is_all || is_any {
        let vi = match lookup_exec(entries, "value") {
            Option::Some(i) => i,
            Option::None => {
                return Option::None;
            },
        };
        let items = match &entries[vi].1 {
            Value::Array(items) => items,
            _ => {
                return Option::None;
            },
        };
        let ghost iw = view_values(items@);
        proof {
            crate::values::lemma_view_values_len(items@);
        }
        let n = items.len();
        let mut kids: Vec<Classifier> = Vec::new();
        let mut j: usize = 0;
        while j < n
            invariant
                n == items@.len(),
                0 <= j <= n,
                kids@.len() == j,
                forall|t: int| 0 <= t < j ==> ((#[trigger] iw[t]) matches SpecVal::Expr(b)
                    && kids@[t]@ == *b),
            decreases n - j,
        {
            proof {
                crate::values::lemma_view_values_index(items@, j as int);
            }
            match &items[j] {
                Value::Classifier(c) => {
                    let copied = c.duplicate();
                    kids.push(copied);
                },
                _ => {
                    proof {
                        assert(!(iw[j as int] is Expr));
                        assert(!all_exprs(iw));
                    }
                    return Option::None;
                },
            }
            j = j + 1;
        }
        proof {
            assert(all_exprs(iw));
            crate::classifier::lemma_view_classifiers_len(kids@);
            assert forall|t: int|
                0 <= t < n implies #[trigger] view_classifiers(kids@)[t] == exprs_of(iw)[t] by {
                crate::classifier::lemma_view_classifiers_index(kids@, t);
            }
            assert(view_classifiers(kids@) =~= exprs_of(iw));
        }
        if is_all {
            Option::Some(Classifier::ALL { value: kids })
        } else {
            Option::Some(Classifier::ANY { value: kids })
        }
    } else if crate::values::str_eq(tag.as_str(), "bool.none") {
        match lookup_exec(entries, "value") {
            Option::Some(i) => Option::Some(
                Classifier::NOT { value: entries[i].1.duplicate() },
            ),
            Option::None => Option::None,
        }
    } else {
        let m_re = crate::values::str_eq(tag.as_str(), "re.match");
        let m_lt = crate::values::str_eq(tag.as_str(), "comparison.lt");
        let m_gt = crate::values::str_eq(tag.as_str(), "comparison.gt");
        let m_gte = crate::values::str_eq(tag.as_str(), "comparison.gte");
        let m_lte = crate::values::str_eq(tag.as_str(), "comparison.lte");
        let m_eq = crate::values::str_eq(tag.as_str(), "comparison.eq");
        if !(m_re || m_lt || m_gt || m_gte || m_lte || m_eq) {
            proof {
                assert(!recognized_tag(tag@));
            }
            return Option::None;
        }
        let ai = match lookup_exec(entries, "attribute") {
            Option::Some(i) => i,
            Option::None => {
                return Option::None;
            },
        };
        let a = match attr_from_value(&entries[ai].1) {
            Option::Some(a) => a,
            Option::None => {
                return Option::None;
            },
        };
        let vi = match lookup_exec(entries, "value") {
            Option::Some(i) => i,
            Option::None => {
                return Option::None;
            },
        };
        let lit = entries[vi].1.duplicate();
        if m_re {
            Option::Some(Classifier::REGEXMATCH { attribute: a, value: lit })
        } else if m_lt {
            Option::Some(Classifier::LT { attribute: a, value: lit })
        } else if m_gt {
            Option::Some(Classifier::GT { attribute: a, value: lit })
        } else if m_gte {
            Option::Some(Classifier::GTE { attribute: a, value: lit })
        } else if m_lte {
            Option::Some(Classifier::LTE { attribute: a, value: lit })
        } else {
            Option::Some(Classifier::EQ { attribute: a, value: lit })
        }
    }
}

/// Normalizes a parsed value bottom-up, turning every dictionary that
/// stands for a classifier into a classifier node.
#[verifier::loop_isolation(false)]
fn normalize_value(v: &Value) -> (r: Value)
    ensures
        r@ == val_of(v@),
    decreases v,
{
    broadcast use crate::values::lemma_value_view;

    match v {
        Value::Str(s) => Value::Str(crate::values::clone_string(s)),
        Value::Number(n) => Value::Number(*n),
        Value::Boolean(b) => Value::Boolean(*b),
        Value::Null => Value::Null,
        Value::Classifier(c) => Value::Classifier(Box::new(c.duplicate())),
        Value::Array(items) => {
            let n = items.len();
            let mut out: Vec<Value> = Vec::new();
            let mut i: usize = 0;
            proof {
                crate::values::lemma_view_values_len(items@);
            }
            while i < n
                invariant
                    n == items@.len(),
                    0 <= i <= n,
                    out@.len() == i,
                    forall|t: int| 0 <= t < i ==> out@[t]@ == val_of(
                        #[trigger] view_values(items@)[t],
                    ),
                decreases n - i,
            {
                proof {
                    crate::values::lemma_view_values_index(items@, i as int);
                    assert(decreases_to!(*v => (*v)->Array_0));
                    assert(decreases_to!((*v)->Array_0 => items@[i as int]));
                }
                let nv = normalize_value(&items[i]);
                out.push(nv);
                i = i + 1;
            }
            proof {
                crate::values::lemma_view_values_len(out@);
                lemma_vals_of_len(view_values(items@));
                assert forall|t: int|
                    0 <= t < n implies #[trigger] view_values(out@)[t] == vals_of(
                    view_values(items@),
                )[t] by {
                    crate::values::lemma_view_values_index(out@, t);
                    lemma_vals_of_index(view_values(items@), t);
                }
                assert(view_values(out@) =~= vals_of(view_values(items@)));
            }
            Value::Array(out)
        },
        Value::Dict(entries) => {
            let n = entries.len();
            let mut out: Vec<(String, Value)> = Vec::new();
            let mut i: usize = 0;
            proof {
                crate::values::lemma_view_entries_len(entries@);
            }
            while i < n
                invariant
                    n == entries@.len(),
                    0 <= i <= n,
                    out@.len() == i,
                    forall|t: int| 0 <= t < i ==> out@[t].0@ == (#[trigger] view_entries(
                        entries@,
                    )[t]).0 && out@[t].1@ == val_of(view_entries(entries@)[t].1),
                decreases n - i,
            {
                proof {
                    crate::values::lemma_view_entries_index(entries@, i as int);
                    assert(decreases_to!(*v => (*v)->Dict_0));
                    assert(decreases_to!((*v)->Dict_0 => entries@[i as int]));
                    assert(decreases_to!(entries@[i as int] => entries@[i as int].1));
                }
                let key = crate::values::clone_string(&entries[i].0);
                let nv = normalize_value(&entries[i].1);
                out.push((key, nv));
                i = i + 1;
            }
            proof {
                crate::values::lemma_view_entries_len(out@);
                lemma_entries_of_len(view_entries(entries@));
                assert forall|t: int|
                    0 <= t < n implies #[trigger] view_entries(out@)[t] == entries_of(
                    view_entries(entries@),
                )[t] by {
                    crate::values::lemma_view_entries_index(out@, t);
                    lemma_entries_of_index(view_entries(entries@), t);
                }
                assert(view_entries(out@) =~= entries_of(view_entries(entries@)));
            }
            match classify_shallow_exec(&out) {
                Option::Some(c) => Value::Classifier(Box::new(c)),
                Option::None => Value::Dict(out),
            }
        },
    }
}

/// The version tag a parsed value stands for.
fn version_from_value(v: &Value) -> (r: Option<PythonVersion>)
    ensures
        match version_of(v@) {
            Option::Some(pv) => r == Option::Some(pv),
            Option::None => r is None,
        },
{
    broadcast use crate::values::lemma_value_view;

    match v {
        Value::Str(t) => {
            if crate::values::str_eq(t.as_str(), "all") {
                Option::Some(PythonVersion::All)
            } else if crate::values::str_eq(t.as_str(), "py3.10") {
                Option::Some(PythonVersion::Py310)
            } else if crate::values::str_eq(t.as_str(), "py3.12") {
                Option::Some(PythonVersion::Py312)
            } else if crate::values::str_eq(t.as_str(), "py3.14") {
                Option::Some(PythonVersion::Py314)
            } else {
                Option::None
            }
        },
        _ => Option::None,
    }
}

/// The bucket a parsed value stands for, consulting the artifact's legacy
/// value map for buckets without an embedded value.
fn bucket_from_value(v: &Value, legacy: Option<&Vec<(String, Value)>>) -> (r: Option<Bucket>)
    ensures
        ({
            let lw = match legacy {
                Option::Some(vd) => Option::Some(view_entries(vd@)),
                Option::None => Option::None,
            };
            match bucket_of(v@, lw) {
                Option::Some(b) => r matches Option::Some(rb) && rb@ == b,
                Option::None => r is None,
            }
        }),
{
    broadcast use crate::values::lemma_value_view;

    let be = match v {
        Value::Dict(be) => be,
        _ => {
            return Option::None;
        },
    };
    let name: &String = match lookup_exec(be, "name") {
        Option::Some(i) => match &be[i].1 {
            Value::Str(nm) => nm,
            _ => {
                return Option::None;
            },
        },
        Option::None => {
            return Option::None;
        },
    };
    if crate::values::str_eq(name.as_str(), "default") {
        return Option::None;
    }
    let cv = match lookup_exec(be, "classifier") {
        Option::Some(i) => &be[i].1,
        Option::None => {
            return Option::None;
        },
    };
    let nc = normalize_value(cv);
    let classifier = match nc {
        Value::Classifier(c) => *c,
        _ => {
            return Option::None;
        },
    };
    let value = match lookup_exec(be, "value") {
        Option::Some(i) => normalize_value(&be[i].1),
        Option::None => match legacy {
            Option::Some(vd) => match lookup_exec(vd, name.as_str()) {
                Option::Some(i) => normalize_value(&vd[i].1),
                Option::None => Value::Null,
            },
            Option::None => Value::Null,
        },
    };
    Option::Some(Bucket { name: crate::values::clone_string(name), classifier, value })
}

/// The feature a parsed value stands for.
#[verifier::loop_isolation(false)]
#[verifier::rlimit(100)]
fn feature_from_value(v: &Value) -> (r: Option<OfflineFeature>)
    ensures
        match feature_of(v@) {
            Option::Some(f) => r matches Option::Some(rf) && rf@ == f,
            Option::None => r is None,
        },
{
    broadcast use crate::values::lemma_value_view;

    let fe = match v {
        Value::Dict(fe) => fe,
        _ => {
            return Option::None;
        },
    };
    match lookup_exec(fe, "type") {
        Option::Some(i) => match &fe[i].1 {
            Value::Str(t) => {
                if !crate::values::str_eq(t.as_str(), "offline-feature") {
                    return Option::None;
                }
            },
            _ => {
                return Option::None;
            },
        },
        Option::None => {
            return Option::None;
        },
    }
    let pvs = match lookup_exec(fe, "python_versions") {
        Option::Some(i) => match &fe[i].1 {
            Value::Array(pvs) => pvs,
            _ => {
                return Option::None;
            },
        },
        Option::None => {
            return Option::None;
        },
    };
    let ghost pw = view_values(pvs@);
    proof {
        crate::values::lemma_view_values_len(pvs@);
        assert(pw.skip(0) =~= pw);
    }
    let mut versions: Vec<PythonVersion> = Vec::new();
    let pn = pvs.len();
    let mut i: usize = 0;
    proof {
        assert(versions@ =~= Seq::<PythonVersion>::empty());
        match versions_of(pw.skip(0)) {
            Option::Some(rest) => {
                assert(versions@ + rest =~= rest);
            },
            Option::None => {},
        }
    }
    while i < pn
        invariant
            pn == pvs@.len(),
            0 <= i <= pn,
            pw == view_values(pvs@),
            match versions_of(pw.skip(i as int)) {
                Option::Some(rest) => versions_of(pw) == Option::Some(versions@ + rest),
                Option::None => versions_of(pw) is None,
            },
        decreases pn - i,
    {
        proof {
            crate::values::lemma_view_values_index(pvs@, i as int);
            assert(pw.skip(i as int)[0] == pw[i as int]);
            assert(pw.skip(i as int).drop_first() =~= pw.skip(i as int + 1));
        }
        let pv = match version_from_value(&pvs[i]) {
            Option::Some(pv) => pv,
            Option::None => {
                return Option::None;
            },
        };
        let ghost pre = versions@;
        versions.push(pv);
        proof {
            match versions_of(pw.skip(i as int + 1)) {
                Option::Some(rest2) => {
                    assert(versions_of(pw.skip(i as int)) == Option::Some(seq![pv] + rest2));
                    assert(pre + (seq![pv] + rest2) =~= versions@ + rest2);
                },
                Option::None => {
                    assert(versions_of(pw.skip(i as int)) is None);
                },
            }
        }
        i = i + 1;
    }
    proof {
        assert(pw.skip(pn as int).len() == 0);
        assert(versions_of(pw.skip(pn as int)) == Option::Some(Seq::<PythonVersion>::empty()));
        assert(versions@ + Seq::<PythonVersion>::empty() =~= versions@);
        assert(versions_of(pw) == Option::Some(versions@));
    }
    let bs = match lookup_exec(fe, "buckets") {
        Option::Some(i2) => match &fe[i2].1 {
            Value::Array(bs) => bs,
            _ => {
                return Option::None;
            },
        },
        Option::None => {
            return Option::None;
        },
    };
    let legacy: Option<&Vec<(String, Value)>> = match lookup_exec(fe, "values") {
        Option::Some(i2) => match &fe[i2].1 {
            Value::Dict(vd) => Option::Some(vd),
            _ => Option::None,
        },
        Option::None => Option::None,
    };
    let ghost lw = match legacy {
        Option::Some(vd) => Option::Some(view_entries(vd@)),
        Option::None => Option::None::<Seq<(Seq<char>, SpecVal)>>,
    };
    let ghost bw = view_values(bs@);
    proof {
        crate::values::lemma_view_values_len(bs@);
        assert(bw.skip(0) =~= bw);
    }
    let mut buckets: Vec<Bucket> = Vec::new();
    let bn = bs.len();
    let mut j: usize = 0;
    proof {
        match buckets_of(bw.skip(0), lw) {
            Option::Some(rest) => {
                assert(view_buckets(buckets@) =~= Seq::<SpecBucket>::empty());
                assert(view_buckets(buckets@) + rest =~= rest);
            },
            Option::None => {},
        }
    }
    while j < bn
        invariant
            bn == bs@.len(),
            0 <= j <= bn,
            bw == view_values(bs@),
            lw == (match legacy {
                Option::Some(vd) => Option::Some(view_entries(vd@)),
                Option::None => Option::None::<Seq<(Seq<char>, SpecVal)>>,
            }),
            match buckets_of(bw.skip(j as int), lw) {
                Option::Some(rest) => buckets_of(bw, lw) == Option::Some(
                    view_buckets(buckets@) + rest,
                ),
                Option::None => buckets_of(bw, lw) is None,
            },
        decreases bn - j,
    {
        proof {
            crate::values::lemma_view_values_index(bs@, j as int);
            assert(bw.skip(j as int)[0] == bw[j as int]);
            assert(bw.skip(j as int).drop_first() =~= bw.skip(j as int + 1));
        }
        let b = match bucket_from_value(&bs[j], legacy) {
            Option::Some(b) => b,
            Option::None => {
                return Option::None;
            },
        };
        let ghost pre = view_buckets(buckets@);
        let ghost bspec = b@;
        buckets.push(b);
        proof {
            assert(view_buckets(buckets@) =~= pre.push(bspec));
            match buckets_of(bw.skip(j as int + 1), lw) {
                Option::Some(rest2) => {
                    assert(buckets_of(bw.skip(j as int), lw) == Option::Some(
                        seq![bspec] + rest2,
                    ));
                    assert(pre + (seq![bspec] + rest2) =~= view_buckets(buckets@) + rest2);
                },
                Option::None => {
                    assert(buckets_of(bw.skip(j as int), lw) is None);
                },
            }
        }
        j = j + 1;
    }
    proof {
        assert(bw.skip(bn as int).len() == 0);
        assert(buckets_of(bw.skip(bn as int), lw) == Option::Some(Seq::<SpecBucket>::empty()));
        assert(view_buckets(buckets@) + Seq::<SpecBucket>::empty() =~= view_buckets(buckets@));
        assert(buckets_of(bw, lw) == Option::Some(view_buckets(buckets@)));
    }
    let default = match lookup_exec(fe, "default") {
        Option::Some(i2) => normalize_value(&fe[i2].1),
        Option::None => {
            return Option::None;
        },
    };
    Option::Some(
        OfflineFeature {
            feature_type: FeatureType::Offline,
            python_versions: versions,
            buckets,
            default,
        },
    )
}

impl OfflineFeature {
    /// Decodes a feature from its wire text: a syntax fault when the JSON
    /// does not parse or leaves trailing text, a schema fault when the JSON
    /// does not describe a feature, and the decoded feature otherwise.
    pub fn loads(json_string: &str) -> (r: Result<OfflineFeature, DecodeError>)
        ensures
            match r {
                Result::Ok(f) => spec_decode(json_string@) == Option::Some(f@),
                Result::Err(e) => spec_decode(json_string@) is None && ((e
                    == DecodeError::Syntax) <==> spec_parse_text(json_string@) is None),
            },
    {
        let chars = crate::json::str_chars(json_string);
        match crate::json::parse_text_exec(&chars) {
            Option::Some(v) => match feature_from_value(&v) {
                Option::Some(f) => Result::Ok(f),
                Option::None => Result::Err(DecodeError::Schema),
            },
            Option::None => Result::Err(DecodeError::Syntax),
        }
    }
}

} // verus!
