//! The literal value model: a closed, recursive tagged union for artifact
//! literals and runtime results.

use vstd::prelude::*;
use crate::classifier::Classifier;
use crate::classifier::SpecClassifier;
use crate::classifier::recognized_tag;
use crate::classifier::wf_classifier;
use crate::json::str_printable;

verus! {

/// Fixed-point scale: a [`Number`] stores millionths.
pub const MICROS_PER_UNIT: i64 = 1_000_000;

/// A numeric literal, held as a fixed-point count of millionths.
///
/// Artifact numbers carry at most six fractional digits, so a number is the
/// integer `micros` standing for `micros / 1_000_000`. Ordering and equality
/// on numbers are ordering and equality on `micros`.
#[derive(Clone, Copy, Debug, PartialEq, Eq, Structural)]
pub struct Number {
    pub micros: i64,
}

impl View for Number {
    type V = int;

    open spec fn view(&self) -> int {
        self.micros as int
    }
}

impl Number {
    /// The number standing for the whole quantity `units`.
    pub fn from_int(units: i64) -> (r: Number)
        requires
            -9_223_372_036_854 <= units <= 9_223_372_036_854,
        ensures
            r@ == units * 1_000_000,
    {
        Number { micros: units * MICROS_PER_UNIT }
    }

    /// The number standing for `micros / 1_000_000`.
    pub fn from_micros(micros: i64) -> (r: Number)
        ensures
            r@ == micros as int,
    {
        Number { micros }
    }
}

/// A literal value or runtime result: the closed union over everything an
/// artifact can hold. Comparisons never coerce across variants.
#[derive(Debug, PartialEq)]
pub enum Value {
    Str(String),
    Number(Number),
    Boolean(bool),
    Array(Vec<Value>),
    Dict(Vec<(String, Value)>),
    Null,
    Classifier(Box<Classifier>),
}

/// The mathematical image of a [`Value`].
pub enum SpecVal {
    Str(Seq<char>),
    Num(int),
    Bool(bool),
    Arr(Seq<SpecVal>),
    Dict(Seq<(Seq<char>, SpecVal)>),
    Null,
    Expr(Box<SpecClassifier>),
}

impl View for Value {
    type V = SpecVal;

    open spec fn view(&self) -> SpecVal
        decreases self,
    {
        match self {
            Value::Str(s) => SpecVal::Str(s@),
            Value::Number(n) => SpecVal::Num(n@),
            Value::Boolean(b) => SpecVal::Bool(*b),
            Value::Array(items) => SpecVal::Arr(view_values(items@)),
            Value::Dict(entries) => SpecVal::Dict(view_entries(entries@)),
            Value::Null => SpecVal::Null,
            Value::Classifier(c) => SpecVal::Expr(Box::new((**c)@)),
        }
    }
}

/// The values of a sequence, element by element.
pub open spec fn view_values(s: Seq<Value>) -> Seq<SpecVal>
    decreases s,
{
    if s.len() == 0 {
        Seq::empty()
    } else {
        view_values(s.drop_last()).push(s.last()@)
    }
}

/// The entries of a keyed sequence, pair by pair.
pub open spec fn view_entries(s: Seq<(String, Value)>) -> Seq<(Seq<char>, SpecVal)>
    decreases s,
{
    if s.len() == 0 {
        Seq::empty()
    } else {
        view_entries(s.drop_last()).push((s.last().0@, s.last().1@))
    }
}

pub broadcast proof fn lemma_view_values_len(s: Seq<Value>)
    ensures
        #[trigger] view_values(s).len() == s.len(),
    decreases s,
{
    if s.len() > 0 {
        lemma_view_values_len(s.drop_last());
        assert(view_values(s) == view_values(s.drop_last()).push(s.last()@));
    } else {
        assert(view_values(s) == Seq::<SpecVal>::empty());
    }
}

pub broadcast proof fn lemma_view_values_index(s: Seq<Value>, i: int)
    requires
        0 <= i < s.len(),
    ensures
        #[trigger] view_values(s)[i] == s[i]@,
    decreases s,
{
    lemma_view_values_len(s);
    assert(view_values(s) == view_values(s.drop_last()).push(s.last()@));
    lemma_view_values_len(s.drop_last());
    if i < s.len() - 1 {
        lemma_view_values_index(s.drop_last(), i);
        assert(s.drop_last()[i] == s[i]);
    } else {
        assert(view_values(s)[i] == s.last()@);
    }
}

pub broadcast proof fn lemma_view_entries_len(s: Seq<(String, Value)>)
    ensures
        #[trigger] view_entries(s).len() == s.len(),
    decreases s,
{
    if s.len() > 0 {
        lemma_view_entries_len(s.drop_last());
        assert(view_entries(s) == view_entries(s.drop_last()).push((s.last().0@, s.last().1@)));
    } else {
        assert(view_entries(s) == Seq::<(Seq<char>, SpecVal)>::empty());
    }
}

pub broadcast proof fn lemma_view_entries_index(s: Seq<(String, Value)>, i: int)
    requires
        0 <= i < s.len(),
    ensures
        #[trigger] view_entries(s)[i] == (s[i].0@, s[i].1@),
    decreases s,
{
    lemma_view_entries_len(s);
    assert(view_entries(s) == view_entries(s.drop_last()).push((s.last().0@, s.last().1@)));
    lemma_view_entries_len(s.drop_last());
    if i < s.len() - 1 {
        lemma_view_entries_index(s.drop_last(), i);
        assert(s.drop_last()[i] == s[i]);
    } else {
        assert(view_entries(s)[i] == (s.last().0@, s.last().1@));
    }
}

/// The view of a value, spelled out constructor by constructor.
pub broadcast proof fn lemma_value_view(v: Value)
    ensures
        #[trigger] v@ == (match v {
            Value::Str(s) => SpecVal::Str(s@),
            Value::Number(n) => SpecVal::Num(n@),
            Value::Boolean(b) => SpecVal::Bool(b),
            Value::Array(items) => SpecVal::Arr(view_values(items@)),
            Value::Dict(entries) => SpecVal::Dict(view_entries(entries@)),
            Value::Null => SpecVal::Null,
            Value::Classifier(c) => SpecVal::Expr(Box::new((*c)@)),
        }),
{
    assert(v@ == (match v {
        Value::Str(s) => SpecVal::Str(s@),
        Value::Number(n) => SpecVal::Num(n@),
        Value::Boolean(b) => SpecVal::Bool(b),
        Value::Array(items) => SpecVal::Arr(view_values(items@)),
        Value::Dict(entries) => SpecVal::Dict(view_entries(entries@)),
        Value::Null => SpecVal::Null,
        Value::Classifier(c) => SpecVal::Expr(Box::new((*c)@)),
    }));
}

/// Truthiness of a literal, as the negation combinator reads it: empty, zero,
/// false and null are falsy; everything else is truthy. A nested classifier
/// is not read through truthiness, so it counts as truthy here.
pub open spec fn spec_truthy(v: SpecVal) -> bool {
    match v {
        SpecVal::Str(s) => s.len() > 0,
        SpecVal::Num(n) => n != 0,
        SpecVal::Bool(b) => b,
        SpecVal::Arr(items) => items.len() > 0,
        SpecVal::Dict(entries) => entries.len() > 0,
        SpecVal::Null => false,
        SpecVal::Expr(_) => true,
    }
}

/// Whether a dictionary would be mistaken for a classifier by the decoder:
/// it carries a discriminator key bound to a recognized tag string.
pub open spec fn dict_classifier_like(entries: Seq<(Seq<char>, SpecVal)>) -> bool {
    exists|i: int|
        0 <= i < entries.len() && (entries[i].0 == "__type"@ || entries[i].0 == "type"@)
            && (entries[i].1 matches SpecVal::Str(t) && recognized_tag(t))
}

/// A value the codec can round-trip: its strings hold printable characters,
/// its numbers lie in the machine range, none of its dictionaries
/// masquerades as a classifier, and every nested classifier is itself well
/// formed.
pub open spec fn wf_val(v: SpecVal) -> bool
    decreases v,
{
    match v {
        SpecVal::Str(s) => str_printable(s),
        SpecVal::Num(n) => -0x8000_0000_0000_0000 <= n <= 0x7fff_ffff_ffff_ffff,
        SpecVal::Arr(items) => forall|i: int| 0 <= i < items.len() ==> wf_val(#[trigger] items[i]),
        SpecVal::Dict(entries) => !dict_classifier_like(entries) && forall|i: int|
            0 <= i < entries.len() ==> str_printable(#[trigger] entries[i].0) && wf_val(
                entries[i].1,
            ),
        SpecVal::Expr(c) => wf_classifier(*c),
        _ => true,
    }
}

/// A copy of `s` with the same characters.
pub fn clone_string(s: &String) -> (r: String)
    ensures
        r@ == s@,
{
    s.clone()
}

/// Whether two string slices hold the same characters.
#[verifier::loop_isolation(false)]
pub fn str_eq(a: &str, b: &str) -> (r: bool)
    ensures
        r == (a@ == b@),
{
    let na = a.unicode_len();
    let nb = b.unicode_len();
    if na != nb {
        proof {
            assert(a@ != b@) by {
                if a@ == b@ {
                    assert(a@.len() == b@.len());
                }
            }
        }
        return false;
    }
    let mut i: usize = 0;
    while i < na
        invariant
            na == a@.len(),
            nb == b@.len(),
            na == nb,
            0 <= i <= na,
            forall|j: int| 0 <= j < i ==> a@[j] == b@[j],
        decreases na - i,
    {
        if a.get_char(i) != b.get_char(i) {
            return false;
        }
        i = i + 1;
    }
    proof {
        assert(a@ =~= b@);
    }
    true
}

/// Two value sequences equal view by view have one image.
pub proof fn lemma_view_values_pointwise(a: Seq<Value>, b: Seq<Value>)
    requires
        a.len() == b.len(),
        forall|i: int| 0 <= i < a.len() ==> a[i]@ == #[trigger] b[i]@,
    ensures
        view_values(a) == view_values(b),
{
    lemma_view_values_len(a);
    lemma_view_values_len(b);
    assert forall|i: int| 0 <= i < a.len() implies view_values(a)[i] == view_values(b)[i] by {
        lemma_view_values_index(a, i);
        lemma_view_values_index(b, i);
    }
    assert(view_values(a) =~= view_values(b));
}

/// Two entry sequences equal view by view have one image.
pub proof fn lemma_view_entries_pointwise(a: Seq<(String, Value)>, b: Seq<(String, Value)>)
    requires
        a.len() == b.len(),
        forall|i: int| 0 <= i < a.len() ==> a[i].0@ == #[trigger] b[i].0@ && a[i].1@ == b[i].1@,
    ensures
        view_entries(a) == view_entries(b),
{
    lemma_view_entries_len(a);
    lemma_view_entries_len(b);
    assert forall|i: int| 0 <= i < a.len() implies view_entries(a)[i] == view_entries(b)[i] by {
        lemma_view_entries_index(a, i);
        lemma_view_entries_index(b, i);
    }
    assert(view_entries(a) =~= view_entries(b));
}

impl Value {
    /// A structurally equal copy of this value.
    #[verifier::loop_isolation(false)]
    pub fn duplicate(&self) -> (r: Value)
        ensures
            r@ == self@,
        decreases self,
    {
        broadcast use lemma_value_view;

        match self {
            Value::Str(s) => Value::Str(clone_string(s)),
            Value::Number(n) => Value::Number(*n),
            Value::Boolean(b) => Value::Boolean(*b),
            Value::Array(items) => {
                let n = items.len();
                let mut out: Vec<Value> = Vec::new();
                let mut i: usize = 0;
                while i < n
                    invariant
                        n == items@.len(),
                        0 <= i <= n,
                        out@.len() == i,
                        forall|j: int| 0 <= j < i ==> out@[j]@ == #[trigger] items@[j]@,
                    decreases n - i,
                {
                    proof {
                        assert(decreases_to!(*self => (*self)->Array_0));
                        assert(decreases_to!((*self)->Array_0 => items@[i as int]));
                    }
                    let copied = items[i].duplicate();
                    out.push(copied);
                    i = i + 1;
                }
                proof {
                    lemma_view_values_pointwise(out@, items@);
                }
                Value::Array(out)
            },
            Value::Dict(entries) => {
                let n = entries.len();
                let mut out: Vec<(String, Value)> = Vec::new();
                let mut i: usize = 0;
                while i < n
                    invariant
                        n == entries@.len(),
                        0 <= i <= n,
                        out@.len() == i,
                        forall|j: int| 0 <= j < i ==> out@[j].0@ == #[trigger] entries@[j].0@
                            && out@[j].1@ == entries@[j].1@,
                    decreases n - i,
                {
                    proof {
                        assert(decreases_to!(*self => (*self)->Dict_0));
                        assert(decreases_to!((*self)->Dict_0 => entries@[i as int]));
                        assert(decreases_to!(entries@[i as int] => entries@[i as int].1));
                    }
                    let key = clone_string(&entries[i].0);
                    let copied = entries[i].1.duplicate();
                    out.push((key, copied));
                    i = i + 1;
                }
                proof {
                    lemma_view_entries_pointwise(out@, entries@);
                }
                Value::Dict(out)
            },
            Value::Null => Value::Null,
            Value::Classifier(c) => Value::Classifier(Box::new(c.duplicate())),
        }
    }
}

} // verus!
