//! The closed attribute registry: each attribute names one provider of a
//! runtime value, resolved against an evaluation context.

use vstd::prelude::*;
use rand::RngExt;
use crate::values::Number;
use crate::values::SpecVal;
use crate::values::Value;
use crate::values::clone_string;

verus! {

/// One session-random draw is a whole number of millionths below this bound,
/// so the cached value stands for a number in `[0, 1)`.
pub const SESSION_RANDOM_BOUND: i64 = 1_000_000;

/// A named source of a runtime value. The provider set is closed: adding one
/// is a code change.
#[derive(Clone, Copy, Debug, PartialEq, Eq, Structural)]
pub enum Attribute {
    /// An embedded numeric literal; context-independent.
    StaticNumber { value: Number },
    /// The evaluating host's network hostname.
    Hostname,
    /// A random number in `[0, 1)` drawn once per process and cached.
    SessionRandom,
}

/// The mathematical image of an [`Attribute`].
pub enum SpecAttr {
    StaticNumber(int),
    Hostname,
    SessionRandom,
}

impl View for Attribute {
    type V = SpecAttr;

    open spec fn view(&self) -> SpecAttr {
        match self {
            Attribute::StaticNumber { value } => SpecAttr::StaticNumber(value@),
            Attribute::Hostname => SpecAttr::Hostname,
            Attribute::SessionRandom => SpecAttr::SessionRandom,
        }
    }
}

/// Ambient state one evaluation resolves attributes against: the host's
/// name, if it could be determined, and the process's session-random draw.
#[derive(Debug)]
pub struct Context {
    pub hostname: Option<String>,
    pub session_random: Number,
}

/// The mathematical image of a [`Context`].
pub struct SpecContext {
    pub hostname: Option<Seq<char>>,
    pub session_random: int,
}

impl View for Context {
    type V = SpecContext;

    open spec fn view(&self) -> SpecContext {
        SpecContext {
            hostname: match self.hostname {
                Option::Some(h) => Option::Some(h@),
                Option::None => Option::None,
            },
            session_random: self.session_random@,
        }
    }
}

impl Context {
    /// A context well formed for evaluation: the session-random draw stands
    /// for a number in `[0, 1)`.
    pub open spec fn wf(&self) -> bool {
        0 <= self.session_random@ < SESSION_RANDOM_BOUND as int
    }

    /// Builds a context from explicit parts.
    pub fn new(hostname: Option<String>, session_random: Number) -> (r: Context)
        requires
            0 <= session_random@ < SESSION_RANDOM_BOUND as int,
        ensures
            r.wf(),
            r@.hostname == match hostname {
                Option::Some(h) => Option::Some(h@),
                Option::None => Option::None::<Seq<char>>,
            },
            r@.session_random == session_random@,
    {
        Context { hostname, session_random }
    }

    /// Builds a context from the running process: the hostname is looked up
    /// now; the session-random draw is supplied by the caller, who holds it
    /// fixed for the life of the process.
    pub fn from_process(session_random: Number) -> (r: Context)
        requires
            0 <= session_random@ < SESSION_RANDOM_BOUND as int,
        ensures
            r.wf(),
            r@.session_random == session_random@,
    {
        Context { hostname: os_hostname(), session_random }
    }
}

/// Relies on gethostname::gethostname, which returns the host's name as an
/// `OsString`; `None` when that name is not valid Unicode.
#[verifier::external_body]
fn os_hostname() -> (r: Option<String>) {
    gethostname::gethostname().into_string().ok()
}

/// Relies on rand::rng and rand::RngExt::random_range over the half-open
/// range `0..1_000_000`: every outcome is uniform in that range, so it lies
/// at or above zero and below the bound.
#[verifier::external_body]
fn random_micros() -> (r: i64)
    ensures
        0 <= r < SESSION_RANDOM_BOUND as int,
{
    rand::rng().random_range(0i64..1_000_000i64)
}

/// Draws a fresh number in `[0, 1)`. The caller caches one draw per process
/// (a one-time-initialization cell) so that every evaluation in the process
/// observes the same session-random value.
pub fn fresh_session_random() -> (r: Number)
    ensures
        0 <= r@ < SESSION_RANDOM_BOUND as int,
{
    Number { micros: random_micros() }
}

/// The error reported when an environment-dependent lookup fails: the one
/// fault allowed to abort the evaluation of a single classifier.
#[derive(Clone, Copy, Debug, PartialEq, Eq, Structural)]
pub enum AttributeResolutionError {
    HostnameUnavailable,
}

/// What resolving an attribute returns, as a function of the context alone:
/// `None` exactly when the hostname is wanted but unavailable.
pub open spec fn spec_resolve(a: SpecAttr, ctx: SpecContext) -> Option<SpecVal> {
    match a {
        SpecAttr::StaticNumber(n) => Option::Some(SpecVal::Num(n)),
        SpecAttr::Hostname => match ctx.hostname {
            Option::Some(h) => Option::Some(SpecVal::Str(h)),
            Option::None => Option::None,
        },
        SpecAttr::SessionRandom => Option::Some(SpecVal::Num(ctx.session_random)),
    }
}

impl Attribute {
    /// Resolves this attribute against `ctx`, returning the provider's value
    /// or the one environment fault.
    pub fn eval(&self, ctx: &Context) -> (r: Result<Value, AttributeResolutionError>)
        ensures
            match spec_resolve(self@, ctx@) {
                Option::Some(v) => r matches Result::Ok(rv) && rv@ == v,
                Option::None => r == Result::Err::<Value, _>(
                    AttributeResolutionError::HostnameUnavailable,
                ),
            },
    {
        broadcast use crate::values::lemma_value_view;

        match self {
            Attribute::StaticNumber { value } => Result::Ok(Value::Number(*value)),
            Attribute::Hostname => match &ctx.hostname {
                Option::Some(h) => Result::Ok(Value::Str(clone_string(h))),
                Option::None => Result::Err(AttributeResolutionError::HostnameUnavailable),
            },
            Attribute::SessionRandom => Result::Ok(Value::Number(ctx.session_random)),
        }
    }
}

} // verus!
