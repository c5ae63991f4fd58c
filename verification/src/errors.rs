//! Errors surfaced by the store: a classification into stable kinds, and a
//! report type that carries a correlation identifier, a message chain and
//! accumulated context, so that a failure can be matched with server-side
//! logs without leaking internal detail to the caller.

use crate::ids::fresh_uuid;
use vstd::prelude::*;
use vstd::string::*;

verus! {

/// The kinds of failure an operation can surface, each carrying a
/// human-readable message.
#[derive(Debug)]
pub enum ErrorType {
    Database(String),
    Authentication(String),
    Authorization(String),
    Validation(String),
    NotFound(String),
    Configuration(String),
    Internal(String),
}

/// The HTTP status code that corresponds to an error kind.
pub open spec fn spec_status_code(e: ErrorType) -> u16 {
    match e {
        ErrorType::Database(_) => 500,
        ErrorType::Authentication(_) => 401,
        ErrorType::Authorization(_) => 403,
        ErrorType::Validation(_) => 400,
        ErrorType::NotFound(_) => 404,
        ErrorType::Configuration(_) => 500,
        ErrorType::Internal(_) => 500,
    }
}

impl ErrorType {
    /// Returns the HTTP status code for this error type.
    pub fn status_code(&self) -> (r: u16)
        ensures
            r == spec_status_code(*self),
    {
        match self {
            ErrorType::Database(_) => 500,
            ErrorType::Authentication(_) => 401,
            ErrorType::Authorization(_) => 403,
            ErrorType::Validation(_) => 400,
            ErrorType::NotFound(_) => 404,
            ErrorType::Configuration(_) => 500,
            ErrorType::Internal(_) => 500,
        }
    }

    /// Returns whether this error should be logged at ERROR level (vs WARN).
    pub fn is_severe(&self) -> (r: bool)
        ensures
            r == (self is Database || self is Configuration || self is Internal),
    {
        match self {
            ErrorType::Database(_) => true,
            ErrorType::Configuration(_) => true,
            ErrorType::Internal(_) => true,
            _ => false,
        }
    }
}

/// The parts joined into one string, with `sep` between neighbours.
pub open spec fn join_sep(parts: Seq<Seq<char>>, sep: Seq<char>) -> Seq<char>
    decreases parts.len(),
{
    if parts.len() == 0 {
        Seq::empty()
    } else if parts.len() == 1 {
        parts[0]
    } else {
        join_sep(parts.drop_last(), sep) + sep + parts.last()
    }
}

/// Joins the strings of `parts`, writing `sep` between neighbours.
fn join_strings(parts: &Vec<String>, sep: &str) -> (r: String)
    ensures
        r@ == join_sep(parts@.map_values(|s: String| s@), sep@),
{
    let ghost all = parts@.map_values(|s: String| s@);
    let mut r = String::new();
    let mut i: usize = 0;
    while i < parts.len()
        invariant
            i <= parts.len(),
            all == parts@.map_values(|s: String| s@),
            r@ == join_sep(all.take(i as int), sep@),
        decreases parts.len() - i,
    {
        if i > 0 {
            r.append(sep);
        }
        r.append(parts[i].as_str());
        proof {
            assert(all.take(i + 1).drop_last() =~= all.take(i as int));
            assert(all.take(i + 1).last() == parts@[i as int]@);
        }
        i += 1;
    }
    proof {
        assert(all.take(parts@.len() as int) =~= all);
    }
    r
}

/// One failure report: the error kind, the chain of messages that caused it
/// (outermost first), the context trail added on the way out, and a fresh
/// identifier under which the failure can be correlated with logs.
#[derive(Debug)]
pub struct AppError {
    pub error_id: String,
    pub error_type: ErrorType,
    pub source: String,
    pub context: Vec<String>,
}

impl AppError {
    pub fn new(error_type: ErrorType, source: String) -> (r: AppError)
        ensures
            r.error_type == error_type,
            r.source == source,
            r.context@.len() == 0,
            r.error_id@.len() == 36,
    {
        AppError { error_id: fresh_uuid(), error_type, source, context: Vec::new() }
    }

    pub fn with_context(self, ctx: String) -> (r: AppError)
        ensures
            r.error_id == self.error_id,
            r.error_type == self.error_type,
            r.source == self.source,
            r.context@ == self.context@.push(ctx),
    {
        let mut e = self;
        e.context.push(ctx);
        e
    }

    /// The context trail in one readable line, oldest entry first.
    pub fn context_summary(&self) -> (r: String)
        ensures
            self.context@.len() == 0 ==> r@ == "No additional context"@,
            self.context@.len() > 0 ==> r@ == join_sep(
                self.context@.map_values(|s: String| s@),
                " -> "@,
            ),
    {
        format_context(&self.context)
    }
}

/// A context trail in one readable line, oldest entry first; a fixed phrase
/// when there is none.
pub fn format_context(context: &Vec<String>) -> (r: String)
    ensures
        context@.len() == 0 ==> r@ == "No additional context"@,
        context@.len() > 0 ==> r@ == join_sep(context@.map_values(|s: String| s@), " -> "@),
{
    if context.len() == 0 {
        String::from_str("No additional context")
    } else {
        join_strings(context, " -> ")
    }
}

/// The messages of a cause chain (outermost message first) rendered as one
/// line, each cause introduced by " | by: ".
pub fn format_traceback(chain: &Vec<String>) -> (r: String)
    ensures
        r@ == join_sep(chain@.map_values(|s: String| s@), " | by: "@),
{
    join_strings(chain, " | by: ")
}

} // verus!
