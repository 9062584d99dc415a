//! Validation of built policies against the built schema, with Cedar's
//! validator.

use crate::agent::{BuildResult, ValidationError, ValidationResult};
use vstd::prelude::*;
use vstd::string::StringExecFns;

verus! {

/// Whether `s` parses as a schema in the Cedar schema format.
pub uninterp spec fn cedar_schema_parses(s: Seq<char>) -> bool;

/// The message of the error Cedar reports when parsing `s` as a policy
/// set, or `None` when it parses.
pub uninterp spec fn policy_parse_error(s: Seq<char>) -> Option<Seq<char>>;

/// Whether Cedar's validator, in its default mode, finds no error in the
/// policy set `policies` against the schema `schema` (both texts, which
/// parse).
pub uninterp spec fn cedar_validates(schema: Seq<char>, policies: Seq<char>) -> bool;

/// Parses a schema in the Cedar schema format (`str::parse` into
/// `cedar_policy::Schema`). The contract claims that whether it parses is
/// a function of the text, named `cedar_schema_parses`; the message of the
/// error is left unsaid, since Cedar builds it from hash-map walks whose
/// order changes between processes.
#[verifier::external_body]
fn parse_schema(s: &str) -> (r: Result<(), String>)
    ensures
        r is Ok <==> cedar_schema_parses(s@),
{
    match s.parse::<cedar_policy::Schema>() {
        Ok(_) => Ok(()),
        Err(e) => Err(e.to_string()),
    }
}

/// Parses a policy set (`str::parse` into `cedar_policy::PolicySet`). The
/// contract claims that whether it fails, and the message of the error,
/// are functions of the text, named `policy_parse_error`.
#[verifier::external_body]
fn parse_policy_set(s: &str) -> (r: Result<(), String>)
    ensures
        match policy_parse_error(s@) {
            Some(m) => r matches Err(e) && e@ == m,
            None => r is Ok,
        },
{
    match s.parse::<cedar_policy::PolicySet>() {
        Ok(_) => Ok(()),
        Err(e) => Err(e.to_string()),
    }
}

/// Validates the policy set `policies` against the schema `schema`, both
/// texts that parse (`Validator::new`, then `Validator::validate` in the
/// default mode), and hands out the errors and then the warnings of the
/// outcome, each as the id of its policy and its message. The contract
/// claims that there is no error exactly when `cedar_validates` holds of
/// the two texts; what the messages say, and their order, are left unsaid.
#[verifier::external_body]
fn run_validator(schema: &str, policies: &str) -> (r: (Vec<(String, String)>, Vec<(String, String)>))
    requires
        cedar_schema_parses(schema@),
        policy_parse_error(policies@) is None,
    ensures
        (r.0@.len() == 0) == cedar_validates(schema@, policies@),
{
    let (schema, policies) = match (schema.parse::<cedar_policy::Schema>(), policies.parse::<cedar_policy::PolicySet>()) {
        (Ok(s), Ok(p)) => (s, p),
        _ => return (Vec::new(), Vec::new()),
    };
    let outcome = cedar_policy::Validator::new(schema).validate(&policies, cedar_policy::ValidationMode::default());
    let errors = outcome.validation_errors().map(|e| (e.policy_id().to_string(), e.to_string()));
    let warnings = outcome.validation_warnings().map(|w| (w.policy_id().to_string(), w.to_string()));
    (errors.collect(), warnings.collect())
}

/// Problems without help text, from pairs of policy id and message.
fn problems(items: Vec<(String, String)>) -> (r: Vec<ValidationError>)
    ensures
        r@.len() == items@.len(),
        forall|i: int|
            0 <= i < r@.len() ==> (#[trigger] r@[i]).policy_id@ == items@[i].0@ && r@[i].message@
                == items@[i].1@ && r@[i].help is None,
{
    let mut out: Vec<ValidationError> = Vec::new();
    let mut i: usize = 0;
    while i < items.len()
        invariant
            0 <= i <= items@.len(),
            out@.len() == i,
            forall|j: int|
                0 <= j < i ==> (#[trigger] out@[j]).policy_id@ == items@[j].0@ && out@[j].message@
                    == items@[j].1@ && out@[j].help is None,
        decreases items@.len() - i,
    {
        out.push(
            ValidationError {
                policy_id: items[i].0.clone(),
                message: items[i].1.clone(),
                help: None,
            },
        );
        i = i + 1;
    }
    out
}

/// An outcome with one error, of no policy, whose message begins with
/// `prefix`.
pub open spec fn failed_with_prefix(r: ValidationResult, prefix: Seq<char>) -> bool {
    &&& !r.valid
    &&& r.errors@.len() == 1
    &&& r.errors@[0].policy_id@ == Seq::<char>::empty()
    &&& prefix.is_prefix_of(r.errors@[0].message@)
    &&& r.errors@[0].help is None
    &&& r.warnings@.len() == 0
}

/// An outcome with one error, of no policy, with the given message.
pub open spec fn failed_with(r: ValidationResult, message: Seq<char>) -> bool {
    failed_with_prefix(r, message) && r.errors@[0].message@ == message
}

/// An outcome with one error, of no policy, with `message`.
fn failure(message: String) -> (r: ValidationResult)
    ensures
        failed_with(r, message@),
{
    ValidationResult {
        valid: false,
        errors: vec![ValidationError { policy_id: String::new(), message, help: None }],
        warnings: Vec::new(),
    }
}

impl BuildResult {
    /// Validates the policies against the schema. Without a schema the
    /// policies are valid; a schema or policies that do not parse give one
    /// error; otherwise the outcome is valid exactly when Cedar's validator
    /// reports no error.
    pub fn validate(&self) -> (r: ValidationResult)
        ensures
            match self.schema {
                None => r.valid && r.errors@.len() == 0 && r.warnings@.len() == 0,
                Some(s) => if !cedar_schema_parses(s@) {
                    failed_with_prefix(r, "schema parse error: "@)
                } else {
                    match policy_parse_error(self.policies@) {
                        Some(m) => failed_with(r, "policy parse error: "@ + m),
                        None => {
                            &&& r.valid == cedar_validates(s@, self.policies@)
                            &&& r.valid == (r.errors@.len() == 0)
                            &&& forall|i: int| 0 <= i < r.errors@.len() ==> (#[trigger] r.errors@[i]).help is None
                            &&& forall|i: int|
                                0 <= i < r.warnings@.len() ==> (#[trigger] r.warnings@[i]).help is None
                        },
                    }
                },
            },
    {
        let schema_str = match &self.schema {
            Some(s) => s,
            None => {
                return ValidationResult { valid: true, errors: Vec::new(), warnings: Vec::new() };
            },
        };
        match parse_schema(schema_str.as_str()) {
            Ok(()) => {},
            Err(e) => {
                let mut message = "schema parse error: ".to_string();
                message.append(e.as_str());
                proof {
                    let prefix = "schema parse error: "@;
                    assert(message@ == prefix + e@);
                    assert(message@.subrange(0, prefix.len() as int) =~= prefix);
                }
                return failure(message);
            },
        }
        match parse_policy_set(self.policies.as_str()) {
            Ok(()) => {},
            Err(e) => {
                let mut message = "policy parse error: ".to_string();
                message.append(e.as_str());
                return failure(message);
            },
        }
        let (error_items, warning_items) = run_validator(schema_str.as_str(), self.policies.as_str());
        let errors = problems(error_items);
        let warnings = problems(warning_items);
        ValidationResult { valid: errors.len() == 0, errors, warnings }
    }
}

} // verus!
