//! Reading a schema stub written in the Cedar schema syntax.

use crate::generator::err::SchemaGeneratorError;
use cedar_policy_core::validator::json_schema::Fragment;
use cedar_policy_core::validator::RawName;
use vstd::prelude::*;

verus! {

#[verifier::external_type_specification]
#[verifier::external_body]
#[verifier::reject_recursive_types(N)]
pub struct ExFragment<N>(Fragment<N>);

#[verifier::external_type_specification]
#[verifier::external_body]
pub struct ExRawName(RawName);

/// Whether `text` parses as a schema fragment in the Cedar schema syntax.
pub uninterp spec fn cedar_stub_parses(text: Seq<char>) -> bool;

/// The schema fragment that `text` parses to, where it parses.
pub uninterp spec fn cedar_stub(text: Seq<char>) -> Fragment<RawName>;

/// Parses a schema fragment in the Cedar schema syntax
/// (`Fragment::from_cedarschema_str`, with every extension available),
/// dropping the warnings. The contract claims that whether the text parses,
/// and the fragment it parses to, are functions of the text, named
/// `cedar_stub_parses` and `cedar_stub` (the fragment is built of ordered
/// maps only); the message of the error is left unsaid.
#[verifier::external_body]
fn parse_fragment(text: &str) -> (r: Result<Fragment<RawName>, String>)
    ensures
        r is Ok <==> cedar_stub_parses(text@),
        r matches Ok(f) ==> f == cedar_stub(text@),
{
    match Fragment::<RawName>::from_cedarschema_str(text, cedar_policy_core::extensions::Extensions::all_available()) {
        Ok((fragment, _)) => Ok(fragment),
        Err(e) => Err(e.to_string()),
    }
}

/// Reads the text of a schema stub: its fragment, or, when the text does
/// not parse, `SchemaParseError` with Cedar's message.
pub fn parse_schema_stub(text: &str) -> (r: Result<Fragment<RawName>, SchemaGeneratorError>)
    ensures
        r is Ok <==> cedar_stub_parses(text@),
        r matches Ok(f) ==> f == cedar_stub(text@),
        r matches Err(e) ==> e is SchemaParseError,
{
    match parse_fragment(text) {
        Ok(fragment) => Ok(fragment),
        Err(m) => Err(SchemaGeneratorError::SchemaParseError(m)),
    }
}

} // verus!
