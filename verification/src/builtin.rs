//! Built-in test protocols, embedded as configuration text and parsed on
//! demand.

use vstd::prelude::*;

use crate::test_config::config_matches;
use crate::test_config::config_valid;
use crate::test_config::csv_spec;
use crate::test_config::TestConfig;
use crate::text::str_eq_str;

verus! {

pub const OSHA_FAST_FFP: &'static str = "TEST,osha_fast_ffp,\"OSHA Fast FFP (Modified Filtering Facepiece protocol)\"\nAMBIENT,4,5\nEXERCISE,11,30,\"Bending Over\"\nEXERCISE,0,30,\"Talking\"\nEXERCISE,0,30,\"Head Side-to-Side\"\nEXERCISE,0,30,\"Head Up-and-Down\"\nAMBIENT,4,5\n";

#[derive(Debug, PartialEq, Eq)]
pub enum BuiltinConfigError {
    NotFound,
}

/// All built-in configurations, parsed from their embedded text.
pub fn builtin_configs() -> (r: Vec<TestConfig>)
    ensures
        match csv_spec(OSHA_FAST_FFP@, None, Seq::empty()) {
            Ok(m) => r@.len() == 1 && config_matches(r@[0], m),
            Err(_) => r@.len() == 0,
        },
{
    let mut out: Vec<TestConfig> = Vec::new();
    match TestConfig::parse_from_csv(OSHA_FAST_FFP) {
        Ok(c) => {
            out.push(c);
        },
        Err(_) => {},
    }
    out
}

/// Looks a built-in configuration up by its id. A returned configuration
/// has parsed from the embedded text and passed validation.
pub fn get_builtin_config(id: &str) -> (r: Result<TestConfig, BuiltinConfigError>)
    ensures
        match r {
            Ok(c) => id@ == "osha_fast_ffp"@ && config_valid(c) && match csv_spec(
                OSHA_FAST_FFP@,
                None,
                Seq::empty(),
            ) {
                Ok(m) => config_matches(c, m),
                Err(_) => false,
            },
            Err(e) => e == BuiltinConfigError::NotFound && (id@ != "osha_fast_ffp"@ || match
            csv_spec(OSHA_FAST_FFP@, None, Seq::empty()) {
                Ok(m) => exists|c2: TestConfig| #[trigger] config_matches(c2, m) && !config_valid(
                    c2,
                ),
                Err(_) => true,
            }),
        },
{
    if str_eq_str(id, "osha_fast_ffp") {
        match TestConfig::parse_from_csv(OSHA_FAST_FFP) {
            Ok(c) => match c.validate() {
                Ok(()) => Ok(c),
                Err(_) => Err(BuiltinConfigError::NotFound),
            },
            Err(_) => Err(BuiltinConfigError::NotFound),
        }
    } else {
        Err(BuiltinConfigError::NotFound)
    }
}

} // verus!
