//! The run's settings: the file-name patterns, and which environment they come from.
use crate::score::str_eq;
use vstd::prelude::*;
use vstd::string::*;

verus! {

/// What a run is configured with.
pub struct Settings {
    /// Patterns tried in order on each file name.
    pub file_regexes: Vec<regex::Regex>,
}

/// The possible runtime environment for the application.
#[derive(Clone, Copy, Debug, PartialEq, Eq, Structural)]
pub enum Environment {
    Test,
    Prod,
}

impl Environment {
    pub open spec fn name(&self) -> Seq<char> {
        match self {
            Environment::Test => "test"@,
            Environment::Prod => "prod"@,
        }
    }

    /// The environment's name, as its settings file is named.
    pub fn as_str(&self) -> (r: &'static str)
        ensures
            r@ == self.name(),
    {
        match self {
            Environment::Test => "test",
            Environment::Prod => "prod",
        }
    }
}

/// What `str::to_lowercase` makes of a text.
pub uninterp spec fn lower_of(s: Seq<char>) -> Seq<char>;

/// Relies on str::to_lowercase: the lowercase form depends on the characters alone.
#[verifier::external_body]
fn lowercase(s: &str) -> (r: String)
    ensures
        r@ == lower_of(s@),
{
    s.to_lowercase()
}

/// The environment a lowercase name stands for.
pub open spec fn environment_of(lower: Seq<char>) -> Option<Environment> {
    if lower == "test"@ {
        Some(Environment::Test)
    } else if lower == "production"@ || lower == "prod"@ {
        Some(Environment::Prod)
    } else {
        None
    }
}

/// The environment that an already lowercase name stands for: `test`, or `prod` or
/// `production`.
pub fn environment_named(lower: &str) -> (r: Option<Environment>)
    ensures
        r == environment_of(lower@),
{
    if str_eq(lower, "test") {
        Some(Environment::Test)
    } else if str_eq(lower, "production") || str_eq(lower, "prod") {
        Some(Environment::Prod)
    } else {
        None
    }
}

impl Environment {
    /// The environment a name stands for, in any case; the error says which names are known.
    pub fn parse(s: String) -> (r: Result<Environment, String>)
        ensures
            r is Ok <==> environment_of(lower_of(s@)) is Some,
            r matches Ok(e) ==> environment_of(lower_of(s@)) == Some(e),
            r matches Err(m) ==> m@ == lower_of(s@)
                + " is not a supported environment. Use either `test` or `prod`."@,
    {
        let lower = lowercase(s.as_str());
        match environment_named(lower.as_str()) {
            Some(e) => Ok(e),
            None => {
                let mut msg = lower;
                msg.append(" is not a supported environment. Use either `test` or `prod`.");
                Err(msg)
            },
        }
    }
}

impl Environment {
    /// The environment a setting names, `prod` when it names none.
    pub fn from_setting(v: Option<String>) -> (r: Result<Environment, String>)
        ensures
            v is None ==> r == Ok::<Environment, String>(Environment::Prod),
            v matches Some(s) ==> (r is Ok <==> environment_of(lower_of(s@)) is Some),
            v matches Some(s) ==> (r matches Ok(e) ==> environment_of(lower_of(s@)) == Some(e)),
            v matches Some(s) ==> (r matches Err(m) ==> m@ == lower_of(s@)
                + " is not a supported environment. Use either `test` or `prod`."@),
    {
        match v {
            Some(s) => Environment::parse(s),
            None => Ok(Environment::Prod),
        }
    }
}

impl TryFrom<String> for Environment {
    type Error = String;

    /// The environment a name stands for, in any case; the error says which names are known.
    fn try_from(s: String) -> (r: Result<Self, Self::Error>)
        ensures
            r is Ok <==> environment_of(lower_of(s@)) is Some,
            r matches Ok(e) ==> environment_of(lower_of(s@)) == Some(e),
            r matches Err(m) ==> m@ == lower_of(s@)
                + " is not a supported environment. Use either `test` or `prod`."@,
    {
        Environment::parse(s)
    }
}

impl vstd::std_specs::convert::TryFromSpecImpl<String> for Environment {
    open spec fn obeys_try_from_spec() -> bool {
        false
    }

    open spec fn try_from_spec(s: String) -> Result<Self, String> {
        arbitrary()
    }
}

} // verus!
