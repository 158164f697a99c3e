use vstd::prelude::*;
use crate::table::Table;

verus! {

/// The bookmarks: short aliases that name canonical keys, and the canonical
/// keys with the URI or path each one opens.
pub struct Config {
    pub aliases: Table,
    pub things: Table,
}

/// Why a token could not be resolved.
#[derive(Debug, Clone, PartialEq, Eq)]
pub enum ResolveError {
    /// Neither an alias nor a canonical key; carries the token.
    NotFound(String),
}

/// What a token resolves to: through its alias when the alias names a known
/// key, else directly as a key, else nothing.  An alias whose target is
/// missing falls through to the direct lookup.
pub open spec fn resolution(
    aliases: Map<Seq<char>, Seq<char>>,
    things: Map<Seq<char>, Seq<char>>,
    token: Seq<char>,
) -> Option<Seq<char>> {
    if aliases.contains_key(token) && things.contains_key(aliases[token]) {
        Some(things[aliases[token]])
    } else if things.contains_key(token) {
        Some(things[token])
    } else {
        None
    }
}

/// `r` is what resolving `token` against `config` gives.
pub open spec fn resolved_as(config: &Config, token: Seq<char>, r: Result<String, ResolveError>) -> bool {
    match r {
        Ok(uri) => resolution(config.aliases@, config.things@, token) == Some(uri@),
        Err(ResolveError::NotFound(t)) => resolution(config.aliases@, config.things@, token) is None
            && t@ == token,
    }
}

/// Two results that carry the same text: the same URI, or the same
/// unresolved token.
pub open spec fn same_resolution(a: Result<String, ResolveError>, b: Result<String, ResolveError>) -> bool {
    match (a, b) {
        (Ok(x), Ok(y)) => x@ == y@,
        (Err(ResolveError::NotFound(x)), Err(ResolveError::NotFound(y))) => x@ == y@,
        _ => false,
    }
}

impl Config {
    pub open spec fn wf(&self) -> bool {
        self.aliases.wf() && self.things.wf()
    }

    /// A configuration with no aliases and no things.
    pub fn new() -> (c: Config)
        ensures
            c.wf(),
            c.aliases@ == Map::<Seq<char>, Seq<char>>::empty(),
            c.things@ == Map::<Seq<char>, Seq<char>>::empty(),
    {
        Config { aliases: Table::new(), things: Table::new() }
    }
}

/// Resolves a token to the URI it opens: first as an alias of a canonical
/// key, then as a canonical key itself.
pub fn alias_or_thing_to_uri(thing: &str, config: &Config) -> (r: Result<String, ResolveError>)
    requires
        config.wf(),
    ensures
        resolved_as(config, thing@, r),
{
    if let Some(alias_target) = config.aliases.get(thing) {
        if let Some(uri) = config.things.get(alias_target.as_str()) {
            return Ok(uri.clone());
        }
    }
    if let Some(uri) = config.things.get(thing) {
        return Ok(uri.clone());
    }
    let t = thing.to_string();
    proof {
        broadcast use vstd::string::group_string_axioms;
    }
    Err(ResolveError::NotFound(t))
}

/// The same resolution, under the name the link opener uses.
pub fn alias_or_link_to_uri(link: &str, config: &Config) -> (r: Result<String, ResolveError>)
    requires
        config.wf(),
    ensures
        resolved_as(config, link@, r),
{
    alias_or_thing_to_uri(link, config)
}

/// Resolution is a function of the token and the configuration: two
/// resolutions of one token against one configuration agree.
pub proof fn lemma_resolution_is_deterministic(
    config: &Config,
    token: Seq<char>,
    first: Result<String, ResolveError>,
    second: Result<String, ResolveError>,
)
    requires
        resolved_as(config, token, first),
        resolved_as(config, token, second),
    ensures
        same_resolution(first, second),
{
}

} // verus!
