use vstd::prelude::*;
use vstd::string::StringExecFns;

verus! {

/// How upstream cape servers are ordered when a request is forwarded.
#[derive(Clone, Copy, Debug, PartialEq, Eq, Structural)]
pub enum ProxyMode {
    /// Only the Mantle cape service.
    Primary,
    /// The legacy service first, then Mantle.
    PreferPrimaryFallbackSecondary,
    /// Mantle first, then the legacy service.
    PreferSecondaryFallbackPrimary,
}

/// An upstream server that may answer a forwarded cape request.
#[derive(Clone, Copy, Debug, PartialEq, Eq, Structural)]
pub enum Upstream {
    /// The Mantle cape service, reached by its domain name.
    Mantle,
    /// The legacy cape service, reached by its literal address.
    Legacy,
}

/// Why the startup configuration cannot be used.
#[derive(Clone, Copy, Debug, PartialEq, Eq, Structural)]
pub enum ConfigError {
    /// The mode selector names none of the known modes.
    UnknownMode,
}

/// The host name (or literal address) of an upstream server.
pub open spec fn host_spec(u: Upstream) -> Seq<char> {
    match u {
        Upstream::Mantle => "capes.mantle.gg"@,
        Upstream::Legacy => "107.182.233.85"@,
    }
}

impl Upstream {
    /// The authority that outbound requests to this upstream are sent to.
    pub fn host(&self) -> (r: &'static str)
        ensures
            r@ == host_spec(*self),
    {
        match self {
            Upstream::Mantle => "capes.mantle.gg",
            Upstream::Legacy => "107.182.233.85",
        }
    }
}

/// The ordered candidate list of each mode, highest priority first.
pub open spec fn candidates_spec(mode: ProxyMode) -> Seq<Upstream> {
    match mode {
        ProxyMode::Primary => seq![Upstream::Mantle],
        ProxyMode::PreferPrimaryFallbackSecondary => seq![Upstream::Legacy, Upstream::Mantle],
        ProxyMode::PreferSecondaryFallbackPrimary => seq![Upstream::Mantle, Upstream::Legacy],
    }
}

/// The upstream servers to try for `mode`, in the order they are tried.
pub fn resolve(mode: ProxyMode) -> (r: Vec<Upstream>)
    ensures
        r@ == candidates_spec(mode),
{
    match mode {
        ProxyMode::Primary => vec![Upstream::Mantle],
        ProxyMode::PreferPrimaryFallbackSecondary => vec![Upstream::Legacy, Upstream::Mantle],
        ProxyMode::PreferSecondaryFallbackPrimary => vec![Upstream::Mantle, Upstream::Legacy],
    }
}

/// The mode that a lower-case selector names, if any.
pub open spec fn mode_named(name: Seq<char>) -> Option<ProxyMode> {
    if name == "mantle"@ {
        Some(ProxyMode::Primary)
    } else if name == "optimantle"@ {
        Some(ProxyMode::PreferPrimaryFallbackSecondary)
    } else if name == "mantlefine"@ {
        Some(ProxyMode::PreferSecondaryFallbackPrimary)
    } else {
        None
    }
}

/// The outcome of reading a lower-case selector.
pub open spec fn parse_spec(name: Seq<char>) -> Result<ProxyMode, ConfigError> {
    match mode_named(name) {
        Some(m) => Ok(m),
        None => Err(ConfigError::UnknownMode),
    }
}

/// What `str::to_lowercase` makes of a text.
pub uninterp spec fn lower_of(s: Seq<char>) -> Seq<char>;

/// Relies on `str::to_lowercase`: the lower-case form depends on the text alone.
#[verifier::external_body]
fn lowercase(s: &str) -> (r: String)
    ensures
        r@ == lower_of(s@),
{
    s.to_lowercase()
}

/// Reads a selector that is already in lower case.
pub fn parse_mode_folded(name: &String) -> (r: Result<ProxyMode, ConfigError>)
    ensures
        r == parse_spec(name@),
{
    proof {
        reveal_strlit("mantle");
        reveal_strlit("optimantle");
        reveal_strlit("mantlefine");
    }
    let primary = String::from_str("mantle");
    let optimantle = String::from_str("optimantle");
    let mantlefine = String::from_str("mantlefine");
    if *name == primary {
        Ok(ProxyMode::Primary)
    } else if *name == optimantle {
        Ok(ProxyMode::PreferPrimaryFallbackSecondary)
    } else if *name == mantlefine {
        Ok(ProxyMode::PreferSecondaryFallbackPrimary)
    } else {
        Err(ConfigError::UnknownMode)
    }
}

/// Reads a mode selector, ignoring case.
pub fn parse_mode(text: &str) -> (r: Result<ProxyMode, ConfigError>)
    ensures
        r == parse_spec(lower_of(text@)),
{
    let folded = lowercase(text);
    parse_mode_folded(&folded)
}

/// The mode chosen at startup: the default when no selector is given.
pub fn select_mode(selector: Option<&str>) -> (r: Result<ProxyMode, ConfigError>)
    ensures
        selector is None ==> r == Ok::<ProxyMode, ConfigError>(ProxyMode::Primary),
        selector is Some ==> r == parse_spec(lower_of(selector->0@)),
{
    match selector {
        None => Ok(ProxyMode::Primary),
        Some(t) => parse_mode(t),
    }
}

/// The candidates for a selector that is already in lower case: none when
/// it names no mode.
pub fn resolve_folded(name: &String) -> (r: Vec<Upstream>)
    ensures
        mode_named(name@) matches Some(m) ==> r@ == candidates_spec(m),
        mode_named(name@) is None ==> r@.len() == 0,
{
    match parse_mode_folded(name) {
        Ok(m) => resolve(m),
        Err(_) => Vec::new(),
    }
}

/// The candidates for a selector, ignoring case: none when it names no mode.
pub fn resolve_name(text: &str) -> (r: Vec<Upstream>)
    ensures
        mode_named(lower_of(text@)) matches Some(m) ==> r@ == candidates_spec(m),
        mode_named(lower_of(text@)) is None ==> r@.len() == 0,
{
    let folded = lowercase(text);
    resolve_folded(&folded)
}

} // verus!
