//! How HTTP connections are made.

use vstd::prelude::*;

verus! {

/// The scheme of a URL is not one that the connector knows.
#[derive(Debug, Clone, Copy, PartialEq, Eq, Structural)]
pub struct InvalidScheme;

impl InvalidScheme {
    /// The error in words.
    pub fn description(&self) -> (text: &'static str)
        ensures
            text@ == "Invalid scheme for Http"@,
    {
        "Invalid scheme for Http"
    }
}

/// Where to connect to.
pub struct Target {
    pub host: String,
    pub port: u16,
}

/// Whether the two texts are the same.
fn same(a: &str, b: &str) -> (equal: bool)
    ensures
        equal == (a@ == b@),
{
    a.to_owned() == b.to_owned()
}

/// A connector for plain connections.
#[derive(Debug, Clone, Copy, Default)]
pub struct HttpConnector;

impl HttpConnector {
    /// Where to connect to for a URL with this host, port and scheme.
    pub fn connect(&self, host: &str, port: u16, scheme: &str) -> (target: Result<
        Target,
        InvalidScheme,
    >)
        ensures
            connects(host@, port, scheme@, target),
    {
        if same(scheme, "http") {
            Ok(Target { host: host.to_owned(), port })
        } else {
            Err(InvalidScheme)
        }
    }
}

/// A connection, possibly protected.
pub enum HttpsTarget {
    /// A plain connection.
    Http(Target),
    /// A connection to be protected under the name of the host.
    Https(Target),
}

/// A connector for plain and protected connections.
#[derive(Debug, Clone, Copy, Default)]
pub struct HttpsConnector;

impl HttpsConnector {
    /// Where to connect to, and whether the connection is to be protected, for a URL with this
    /// host, port and scheme.
    pub fn connect(&self, host: &str, port: u16, scheme: &str) -> (target: Result<
        HttpsTarget,
        InvalidScheme,
    >)
        ensures
            connects_protected(host@, port, scheme@, target),
    {
        if same(scheme, "https") {
            Ok(HttpsTarget::Https(Target { host: host.to_owned(), port }))
        } else {
            match HttpConnector.connect(host, port, scheme) {
                Ok(target) => Ok(HttpsTarget::Http(target)),
                Err(e) => Err(e),
            }
        }
    }
}

/// What the connector for plain connections makes of a URL.
pub open spec fn connects(
    host: Seq<char>,
    port: u16,
    scheme: Seq<char>,
    target: Result<Target, InvalidScheme>,
) -> bool {
    match target {
        Ok(target) => {
            &&& scheme == "http"@
            &&& target.host@ == host
            &&& target.port == port
        },
        Err(_) => scheme != "http"@,
    }
}

/// What the connector for plain and protected connections makes of a URL.
pub open spec fn connects_protected(
    host: Seq<char>,
    port: u16,
    scheme: Seq<char>,
    target: Result<HttpsTarget, InvalidScheme>,
) -> bool {
    match target {
        Ok(HttpsTarget::Https(target)) => {
            &&& scheme == "https"@
            &&& target.host@ == host
            &&& target.port == port
        },
        Ok(HttpsTarget::Http(target)) => {
            &&& scheme == "http"@
            &&& scheme != "https"@
            &&& target.host@ == host
            &&& target.port == port
        },
        Err(_) => scheme != "http"@ && scheme != "https"@,
    }
}

/// A connection is protected if and only if the scheme says so, and plain if and only if the plain
/// connector would make it, too: both connectors then connect to the same place, which is the one
/// that the URL names. Nothing else is connected to.
pub proof fn scheme_decides_on_the_protection(
    host: Seq<char>,
    port: u16,
    scheme: Seq<char>,
    plain: Result<Target, InvalidScheme>,
    any: Result<HttpsTarget, InvalidScheme>,
)
    requires
        connects(host, port, scheme, plain),
        connects_protected(host, port, scheme, any),
    ensures
        scheme == seq!['h', 't', 't', 'p', 's'] <==> (any matches Ok(target) && target is Https),
        scheme == seq!['h', 't', 't', 'p'] <==> (any matches Ok(target) && target is Http),
        plain is Ok <==> (any matches Ok(target) && target is Http),
        plain matches Ok(target) ==> target.host@ == host && target.port == port,
        any matches Ok(HttpsTarget::Http(target)) ==> target.host@ == host && target.port == port,
        any matches Ok(HttpsTarget::Https(target)) ==> target.host@ == host && target.port == port,
{
    reveal_strlit("http");
    reveal_strlit("https");
    assert("http"@ =~= seq!['h', 't', 't', 'p']);
    assert("https"@ =~= seq!['h', 't', 't', 'p', 's']);
    assert("http"@.len() != "https"@.len());
}

} // verus!
