//! The endpoint descriptor an Interface5 request is addressed with, and the
//! URL it resolves to.

use vstd::prelude::*;
use vstd::string::StringExecFns;

use crate::decimal::{i32_to_string, int_rep};

verus! {

/// The mathematical content of an [`I5RequestUrl`].
pub struct I5RequestUrlView {
    pub scenario: Seq<char>,
    pub tenant: Seq<char>,
    pub hostname: Seq<char>,
    pub port: i32,
}

/// The target endpoint of an Interface5 request: hostname and port of the
/// instance, plus the scenario and tenant routing identifiers that stand in
/// the URL path.
pub struct I5RequestUrl {
    scenario: String,
    tenant: String,
    hostname: String,
    port: i32,
}

impl View for I5RequestUrl {
    type V = I5RequestUrlView;

    closed spec fn view(&self) -> I5RequestUrlView {
        I5RequestUrlView {
            scenario: self.scenario@,
            tenant: self.tenant@,
            hostname: self.hostname@,
            port: self.port,
        }
    }
}

/// The URL an endpoint descriptor resolves to:
/// `https://{hostname}:{port}/api/v1/Input/{tenant}/{scenario}/Batches`.
pub open spec fn url_of(u: I5RequestUrlView) -> Seq<char> {
    "https://"@ + u.hostname + ":"@ + int_rep(u.port as int) + "/api/v1/Input/"@ + u.tenant
        + "/"@ + u.scenario + "/Batches"@
}

impl I5RequestUrl {
    /// Creates a new endpoint descriptor.
    pub fn new(hostname: String, port: i32, scenario: String, tenant: String) -> (u: I5RequestUrl)
        ensures
            u@ == (I5RequestUrlView {
                scenario: scenario@,
                tenant: tenant@,
                hostname: hostname@,
                port: port,
            }),
    {
        I5RequestUrl { scenario, tenant, hostname, port }
    }

    /// Renders the descriptor as a fully qualified URL string.
    pub fn to_url(&self) -> (r: String)
        ensures
            r@ == url_of(self@),
    {
        let mut out = String::new();
        out.append("https://");
        out.append(self.hostname.as_str());
        out.append(":");
        let port_text = i32_to_string(self.port);
        out.append(port_text.as_str());
        out.append("/api/v1/Input/");
        out.append(self.tenant.as_str());
        out.append("/");
        out.append(self.scenario.as_str());
        out.append("/Batches");
        proof {
            assert(out@ =~= url_of(self@));
        }
        out
    }
}

} // verus!
