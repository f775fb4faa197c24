//! The identity of an RPC endpoint.
use vstd::prelude::*;

verus! {

/// What an [`RpcProvider`] holds, its strings as sequences of characters.
pub struct ProviderView {
    pub name: Seq<char>,
    pub url: Seq<char>,
    pub auth_header: Option<Seq<char>>,
    pub auth_value: Option<Seq<char>>,
}

impl ProviderView {
    /// The header to authenticate with, as name and value: there is one only when
    /// both are configured.
    pub open spec fn auth(self) -> Option<(Seq<char>, Seq<char>)> {
        match (self.auth_header, self.auth_value) {
            (Some(header), Some(value)) => Some((header, value)),
            _ => None,
        }
    }
}

/// A single Soroban RPC endpoint with optional authentication.
#[derive(Debug)]
pub struct RpcProvider {
    /// Human-readable label (e.g. "stellar-testnet", "blockdaemon-mainnet").
    pub name: String,
    /// Full JSON-RPC URL.
    pub url: String,
    /// Optional authentication header name (e.g. "Authorization", "X-API-Key").
    pub auth_header: Option<String>,
    /// Optional authentication header value (e.g. "Bearer <token>", "<api-key>").
    pub auth_value: Option<String>,
}

/// The characters of an optional string.
pub open spec fn text_view(text: Option<String>) -> Option<Seq<char>> {
    match text {
        Some(t) => Some(t@),
        None => None,
    }
}

/// The characters of an optional pair of strings.
pub open spec fn pair_view(pair: Option<(String, String)>) -> Option<(Seq<char>, Seq<char>)> {
    match pair {
        Some((a, b)) => Some((a@, b@)),
        None => None,
    }
}

impl View for RpcProvider {
    type V = ProviderView;

    open spec fn view(&self) -> ProviderView {
        ProviderView {
            name: self.name@,
            url: self.url@,
            auth_header: text_view(self.auth_header),
            auth_value: text_view(self.auth_value),
        }
    }
}

impl Clone for RpcProvider {
    fn clone(&self) -> (copy: RpcProvider)
        ensures
            copy@ == self@,
    {
        RpcProvider {
            name: self.name.clone(),
            url: self.url.clone(),
            auth_header: clone_text(&self.auth_header),
            auth_value: clone_text(&self.auth_value),
        }
    }
}

fn clone_text(text: &Option<String>) -> (copy: Option<String>)
    ensures
        text_view(copy) == text_view(*text),
{
    match text {
        Some(t) => Some(t.clone()),
        None => None,
    }
}

impl RpcProvider {
    /// The header to attach to each request, as name and value. There is one only
    /// when both are configured.
    pub fn auth(&self) -> (auth: Option<(String, String)>)
        ensures
            pair_view(auth) == self@.auth(),
    {
        match (&self.auth_header, &self.auth_value) {
            (Some(header), Some(value)) => Some((header.clone(), value.clone())),
            _ => None,
        }
    }
}

} // verus!
