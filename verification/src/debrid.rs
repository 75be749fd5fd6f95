use vstd::prelude::*;

verus! {

/// The debrid back-ends the service can be configured with.
#[derive(Debug, Clone, Copy, PartialEq, Eq, Structural)]
pub enum DebridProviderType {
    RealDebrid,
    Premiumize,
}

/// What the front-end sees of the debrid configuration.
#[derive(Debug, Clone)]
pub struct DebridStatus {
    pub configured: bool,
    pub provider_type: Option<String>,
}

/// Holds which debrid provider is configured and with which credential.
/// The network calls against the configured provider live with the host;
/// this type owns the selection logic.
pub struct DebridService {
    provider: Option<(DebridProviderType, String)>,
}

impl DebridService {
    /// The configured provider and its credential, if any.
    pub closed spec fn provider_model(&self) -> Option<(DebridProviderType, Seq<char>)> {
        match self.provider {
            Some((t, ref token)) => Some((t, token@)),
            None => None,
        }
    }

    pub fn new() -> (r: DebridService)
        ensures
            r.provider_model() is None,
    {
        DebridService { provider: None }
    }

    pub fn configure_real_debrid(&mut self, token: &str)
        ensures
            final(self).provider_model() == Some(
                (DebridProviderType::RealDebrid, token@),
            ),
    {
        self.provider = Some((DebridProviderType::RealDebrid, token.to_owned()));
    }

    pub fn configure_premiumize(&mut self, api_key: &str)
        ensures
            final(self).provider_model() == Some(
                (DebridProviderType::Premiumize, api_key@),
            ),
    {
        self.provider = Some((DebridProviderType::Premiumize, api_key.to_owned()));
    }

    pub fn clear_provider(&mut self)
        ensures
            final(self).provider_model() is None,
    {
        self.provider = None;
    }

    /// The configuration as shown to the front-end: configured exactly when
    /// a provider with a non-empty credential is selected, and the
    /// provider's stable name.
    pub fn get_status(&self) -> (r: DebridStatus)
        ensures
            self.provider_model() is None ==> !r.configured && r.provider_type is None,
            self.provider_model() is Some ==> {
                &&& r.configured == ((self.provider_model()->0).1.len() > 0)
                &&& r.provider_type is Some
                &&& ((self.provider_model()->0).0 is RealDebrid ==> r.provider_type->0@
                    == "real_debrid"@)
                &&& ((self.provider_model()->0).0 is Premiumize ==> r.provider_type->0@
                    == "premiumize"@)
            },
    {
        match &self.provider {
            Some((provider_type, token)) => DebridStatus {
                configured: token.as_str().unicode_len() > 0,
                provider_type: Some(
                    match provider_type {
                        DebridProviderType::RealDebrid => String::from_str("real_debrid"),
                        DebridProviderType::Premiumize => String::from_str("premiumize"),
                    },
                ),
            },
            None => DebridStatus { configured: false, provider_type: None },
        }
    }
}

} // verus!
