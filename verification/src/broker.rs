//! The shared broker-client configuration collaborator: one enumeration
//! of the recognized options, and one function that turns configuration
//! values into the ordered list of client settings both stages apply.
//! Reading the environment and feeding the settings to the client happen
//! outside the library; the logic here depends only on the values.

use vstd::prelude::*;

verus! {

/// The client options the pipeline recognizes.
#[derive(Clone, Copy, PartialEq, Eq, Structural, Debug)]
pub enum SettingKey {
    BootstrapServers,
    MessageTimeoutMs,
    EnableIdempotence,
    SecurityProtocol,
    SaslMechanism,
    SaslUsername,
    SaslPassword,
    SslCaLocation,
}

/// Connection and security values, however they were sourced. The
/// bootstrap address is required; the rest apply only when present.
pub struct BrokerConfig {
    pub bootstrap: Vec<u8>,
    pub security_protocol: Option<Vec<u8>>,
    pub sasl_mechanism: Option<Vec<u8>>,
    pub sasl_username: Option<Vec<u8>>,
    pub sasl_password: Option<Vec<u8>>,
    pub ssl_ca_location: Option<Vec<u8>>,
}

/// The value bytes of `5000`: the fixed message timeout.
pub open spec fn spec_timeout_value() -> Seq<u8> {
    seq![53u8, 48u8, 48u8, 48u8]
}

/// The value bytes of `true`: idempotent production is always on.
pub open spec fn spec_true_value() -> Seq<u8> {
    seq![116u8, 114u8, 117u8, 101u8]
}

pub open spec fn opt_view(o: Option<Vec<u8>>) -> Option<Seq<u8>> {
    match o {
        Some(v) => Some(v@),
        None => None,
    }
}

/// One optional setting: present in the list exactly when a value is set.
pub open spec fn spec_opt_setting(key: SettingKey, v: Option<Seq<u8>>) -> Seq<(SettingKey, Seq<
    u8,
>)> {
    match v {
        Some(b) => seq![(key, b)],
        None => Seq::empty(),
    }
}

/// The ordered settings both stages hand their broker clients: the
/// bootstrap address and the two fixed defaults first, then each
/// security option that is set, in a fixed order.
pub open spec fn spec_client_settings(c: &BrokerConfig) -> Seq<(SettingKey, Seq<u8>)> {
    seq![
        (SettingKey::BootstrapServers, c.bootstrap@),
        (SettingKey::MessageTimeoutMs, spec_timeout_value()),
        (SettingKey::EnableIdempotence, spec_true_value()),
    ] + spec_opt_setting(SettingKey::SecurityProtocol, opt_view(c.security_protocol))
        + spec_opt_setting(SettingKey::SaslMechanism, opt_view(c.sasl_mechanism))
        + spec_opt_setting(SettingKey::SaslUsername, opt_view(c.sasl_username))
        + spec_opt_setting(SettingKey::SaslPassword, opt_view(c.sasl_password))
        + spec_opt_setting(SettingKey::SslCaLocation, opt_view(c.ssl_ca_location))
}

/// The settings list and the built one agree pairwise.
pub open spec fn settings_match(r: Seq<(SettingKey, Vec<u8>)>, s: Seq<(SettingKey, Seq<u8>)>) -> bool {
    r.len() == s.len() && forall|i: int|
        0 <= i < r.len() ==> (#[trigger] r[i]).0 == s[i].0 && r[i].1@ == s[i].1
}

impl BrokerConfig {
    /// Builds the client settings this configuration calls for.
    pub fn client_settings(&self) -> (r: Vec<(SettingKey, Vec<u8>)>)
        ensures
            settings_match(r@, spec_client_settings(self)),
    {
        let mut r: Vec<(SettingKey, Vec<u8>)> = Vec::new();
        r.push((SettingKey::BootstrapServers, crate::symmap::own_bytes(self.bootstrap.as_slice())));
        let mut timeout: Vec<u8> = Vec::new();
        timeout.push(53u8);
        timeout.push(48u8);
        timeout.push(48u8);
        timeout.push(48u8);
        proof {
            assert(timeout@ =~= spec_timeout_value());
        }
        r.push((SettingKey::MessageTimeoutMs, timeout));
        let mut yes: Vec<u8> = Vec::new();
        yes.push(116u8);
        yes.push(114u8);
        yes.push(117u8);
        yes.push(101u8);
        proof {
            assert(yes@ =~= spec_true_value());
        }
        r.push((SettingKey::EnableIdempotence, yes));
        match &self.security_protocol {
            Some(v) => r.push(
                (SettingKey::SecurityProtocol, crate::symmap::own_bytes(v.as_slice())),
            ),
            None => {},
        }
        match &self.sasl_mechanism {
            Some(v) => r.push((SettingKey::SaslMechanism, crate::symmap::own_bytes(v.as_slice()))),
            None => {},
        }
        match &self.sasl_username {
            Some(v) => r.push((SettingKey::SaslUsername, crate::symmap::own_bytes(v.as_slice()))),
            None => {},
        }
        match &self.sasl_password {
            Some(v) => r.push((SettingKey::SaslPassword, crate::symmap::own_bytes(v.as_slice()))),
            None => {},
        }
        match &self.ssl_ca_location {
            Some(v) => r.push((SettingKey::SslCaLocation, crate::symmap::own_bytes(v.as_slice()))),
            None => {},
        }
        r
    }
}

} // verus!
