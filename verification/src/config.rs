//! The C-facing configuration, and turning it into the settings a connection is made from.
//!
//! Certificates arrive as PEM bytes, not paths. Covers the endpoint, TLS/mTLS and the two
//! connection timeouts.

use vstd::prelude::*;
use vstd::utf8::{decode_utf8, encode_utf8, valid_utf8};

use rustls_pki_types::pem::PemObject;

use crate::buffer::ak_bytes;
use crate::error::{AK_ERR_INVALID_CONFIG, AK_ERR_INVALID_UTF8};
use crate::text::{chars_of, push_all, string_of};

verus! {

/// The configuration a caller builds to connect. Every buffer is read once, before the
/// conversion; an empty one means "not set".
#[allow(non_camel_case_types)]
pub struct ak_client_config {
    /// Required: the endpoint URL, e.g. `https://localhost:5001`.
    pub endpoint: ak_bytes,
    /// `0` to verify the server certificate normally, any other value to accept any certificate.
    pub allow_unsafe_connection: u8,
    /// The client's own certificate, PEM-encoded. Matched with `key_pem`; both empty or both set.
    pub cert_pem: ak_bytes,
    /// The client's own private key, PEM-encoded. Matched with `cert_pem`; both empty or both set.
    pub key_pem: ak_bytes,
    /// The Certificate Authority, PEM-encoded.
    pub ca_cert_pem: ak_bytes,
    /// Overrides the name checked during TLS verification. Empty for none.
    pub override_target: ak_bytes,
    /// Timeout for establishing the connection, in milliseconds; `-1` for the 60-second default.
    pub connect_timeout_ms: i64,
    /// Timeout for each request, in milliseconds; `-1` for no timeout.
    pub timeout_ms: i64,
}

/// The pieces of a URI, each as the text `http::Uri` holds it.
pub struct UriParts {
    pub scheme: Option<String>,
    pub authority: Option<String>,
    pub path_and_query: Option<String>,
}

pub struct UriView {
    pub scheme: Option<Seq<char>>,
    pub authority: Option<Seq<char>>,
    pub path_and_query: Option<Seq<char>>,
}

pub open spec fn option_view(o: Option<String>) -> Option<Seq<char>> {
    match o {
        Some(s) => Some(s@),
        None => None,
    }
}

impl View for UriParts {
    type V = UriView;

    open spec fn view(&self) -> UriView {
        UriView {
            scheme: option_view(self.scheme),
            authority: option_view(self.authority),
            path_and_query: option_view(self.path_and_query),
        }
    }
}

fn clone_option(o: &Option<String>) -> (c: Option<String>)
    ensures
        option_view(c) == option_view(*o),
{
    match o {
        Some(s) => Some(s.clone()),
        None => None,
    }
}

/// What `text.parse::<http::Uri>()` gives: the URI's scheme, authority and path-and-query, or
/// the parse error's message.
pub uninterp spec fn uri_parse(text: Seq<char>) -> Result<UriView, Seq<char>>;

/// What `text.parse::<http::uri::Authority>()` gives: the authority's text, or `None` when the
/// text is not an authority.
pub uninterp spec fn authority_parse(text: Seq<char>) -> Option<Seq<char>>;

/// What `http::Uri::builder()` builds from the three parts (each set only when `Some`): the built
/// URI's parts, or the build error's message.
pub uninterp spec fn uri_build(
    scheme: Option<Seq<char>>,
    authority: Option<Seq<char>>,
    path_and_query: Option<Seq<char>>,
) -> Result<UriView, Seq<char>>;

/// What `CertificateDer::from_pem_slice` gives: the first certificate's DER bytes, or the PEM
/// error's message.
pub uninterp spec fn pem_certificate(pem: Seq<u8>) -> Result<Seq<u8>, Seq<char>>;

/// What `PrivateKeyDer::from_pem_slice` gives: the key's form (`0` PKCS#1, `1` SEC1, `2` PKCS#8;
/// `3` stands for a form the non-exhaustive enum may gain, which this version does not have) and
/// its DER bytes, or the error's message.
pub uninterp spec fn pem_private_key(pem: Seq<u8>) -> Result<(u8, Seq<u8>), Seq<char>>;

/// The message of the `Utf8Error` `std::str::from_utf8` reports for invalid bytes.
pub uninterp spec fn utf8_error_message(bytes: Seq<u8>) -> Seq<char>;

/// `std::str::from_utf8`: the decoded text exactly when the bytes are valid UTF-8.
#[verifier::external_body]
fn str_from_utf8(bytes: &[u8]) -> (r: Result<String, String>)
    ensures
        r is Ok <==> valid_utf8(bytes@),
        match r {
            Ok(text) => text@ == decode_utf8(bytes@),
            Err(message) => message@ == utf8_error_message(bytes@),
        },
{
    match std::str::from_utf8(bytes) {
        Ok(text) => Ok(text.to_owned()),
        Err(error) => Err(error.to_string()),
    }
}

/// `text.parse::<http::Uri>()`, its parts read back as text.
#[verifier::external_body]
fn parse_uri(text: &str) -> (r: Result<UriParts, String>)
    ensures
        match r {
            Ok(parts) => uri_parse(text@) == Ok::<UriView, Seq<char>>(parts@),
            Err(message) => uri_parse(text@) == Err::<UriView, Seq<char>>(message@),
        },
{
    match text.parse::<http::Uri>() {
        Ok(uri) => Ok(UriParts {
            scheme: uri.scheme_str().map(str::to_owned),
            authority: uri.authority().map(|a| a.as_str().to_owned()),
            path_and_query: uri.path_and_query().map(|p| p.as_str().to_owned()),
        }),
        Err(error) => Err(error.to_string()),
    }
}

/// `text.parse::<http::uri::Authority>()`. An authority keeps exactly the text it was parsed
/// from, which is the one fact stated beyond the name.
#[verifier::external_body]
fn parse_authority(text: &str) -> (r: Option<String>)
    ensures
        option_view(r) == authority_parse(text@),
        r matches Some(a) ==> a@ == text@,
{
    text.parse::<http::uri::Authority>().ok().map(|a| a.as_str().to_owned())
}

/// `http::Uri::builder()` with each part that is `Some` set, then `build()`.
#[verifier::external_body]
fn build_uri(
    scheme: Option<String>,
    authority: Option<String>,
    path_and_query: Option<String>,
) -> (r: Result<UriParts, String>)
    ensures
        match r {
            Ok(parts) => uri_build(option_view(scheme), option_view(authority), option_view(
                path_and_query,
            )) == Ok::<UriView, Seq<char>>(parts@),
            Err(message) => uri_build(
                option_view(scheme),
                option_view(authority),
                option_view(path_and_query),
            ) == Err::<UriView, Seq<char>>(message@),
        },
{
    let mut uri = http::Uri::builder();
    if let Some(scheme) = scheme { uri = uri.scheme(scheme.as_str()); }
    if let Some(authority) = authority { uri = uri.authority(authority); }
    if let Some(path_and_query) = path_and_query { uri = uri.path_and_query(path_and_query); }
    uri.build().map(|uri| UriParts {
        scheme: uri.scheme_str().map(str::to_owned),
        authority: uri.authority().map(|a| a.as_str().to_owned()),
        path_and_query: uri.path_and_query().map(|p| p.as_str().to_owned()),
    }).map_err(|error| error.to_string())
}

/// `CertificateDer::from_pem_slice`, the certificate handed back as its DER bytes.
#[verifier::external_body]
fn certificate_from_pem(pem: &[u8]) -> (r: Result<Vec<u8>, String>)
    ensures
        match r {
            Ok(der) => pem_certificate(pem@) == Ok::<Seq<u8>, Seq<char>>(der@),
            Err(message) => pem_certificate(pem@) == Err::<Seq<u8>, Seq<char>>(message@),
        },
{
    match rustls_pki_types::CertificateDer::from_pem_slice(pem) {
        Ok(der) => Ok(der.as_ref().to_vec()),
        Err(error) => Err(error.to_string()),
    }
}

/// `PrivateKeyDer::from_pem_slice`, the key taken apart into its form and its DER bytes.
#[verifier::external_body]
fn private_key_from_pem(pem: &[u8]) -> (r: Result<(u8, Vec<u8>), String>)
    ensures
        match r {
            Ok((kind, der)) => pem_private_key(pem@) == Ok::<(u8, Seq<u8>), Seq<char>>((kind, der@)),
            Err(message) => pem_private_key(pem@) == Err::<(u8, Seq<u8>), Seq<char>>(message@),
        },
{
    match rustls_pki_types::PrivateKeyDer::from_pem_slice(pem) {
        Ok(rustls_pki_types::PrivateKeyDer::Pkcs1(key)) => Ok((0, key.secret_pkcs1_der().to_vec())),
        Ok(rustls_pki_types::PrivateKeyDer::Sec1(key)) => Ok((1, key.secret_sec1_der().to_vec())),
        Ok(rustls_pki_types::PrivateKeyDer::Pkcs8(key)) => Ok((2, key.secret_pkcs8_der().to_vec())),
        Ok(key) => Ok((3, key.secret_der().to_vec())),
        Err(error) => Err(error.to_string()),
    }
}

/// A private key as plain values: its form (`0` PKCS#1, `1` SEC1, `2` PKCS#8) and its DER bytes.
pub struct PrivateKey {
    pub kind: u8,
    pub der: Vec<u8>,
}

/// What went wrong converting an [`ak_client_config`], the option responsible, and the code the
/// ABI reports for it.
pub struct InvalidConfig {
    option: String,
    message: String,
    code: i32,
}

pub struct InvalidConfigView {
    pub option: Seq<char>,
    pub message: Seq<char>,
    pub code: i32,
}

impl View for InvalidConfig {
    type V = InvalidConfigView;

    closed spec fn view(&self) -> InvalidConfigView {
        InvalidConfigView { option: self.option@, message: self.message@, code: self.code }
    }
}

/// An option rejected by the configuration itself.
pub open spec fn invalid(option: Seq<char>, message: Seq<char>) -> InvalidConfigView {
    InvalidConfigView { option, message, code: AK_ERR_INVALID_CONFIG }
}

/// An option whose buffer was not UTF-8.
pub open spec fn invalid_utf8_of(option: Seq<char>, message: Seq<char>) -> InvalidConfigView {
    InvalidConfigView { option, message, code: AK_ERR_INVALID_UTF8 }
}

/// The text a rejected configuration reports: "`option` is not valid: message".
pub open spec fn invalid_config_text(e: InvalidConfigView) -> Seq<char> {
    seq!['`'] + e.option + "` is not valid: "@ + e.message
}

impl InvalidConfig {
    /// A rejected configuration is reported under one of the two codes kept for it, both below
    /// zero, where no gRPC status code lies.
    #[verifier::type_invariant]
    closed spec fn code_is_internal(&self) -> bool {
        self.code == AK_ERR_INVALID_CONFIG || self.code == AK_ERR_INVALID_UTF8
    }

    pub fn new(option: &str, message: String) -> (e: Self)
        ensures
            e@ == invalid(option@, message@),
    {
        InvalidConfig { option: option.to_owned(), message, code: AK_ERR_INVALID_CONFIG }
    }

    /// Bytes read as a `[u8]` were not valid UTF-8: a distinct code from the generic one, since it
    /// names a problem with the buffer itself rather than with the option it was meant to spell.
    pub fn invalid_utf8(option: &str, message: String) -> (e: Self)
        ensures
            e@ == invalid_utf8_of(option@, message@),
    {
        InvalidConfig { option: option.to_owned(), message, code: AK_ERR_INVALID_UTF8 }
    }

    /// The code the ABI reports: always one of the FFI-internal codes, below zero.
    pub fn code(&self) -> (code: i32)
        ensures
            code == self@.code,
            code == AK_ERR_INVALID_CONFIG || code == AK_ERR_INVALID_UTF8,
            code < 0,
    {
        proof {
            use_type_invariant(self);
        }
        self.code
    }

    /// The report handed to the caller, UTF-8 encoded.
    pub fn into_bytes(self) -> (out: ak_bytes)
        ensures
            out@ == encode_utf8(invalid_config_text(self@)),
    {
        let mut text: Vec<char> = Vec::new();
        text.push('`');
        push_all(&mut text, &chars_of(self.option.as_str()));
        push_all(&mut text, &chars_of("` is not valid: "));
        push_all(&mut text, &chars_of(self.message.as_str()));
        assert(text@ =~= invalid_config_text(self@));
        ak_bytes::from_string(string_of(text.as_slice()))
    }
}

/// The settings a connection is made from, as a configuration converts to them.
pub struct HttpSettings {
    pub endpoint: UriParts,
    pub allow_unsafe_connection: bool,
    /// The client's certificate (DER) and private key.
    pub identity: Option<(Vec<u8>, PrivateKey)>,
    /// The Certificate Authority (DER).
    pub cacert: Option<Vec<u8>>,
    pub override_target: Option<UriParts>,
    pub connect_timeout_ms: Option<u64>,
    pub timeout_ms: Option<u64>,
}

pub struct HttpSettingsView {
    pub endpoint: UriView,
    pub allow_unsafe_connection: bool,
    /// The identity's certificate, and its key's form and DER bytes.
    pub identity: Option<(Seq<u8>, (u8, Seq<u8>))>,
    pub cacert: Option<Seq<u8>>,
    pub override_target: Option<UriView>,
    pub connect_timeout_ms: Option<u64>,
    pub timeout_ms: Option<u64>,
}

impl View for HttpSettings {
    type V = HttpSettingsView;

    open spec fn view(&self) -> HttpSettingsView {
        HttpSettingsView {
            endpoint: self.endpoint@,
            allow_unsafe_connection: self.allow_unsafe_connection,
            identity: match self.identity {
                Some(pair) => Some((pair.0@, (pair.1.kind, pair.1.der@))),
                None => None,
            },
            cacert: match self.cacert {
                Some(der) => Some(der@),
                None => None,
            },
            override_target: match self.override_target {
                Some(uri) => Some(uri@),
                None => None,
            },
            connect_timeout_ms: self.connect_timeout_ms,
            timeout_ms: self.timeout_ms,
        }
    }
}

/// An option's buffer read as text: `None` when empty, the decoded text when it is UTF-8.
pub open spec fn read_str_of(option: Seq<char>, bytes: Seq<u8>) -> Result<
    Option<Seq<char>>,
    InvalidConfigView,
> {
    if bytes.len() == 0 {
        Ok(None)
    } else if valid_utf8(bytes) {
        Ok(Some(decode_utf8(bytes)))
    } else {
        Err(invalid_utf8_of(option, utf8_error_message(bytes)))
    }
}

/// The URI an override target resolves to: the endpoint's own scheme; the target's authority if it
/// is a bare host (keeping the endpoint's path), else the authority and path of the target read as
/// a whole URI; the endpoint's authority when that names none.
pub open spec fn override_target_of(endpoint: UriView, target: Seq<char>) -> Result<
    UriView,
    Seq<char>,
> {
    let pieces: Result<(Option<Seq<char>>, Option<Seq<char>>), Seq<char>> = match authority_parse(
        target,
    ) {
        Some(authority) => Ok((Some(authority), endpoint.path_and_query)),
        None => match uri_parse(target) {
            Ok(uri) => Ok((uri.authority, uri.path_and_query)),
            Err(message) => Err(message),
        },
    };
    match pieces {
        Err(message) => Err(message),
        Ok((authority, path_and_query)) => uri_build(
            endpoint.scheme,
            if authority is Some {
                authority
            } else {
                endpoint.authority
            },
            path_and_query,
        ),
    }
}

pub open spec fn endpoint_of(c: &ak_client_config) -> Result<UriView, InvalidConfigView> {
    match read_str_of("endpoint"@, c.endpoint@) {
        Err(e) => Err(e),
        Ok(None) => Err(invalid("endpoint"@, "required, and was not set"@)),
        Ok(Some(text)) => match uri_parse(text) {
            Ok(uri) => Ok(uri),
            Err(message) => Err(invalid("endpoint"@, message)),
        },
    }
}

/// The client identity: both of certificate and key, or neither.
pub open spec fn identity_of(c: &ak_client_config) -> Result<Option<(Seq<u8>, (u8, Seq<u8>))>, InvalidConfigView> {
    match read_str_of("cert_pem"@, c.cert_pem@) {
        Err(e) => Err(e),
        Ok(cert) => match read_str_of("key_pem"@, c.key_pem@) {
            Err(e) => Err(e),
            Ok(key) => match (cert, key) {
                (None, None) => Ok(None),
                (Some(cert), Some(key)) => match pem_certificate(encode_utf8(cert)) {
                    Err(message) => Err(invalid("cert_pem"@, message)),
                    Ok(der) => match pem_private_key(encode_utf8(key)) {
                        Err(message) => Err(invalid("key_pem"@, message)),
                        Ok(k) => Ok(Some((der, k))),
                    },
                },
                _ => Err(invalid("cert_pem/key_pem"@, "must be either both set or both empty"@)),
            },
        },
    }
}

pub open spec fn cacert_of(c: &ak_client_config) -> Result<Option<Seq<u8>>, InvalidConfigView> {
    match read_str_of("ca_cert_pem"@, c.ca_cert_pem@) {
        Err(e) => Err(e),
        Ok(None) => Ok(None),
        Ok(Some(pem)) => match pem_certificate(encode_utf8(pem)) {
            Ok(der) => Ok(Some(der)),
            Err(message) => Err(invalid("ca_cert_pem"@, message)),
        },
    }
}

pub open spec fn override_of(c: &ak_client_config, endpoint: UriView) -> Result<
    Option<UriView>,
    InvalidConfigView,
> {
    match read_str_of("override_target"@, c.override_target@) {
        Err(e) => Err(e),
        Ok(None) => Ok(None),
        Ok(Some(target)) => match override_target_of(endpoint, target) {
            Ok(uri) => Ok(Some(uri)),
            Err(message) => Err(invalid("override_target"@, message)),
        },
    }
}

/// `-1` is the 60-second default, `0` or more a timeout in milliseconds, anything else an error.
pub open spec fn connect_timeout_of(millis: i64) -> Result<Option<u64>, InvalidConfigView> {
    if millis == -1 {
        Ok(Some(60_000))
    } else if millis >= 0 {
        Ok(Some(millis as u64))
    } else {
        Err(invalid("connect_timeout_ms"@, "only -1 (the default) or a value of 0 or more is valid"@))
    }
}

/// `-1` is no timeout, `0` or more a timeout in milliseconds, anything else an error.
pub open spec fn timeout_of(millis: i64) -> Result<Option<u64>, InvalidConfigView> {
    if millis == -1 {
        Ok(None)
    } else if millis >= 0 {
        Ok(Some(millis as u64))
    } else {
        Err(invalid("timeout_ms"@, "only -1 (no timeout) or a value of 0 or more is valid"@))
    }
}

/// The settings a configuration converts to, or the first option, in declaration order, that it
/// fails on.
pub open spec fn build_of(c: &ak_client_config) -> Result<HttpSettingsView, InvalidConfigView> {
    match endpoint_of(c) {
        Err(e) => Err(e),
        Ok(endpoint) => match identity_of(c) {
            Err(e) => Err(e),
            Ok(identity) => match cacert_of(c) {
                Err(e) => Err(e),
                Ok(cacert) => match override_of(c, endpoint) {
                    Err(e) => Err(e),
                    Ok(override_target) => match connect_timeout_of(c.connect_timeout_ms) {
                        Err(e) => Err(e),
                        Ok(connect_timeout_ms) => match timeout_of(c.timeout_ms) {
                            Err(e) => Err(e),
                            Ok(timeout_ms) => Ok(
                                HttpSettingsView {
                                    endpoint,
                                    allow_unsafe_connection: c.allow_unsafe_connection != 0,
                                    identity,
                                    cacert,
                                    override_target,
                                    connect_timeout_ms,
                                    timeout_ms,
                                },
                            ),
                        },
                    },
                },
            },
        },
    }
}

/// Reads `bytes` as UTF-8, or `None` when it is empty.
pub fn read_str(option: &str, bytes: &ak_bytes) -> (r: Result<Option<String>, InvalidConfig>)
    ensures
        match r {
            Ok(Some(text)) => read_str_of(option@, bytes@) == Ok::<
                Option<Seq<char>>,
                InvalidConfigView,
            >(Some(text@)),
            Ok(None) => read_str_of(option@, bytes@) == Ok::<Option<Seq<char>>, InvalidConfigView>(
                None,
            ),
            Err(e) => read_str_of(option@, bytes@) == Err::<Option<Seq<char>>, InvalidConfigView>(
                e@,
            ),
        },
{
    if bytes.is_empty() {
        return Ok(None);
    }
    match str_from_utf8(bytes.as_slice()) {
        Ok(text) => Ok(Some(text)),
        Err(message) => Err(InvalidConfig::invalid_utf8(option, message)),
    }
}

/// The URI an override target resolves to, keeping the endpoint's scheme.
///
/// A bare host is what the option promises, but parsed alone as a URI it has no scheme and no
/// path, which a channel's origin cannot use.
pub fn build_override_target(endpoint: &UriParts, override_target: &str) -> (r: Result<
    UriParts,
    InvalidConfig,
>)
    ensures
        match r {
            Ok(uri) => override_target_of(endpoint@, override_target@) == Ok::<
                UriView,
                Seq<char>,
            >(uri@),
            Err(e) => override_target_of(endpoint@, override_target@) matches Err(message) && e@
                == invalid("override_target"@, message),
        },
{
    let (authority, path_and_query) = match parse_authority(override_target) {
        Some(authority) => (Some(authority), clone_option(&endpoint.path_and_query)),
        None => match parse_uri(override_target) {
            Ok(uri) => (uri.authority, uri.path_and_query),
            Err(message) => return Err(InvalidConfig::new("override_target", message)),
        },
    };
    let authority = match authority {
        Some(authority) => Some(authority),
        None => clone_option(&endpoint.authority),
    };
    match build_uri(clone_option(&endpoint.scheme), authority, path_and_query) {
        Ok(uri) => Ok(uri),
        Err(message) => Err(InvalidConfig::new("override_target", message)),
    }
}

/// Reads an option's PEM text as a certificate.
fn certificate_option(option: &str, pem: &String) -> (r: Result<Vec<u8>, InvalidConfig>)
    ensures
        match r {
            Ok(der) => pem_certificate(encode_utf8(pem@)) == Ok::<Seq<u8>, Seq<char>>(der@),
            Err(e) => pem_certificate(encode_utf8(pem@)) matches Err(message) && e@ == invalid(
                option@,
                message,
            ),
        },
{
    match certificate_from_pem(pem.as_str().as_bytes()) {
        Ok(der) => Ok(der),
        Err(message) => Err(InvalidConfig::new(option, message)),
    }
}

fn timeout_millis(millis: i64) -> (r: Option<u64>)
    ensures
        r == (if millis >= 0 {
            Some(millis as u64)
        } else {
            None::<u64>
        }),
{
    if millis >= 0 {
        Some(millis as u64)
    } else {
        None
    }
}

/// Builds the settings a connection is made from, out of the buffers a caller supplied.
pub fn build(config: &ak_client_config) -> (r: Result<HttpSettings, InvalidConfig>)
    ensures
        match r {
            Ok(settings) => build_of(config) == Ok::<HttpSettingsView, InvalidConfigView>(
                settings@,
            ),
            Err(e) => build_of(config) == Err::<HttpSettingsView, InvalidConfigView>(e@),
        },
{
    let endpoint = match read_str("endpoint", &config.endpoint)? {
        Some(endpoint) => endpoint,
        None => {
            return Err(InvalidConfig::new("endpoint", "required, and was not set".to_owned()));
        },
    };
    let endpoint = match parse_uri(endpoint.as_str()) {
        Ok(uri) => uri,
        Err(message) => return Err(InvalidConfig::new("endpoint", message)),
    };
    assert(endpoint_of(config) == Ok::<UriView, InvalidConfigView>(endpoint@));

    let allow_unsafe_connection = config.allow_unsafe_connection != 0;

    let cert_pem = read_str("cert_pem", &config.cert_pem)?;
    let key_pem = read_str("key_pem", &config.key_pem)?;
    let identity = match (cert_pem, key_pem) {
        (None, None) => None,
        (Some(cert_pem), Some(key_pem)) => {
            let cert = certificate_option("cert_pem", &cert_pem)?;
            let key = match private_key_from_pem(key_pem.as_str().as_bytes()) {
                Ok((kind, der)) => PrivateKey { kind, der },
                Err(message) => return Err(InvalidConfig::new("key_pem", message)),
            };
            Some((cert, key))
        },
        _ => {
            return Err(
                InvalidConfig::new(
                    "cert_pem/key_pem",
                    "must be either both set or both empty".to_owned(),
                ),
            );
        },
    };

    let cacert = match read_str("ca_cert_pem", &config.ca_cert_pem)? {
        Some(ca_cert_pem) => Some(certificate_option("ca_cert_pem", &ca_cert_pem)?),
        None => None,
    };

    let override_target = match read_str("override_target", &config.override_target)? {
        Some(override_target) => Some(build_override_target(&endpoint, override_target.as_str())?),
        None => None,
    };

    let connect_timeout_ms = if config.connect_timeout_ms == -1 {
        Some(60_000)
    } else {
        match timeout_millis(config.connect_timeout_ms) {
            Some(millis) => Some(millis),
            None => {
                return Err(
                    InvalidConfig::new(
                        "connect_timeout_ms",
                        "only -1 (the default) or a value of 0 or more is valid".to_owned(),
                    ),
                );
            },
        }
    };
    let timeout_ms = if config.timeout_ms == -1 {
        None
    } else {
        match timeout_millis(config.timeout_ms) {
            Some(millis) => Some(millis),
            None => {
                return Err(
                    InvalidConfig::new(
                        "timeout_ms",
                        "only -1 (no timeout) or a value of 0 or more is valid".to_owned(),
                    ),
                );
            },
        }
    };

    Ok(
        HttpSettings {
            endpoint,
            allow_unsafe_connection,
            identity,
            cacert,
            override_target,
            connect_timeout_ms,
            timeout_ms,
        },
    )
}

/// The timeouts a configuration converts to are the caller's: a connection timeout of `n >= 0`
/// milliseconds stays `n`, and only `-1` takes the 60-second default; a request timeout of
/// `n >= 0` stays `n`, and `-1` is none. Any other value is refused.
pub proof fn lemma_build_keeps_the_timeouts(c: &ak_client_config)
    ensures
        c.connect_timeout_ms < -1 ==> build_of(c) is Err,
        c.timeout_ms < -1 ==> build_of(c) is Err,
        build_of(c) is Ok ==> build_of(c)->Ok_0.connect_timeout_ms == (if c.connect_timeout_ms == -1 {
            Some(60_000u64)
        } else {
            Some(c.connect_timeout_ms as u64)
        }),
        build_of(c) is Ok ==> build_of(c)->Ok_0.timeout_ms == (if c.timeout_ms == -1 {
            None::<u64>
        } else {
            Some(c.timeout_ms as u64)
        }),
{
}

/// What a configuration that converts says of the optional settings is kept: an empty endpoint
/// is refused; an identity needs both certificate and key, neither gives none and one alone is
/// refused; an empty CA certificate or override target gives none; and any non-zero byte allows
/// an unsafe connection.
pub proof fn lemma_build_keeps_the_options(c: &ak_client_config)
    ensures
        c.endpoint@.len() == 0 ==> build_of(c) is Err && build_of(c)->Err_0.option == "endpoint"@,
        (c.cert_pem@.len() == 0) != (c.key_pem@.len() == 0) ==> build_of(c) is Err,
        build_of(c) is Ok ==> {
            let s = build_of(c)->Ok_0;
            &&& s.allow_unsafe_connection == (c.allow_unsafe_connection != 0)
            &&& (c.cert_pem@.len() == 0 && c.key_pem@.len() == 0 <==> s.identity is None)
            &&& (c.ca_cert_pem@.len() == 0 <==> s.cacert is None)
            &&& (c.override_target@.len() == 0 <==> s.override_target is None)
        },
{
}

/// Changing only the connection timeout of a configuration that converts, to `-1` or any value
/// of `0` or more, changes only the connection timeout of the settings: to `n` milliseconds, or
/// to the 60-second default for `-1`.
pub proof fn lemma_connect_timeout_is_the_callers(c: &ak_client_config, n: i64)
    requires
        build_of(c) is Ok,
        n >= -1,
    ensures
        ({
            let c2 = ak_client_config { connect_timeout_ms: n, ..*c };
            let s = build_of(c)->Ok_0;
            build_of(&c2) == Ok::<HttpSettingsView, InvalidConfigView>(
                HttpSettingsView {
                    connect_timeout_ms: if n == -1 {
                        Some(60_000u64)
                    } else {
                        Some(n as u64)
                    },
                    ..s
                },
            )
        }),
{
}

} // verus!
