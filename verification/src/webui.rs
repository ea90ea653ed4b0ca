//! The decisions of the local WebUI: which handler a request reaches, the
//! configuration a login form describes, and when that configuration is refused.

use vstd::prelude::*;
use crate::config::{
    default_adapter_num, default_auth_version, default_bind_ip, default_control_check_status,
    default_dhcp_server, default_host_name, default_ip_dog, default_keep_alive_version,
    default_primary_dns, ip_field, mac_value, parse_ipv4, Config,
};
use crate::text::{chars_of, split_chars, split_on, str_eq, string_from_chars, trim, trim_chars};

verus! {

/// The handler a request reaches.
#[derive(Debug, Clone, Copy, PartialEq, Eq, Structural)]
pub enum Route {
    Index,
    Adapters,
    Defaults,
    SavedConfig,
    Status,
    Login,
    Logout,
    NotFound,
}

/// The path of a URL: what precedes the first `?`.
pub open spec fn url_path(url: Seq<char>) -> Seq<char> {
    split_on(url, '?')[0]
}

/// The route of a request, by method and path.
pub open spec fn route_spec(method: Seq<char>, path: Seq<char>) -> Route {
    if method == "GET"@ {
        if path == "/"@ {
            Route::Index
        } else if path == "/api/adapters"@ {
            Route::Adapters
        } else if path == "/api/defaults"@ {
            Route::Defaults
        } else if path == "/api/config"@ {
            Route::SavedConfig
        } else if path == "/api/status"@ {
            Route::Status
        } else {
            Route::NotFound
        }
    } else if method == "POST"@ {
        if path == "/api/login"@ {
            Route::Login
        } else if path == "/api/logout"@ {
            Route::Logout
        } else {
            Route::NotFound
        }
    } else {
        Route::NotFound
    }
}

/// The handler that a request with this method and URL reaches; the query
/// string is ignored.
pub fn route(method: &str, url: &str) -> (r: Route)
    ensures
        r == route_spec(method@, url_path(url@)),
{
    let cs = chars_of(url);
    let parts = split_chars(&cs, '?');
    let path = string_from_chars(&parts[0]);
    let p = path.as_str();
    assert(p@ == url_path(url@));
    if str_eq(method, "GET") {
        if str_eq(p, "/") {
            Route::Index
        } else if str_eq(p, "/api/adapters") {
            Route::Adapters
        } else if str_eq(p, "/api/defaults") {
            Route::Defaults
        } else if str_eq(p, "/api/config") {
            Route::SavedConfig
        } else if str_eq(p, "/api/status") {
            Route::Status
        } else {
            Route::NotFound
        }
    } else if str_eq(method, "POST") {
        if str_eq(p, "/api/login") {
            Route::Login
        } else if str_eq(p, "/api/logout") {
            Route::Logout
        } else {
            Route::NotFound
        }
    } else {
        Route::NotFound
    }
}

/// The fields of the login form.
#[derive(Debug)]
pub struct LoginForm {
    pub server: String,
    pub username: String,
    pub password: String,
    pub host_ip: String,
    pub mac: String,
    pub host_name: Option<String>,
    pub primary_dns: Option<String>,
    pub dhcp_server: Option<String>,
    pub bind_ip: Option<String>,
    pub control_check_status: Option<String>,
    pub adapter_num: Option<String>,
    pub ip_dog: Option<String>,
    pub auth_version: Option<String>,
    pub keep_alive_version: Option<String>,
    pub is_test: Option<bool>,
    pub unlimited_retry: Option<bool>,
    pub verbose: Option<bool>,
}

/// An optional form field: trimmed when given, the default otherwise.
pub open spec fn field_or(v: Option<String>, default: Seq<char>) -> Seq<char> {
    match v {
        Some(s) => trim(s@),
        None => default,
    }
}

/// The configuration a login form describes: the text fields trimmed (the
/// password kept as typed), the missing optional fields at their defaults.
pub open spec fn form_config(f: LoginForm, c: Config) -> bool {
    &&& c.server@ == trim(f.server@)
    &&& c.username@ == trim(f.username@)
    &&& c.password == f.password
    &&& c.host_ip@ == trim(f.host_ip@)
    &&& c.mac@ == trim(f.mac@)
    &&& c.host_name@ == field_or(f.host_name, "YOURPCNAME"@)
    &&& c.primary_dns@ == field_or(f.primary_dns, "10.10.10.10"@)
    &&& c.dhcp_server@ == field_or(f.dhcp_server, "0.0.0.0"@)
    &&& c.bind_ip@ == field_or(f.bind_ip, "0.0.0.0"@)
    &&& c.control_check_status@ == field_or(f.control_check_status, "20"@)
    &&& c.adapter_num@ == field_or(f.adapter_num, "03"@)
    &&& c.ip_dog@ == field_or(f.ip_dog, "01"@)
    &&& c.auth_version@ == field_or(f.auth_version, "68 00"@)
    &&& c.keep_alive_version@ == field_or(f.keep_alive_version, "dc 02"@)
    &&& c.is_test == (match f.is_test { Some(b) => b, None => true })
    &&& c.unlimited_retry == (match f.unlimited_retry { Some(b) => b, None => true })
}

fn trimmed(s: &String) -> (r: String)
    ensures
        r@ == trim(s@),
{
    let cs = chars_of(s.as_str());
    let t = trim_chars(&cs);
    string_from_chars(&t)
}

fn trimmed_or(v: &Option<String>, default: String) -> (r: String)
    ensures
        r@ == field_or(*v, default@),
{
    match v {
        Some(s) => trimmed(s),
        None => default,
    }
}

/// Builds the configuration that a login form describes (see [`form_config`]).
pub fn config_from_form(form: LoginForm) -> (c: Config)
    ensures
        form_config(form, c),
{
    let server = trimmed(&form.server);
    let username = trimmed(&form.username);
    let host_ip = trimmed(&form.host_ip);
    let mac = trimmed(&form.mac);
    let host_name = trimmed_or(&form.host_name, default_host_name());
    let primary_dns = trimmed_or(&form.primary_dns, default_primary_dns());
    let dhcp_server = trimmed_or(&form.dhcp_server, default_dhcp_server());
    let bind_ip = trimmed_or(&form.bind_ip, default_bind_ip());
    let control_check_status = trimmed_or(&form.control_check_status, default_control_check_status());
    let adapter_num = trimmed_or(&form.adapter_num, default_adapter_num());
    let ip_dog = trimmed_or(&form.ip_dog, default_ip_dog());
    let auth_version = trimmed_or(&form.auth_version, default_auth_version());
    let keep_alive_version = trimmed_or(&form.keep_alive_version, default_keep_alive_version());
    let is_test = match form.is_test {
        Some(b) => b,
        None => true,
    };
    let unlimited_retry = match form.unlimited_retry {
        Some(b) => b,
        None => true,
    };
    Config {
        server,
        username,
        password: form.password,
        host_ip,
        mac,
        host_name,
        primary_dns,
        dhcp_server,
        bind_ip,
        control_check_status,
        adapter_num,
        ip_dog,
        auth_version,
        keep_alive_version,
        is_test,
        unlimited_retry,
    }
}

/// Why a login form is refused.
#[derive(Debug, Clone, Copy, PartialEq, Eq, Structural)]
pub enum FormError {
    EmptyServer,
    EmptyUsername,
    EmptyPassword,
    EmptyHostIp,
    EmptyMac,
    InvalidServer,
    InvalidHostIp,
    InvalidBindIp,
    InvalidMac,
}

/// The first check that a configuration fails, in the order: required fields
/// present, then server, host and bind addresses valid IPv4, then the MAC valid.
pub open spec fn validate_spec(c: Config) -> Option<FormError> {
    if c.server@.len() == 0 {
        Some(FormError::EmptyServer)
    } else if c.username@.len() == 0 {
        Some(FormError::EmptyUsername)
    } else if c.password@.len() == 0 {
        Some(FormError::EmptyPassword)
    } else if c.host_ip@.len() == 0 {
        Some(FormError::EmptyHostIp)
    } else if c.mac@.len() == 0 {
        Some(FormError::EmptyMac)
    } else if ip_field(c.server@) is Err {
        Some(FormError::InvalidServer)
    } else if ip_field(c.host_ip@) is Err {
        Some(FormError::InvalidHostIp)
    } else if ip_field(c.bind_ip@) is Err {
        Some(FormError::InvalidBindIp)
    } else if mac_value(c.mac@) is None {
        Some(FormError::InvalidMac)
    } else {
        None
    }
}

/// Checks a configuration built from the login form (see [`validate_spec`]).
pub fn validate(config: &Config) -> (r: Option<FormError>)
    ensures
        r == validate_spec(*config),
{
    if config.server.as_str().is_empty() {
        return Some(FormError::EmptyServer);
    }
    if config.username.as_str().is_empty() {
        return Some(FormError::EmptyUsername);
    }
    if config.password.as_str().is_empty() {
        return Some(FormError::EmptyPassword);
    }
    if config.host_ip.as_str().is_empty() {
        return Some(FormError::EmptyHostIp);
    }
    if config.mac.as_str().is_empty() {
        return Some(FormError::EmptyMac);
    }
    if parse_ipv4(config.server.as_str()).is_err() {
        return Some(FormError::InvalidServer);
    }
    if parse_ipv4(config.host_ip.as_str()).is_err() {
        return Some(FormError::InvalidHostIp);
    }
    if parse_ipv4(config.bind_ip.as_str()).is_err() {
        return Some(FormError::InvalidBindIp);
    }
    if config.parse_mac().is_err() {
        return Some(FormError::InvalidMac);
    }
    None
}

/// Why a login request is refused.
#[derive(Debug, Clone, Copy, PartialEq, Eq, Structural)]
pub enum LoginRefusal {
    /// The form does not describe a usable configuration.
    Invalid(FormError),
    /// A session is already running; it must be stopped first.
    Busy,
}

/// Whether a login may start a session: the form is checked first (see
/// [`validate_spec`]), then a running session refuses it.
pub open spec fn admission_spec(c: Config, session_running: bool) -> Result<(), LoginRefusal> {
    match validate_spec(c) {
        Some(e) => Err(LoginRefusal::Invalid(e)),
        None => if session_running {
            Err(LoginRefusal::Busy)
        } else {
            Ok(())
        },
    }
}

/// Decides whether a login with `config` may start a session while another
/// one is (or is not) running (see [`admission_spec`]).
pub fn admit_login(config: &Config, session_running: bool) -> (r: Result<(), LoginRefusal>)
    ensures
        r == admission_spec(*config, session_running),
{
    match validate(config) {
        Some(e) => Err(LoginRefusal::Invalid(e)),
        None => if session_running {
            Err(LoginRefusal::Busy)
        } else {
            Ok(())
        },
    }
}

} // verus!
