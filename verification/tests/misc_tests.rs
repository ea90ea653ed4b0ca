use drcom::cabi::{c_string_slot, config_field, without_nul};
use drcom::cli::{is_key, parse_web_args, prompt_step, sample_config, Prompt, PromptAction, WebArgs};
use drcom::config::Config;
use drcom::netif::{adapters_from, is_usable_mac, select_usable, AdapterInfo, AddressRecord, InterfaceRecord};
use drcom::protocol::{challenge_packet, challenge_salt, login_tail, reply_tail};
use drcom::text::to_hex;
use drcom::webui::{admit_login, config_from_form, route, validate, FormError, LoginForm, LoginRefusal, Route};

#[test]
fn usable_macs() {
    assert!(is_usable_mac("aa:bb:cc:dd:ee:ff"));
    assert!(is_usable_mac("AA-BB-CC-DD-EE-01"));
    assert!(!is_usable_mac("00:00:00:00:00:00"));
    assert!(!is_usable_mac("00:00:00:00:00:00:00:e0"));
    assert!(!is_usable_mac("aa:bb:cc:dd:ee"));
    assert!(!is_usable_mac("aa:bb:cc:dd:ee:f"));
    assert!(!is_usable_mac("aa:bb:cc:dd:ee:gg"));
    assert!(!is_usable_mac("+0:00:00:00:00:00"));
    assert!(!is_usable_mac("aa:bb:cc:dd:ee:+f"));
    assert!(!is_usable_mac("01:00:5E:00:00:01"));
    assert!(!is_usable_mac("ff:ff:ff:ff:ff:ff"));
    assert!(is_usable_mac("02:00:5e:00:00:01"));
}

fn adapter(name: &str, mac: Option<&str>, internal: bool) -> AdapterInfo {
    AdapterInfo { name: name.to_string(), mac: mac.map(|m| m.to_string()), ipv4: vec![], internal }
}

#[test]
fn adapter_selection() {
    let all = vec![
        adapter("lo", Some("00:00:00:00:00:00"), true),
        adapter("eth0", Some("aa:bb:cc:dd:ee:ff"), false),
        adapter("teredo", Some("00:00:00:00:00:00:00:e0"), false),
        adapter("tun0", None, false),
        adapter("eth1", Some("aa:bb:cc:dd:ee:01"), false),
    ];
    let picked: Vec<String> = select_usable(all).into_iter().map(|a| a.name).collect();
    assert_eq!(picked, vec!["eth0".to_string(), "eth1".to_string()]);
}

#[test]
fn adapters_keep_only_ipv4() {
    let recs = vec![InterfaceRecord {
        name: "eth0".to_string(),
        mac: Some("aa:bb:cc:dd:ee:ff".to_string()),
        addrs: vec![AddressRecord::V6, AddressRecord::V4("10.0.0.2".to_string()), AddressRecord::V4("10.0.0.3".to_string())],
        internal: false,
    }];
    let out = adapters_from(recs);
    assert_eq!(out.len(), 1);
    assert_eq!(out[0].ipv4, vec!["10.0.0.2".to_string(), "10.0.0.3".to_string()]);
    assert_eq!(out[0].name, "eth0");
}

#[test]
fn routes() {
    assert_eq!(route("GET", "/"), Route::Index);
    assert_eq!(route("GET", "/api/status?x=1"), Route::Status);
    assert_eq!(route("GET", "/api/adapters"), Route::Adapters);
    assert_eq!(route("GET", "/api/defaults"), Route::Defaults);
    assert_eq!(route("GET", "/api/config"), Route::SavedConfig);
    assert_eq!(route("POST", "/api/login"), Route::Login);
    assert_eq!(route("POST", "/api/logout"), Route::Logout);
    assert_eq!(route("POST", "/api/status"), Route::NotFound);
    assert_eq!(route("PUT", "/"), Route::NotFound);
}

fn form() -> LoginForm {
    LoginForm {
        server: " 10.100.61.3 ".to_string(),
        username: "user\n".to_string(),
        password: " secret ".to_string(),
        host_ip: "192.168.1.2".to_string(),
        mac: "AA:BB:CC:DD:EE:FF".to_string(),
        host_name: Some("  PC ".to_string()),
        primary_dns: None,
        dhcp_server: None,
        bind_ip: None,
        control_check_status: None,
        adapter_num: None,
        ip_dog: None,
        auth_version: None,
        keep_alive_version: Some(" dc 02 ".to_string()),
        is_test: Some(false),
        unlimited_retry: None,
        verbose: Some(true),
    }
}

#[test]
fn form_to_config() {
    let c = config_from_form(form());
    assert_eq!(c.server, "10.100.61.3");
    assert_eq!(c.username, "user");
    assert_eq!(c.password, " secret ");
    assert_eq!(c.host_name, "PC");
    assert_eq!(c.primary_dns, "10.10.10.10");
    assert_eq!(c.keep_alive_version, "dc 02");
    assert!(!c.is_test);
    assert!(c.unlimited_retry);
    assert_eq!(validate(&c), None);
}

#[test]
fn form_validation() {
    let mut c = config_from_form(form());
    c.server = String::new();
    assert_eq!(validate(&c), Some(FormError::EmptyServer));
    let mut c = config_from_form(form());
    c.password = String::new();
    assert_eq!(validate(&c), Some(FormError::EmptyPassword));
    let mut c = config_from_form(form());
    c.server = "10.100.61".to_string();
    assert_eq!(validate(&c), Some(FormError::InvalidServer));
    c.server = "example.com".to_string();
    assert_eq!(validate(&c), Some(FormError::InvalidServer));
    let mut c = config_from_form(form());
    c.bind_ip = "300.0.0.0".to_string();
    assert_eq!(validate(&c), Some(FormError::InvalidBindIp));
    let mut c = config_from_form(form());
    c.mac = "zz".to_string();
    assert_eq!(validate(&c), Some(FormError::InvalidMac));
}

#[test]
fn c_interface_helpers() {
    let c = Config { server: "10.100.61.3".to_string(), ..Config::default() };
    assert_eq!(config_field(&c, "server"), Some("10.100.61.3".to_string()));
    assert_eq!(config_field(&c, "bind_ip"), Some("0.0.0.0".to_string()));
    assert_eq!(config_field(&c, "is_test"), None);
    assert_eq!(c_string_slot("abc", 8), vec![b'a', b'b', b'c', 0, 0, 0, 0, 0]);
    assert_eq!(c_string_slot("abcdef", 4), vec![b'a', b'b', b'c', 0]);
    assert_eq!(c_string_slot("abc", 1), vec![0]);
    assert_eq!(c_string_slot("é", 2), vec![0, 0]);
    assert_eq!(c_string_slot("aé", 3), vec![b'a', 0, 0]);
    assert_eq!(c_string_slot("aé", 4), vec![b'a', 0xc3, 0xa9, 0]);
    assert_eq!(without_nul("a\0b"), "a b");
}

#[test]
fn command_line() {
    assert!(is_key(" q\n", 'q'));
    assert!(is_key("Q", 'q'));
    assert!(!is_key("qq", 'q'));
    assert!(!is_key("", 'y'));
    let args = |v: &[&str]| v.iter().map(|s| s.to_string()).collect::<Vec<String>>();
    assert_eq!(parse_web_args(&args(&[])), WebArgs { port: 0, open_browser: true, show_help: false });
    assert_eq!(parse_web_args(&args(&["--port", "8080", "--no-open"])), WebArgs { port: 8080, open_browser: false, show_help: false });
    assert_eq!(parse_web_args(&args(&["--port", "x"])), WebArgs { port: 0, open_browser: true, show_help: false });
    assert_eq!(parse_web_args(&args(&["--port", "70000"])).port, 0);
    assert_eq!(parse_web_args(&args(&["--port"])).port, 0);
    assert!(parse_web_args(&args(&["-h", "--no-open"])).show_help);
    assert!(parse_web_args(&args(&["-h", "--no-open"])).open_browser);
    assert!(sample_config().starts_with("server = \"10.100.61.3\"\n"));
}

#[test]
fn packet_pieces() {
    assert_eq!(to_hex(&challenge_packet(0x1_0000_1234)), "0102341209000000000000000000000000000000");
    assert_eq!(challenge_salt(&[2, 0, 0, 0, 1, 2, 3, 4, 5]), [1, 2, 3, 4]);
    assert_eq!(login_tail(&[4u8; 10]), [0u8; 16]);
    let mut r = vec![0u8; 20];
    r[16..20].copy_from_slice(&[1, 2, 3, 4]);
    assert_eq!(reply_tail(&r, [9; 4]), [1, 2, 3, 4]);
    assert_eq!(reply_tail(&r[..19], [9; 4]), [9; 4]);
    assert_eq!(to_hex(&[0x0a, 0xff]), "0aff");
}

#[test]
fn form_validation_remaining_fields() {
    let mut c = config_from_form(form());
    c.username = String::new();
    assert_eq!(validate(&c), Some(FormError::EmptyUsername));
    let mut c = config_from_form(form());
    c.host_ip = String::new();
    assert_eq!(validate(&c), Some(FormError::EmptyHostIp));
    let mut c = config_from_form(form());
    c.mac = String::new();
    assert_eq!(validate(&c), Some(FormError::EmptyMac));
    let mut c = config_from_form(form());
    c.host_ip = "192.168.1.x".to_string();
    assert_eq!(validate(&c), Some(FormError::InvalidHostIp));
    // the first failing check wins
    let mut c = config_from_form(form());
    c.username = String::new();
    c.server = "bad".to_string();
    assert_eq!(validate(&c), Some(FormError::EmptyUsername));
}

#[test]
fn logout_prompt() {
    assert_eq!(prompt_step(Prompt::Command, Some("q\n"), false), (Prompt::Confirm, PromptAction::AskConfirm));
    assert_eq!(prompt_step(Prompt::Command, Some(" Q "), false), (Prompt::Confirm, PromptAction::AskConfirm));
    assert_eq!(prompt_step(Prompt::Command, Some("x\n"), false), (Prompt::Command, PromptAction::ReadLine));
    assert_eq!(prompt_step(Prompt::Command, None, false), (Prompt::Command, PromptAction::Stop));
    assert_eq!(prompt_step(Prompt::Command, None, true), (Prompt::Command, PromptAction::ReadLine));
    assert_eq!(prompt_step(Prompt::Confirm, Some("y\n"), false), (Prompt::Confirm, PromptAction::RequestStop));
    assert_eq!(prompt_step(Prompt::Confirm, Some("Y"), false), (Prompt::Confirm, PromptAction::RequestStop));
    assert_eq!(prompt_step(Prompt::Confirm, Some("n\n"), false), (Prompt::Command, PromptAction::Resume));
    assert_eq!(prompt_step(Prompt::Confirm, None, false), (Prompt::Command, PromptAction::Resume));
    assert_eq!(prompt_step(Prompt::Confirm, None, true), (Prompt::Confirm, PromptAction::Stop));
}

#[test]
fn login_admission() {
    let c = config_from_form(form());
    assert_eq!(admit_login(&c, false), Ok(()));
    assert_eq!(admit_login(&c, true), Err(LoginRefusal::Busy));
    let mut bad = config_from_form(form());
    bad.mac = String::new();
    assert_eq!(admit_login(&bad, true), Err(LoginRefusal::Invalid(FormError::EmptyMac)));
}
