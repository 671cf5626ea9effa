use meteo_core::config::{
    build_config, check_network, constants_source, hex_to_u8_16, ipv4_literal, networks_literal, parse_config,
    parse_ipv4, parse_key, secret_literal, ConfigError, Field, Fields, Key,
};

const DOC: &str = r#"
[firmware]
wifi_ssid = "home"
wifi_passwd = "pw1"
server_ip = "188.245.58.248"
server_port = 1234
secret_key = "73757065727365637265746b65792131"
"#;

fn error(doc: &str) -> ConfigError {
    match parse_config(doc) {
        Ok(_) => panic!("accepted"),
        Err(e) => e,
    }
}

fn with(extra: &str) -> String {
    format!("{DOC}{extra}\n")
}

fn without(key: &str) -> String {
    DOC.lines().filter(|l| !l.starts_with(key)).map(|l| format!("{l}\n")).collect()
}

fn replaced(key: &str, line: &str) -> String {
    format!("{}{line}\n", without(key))
}

#[test]
fn a_configuration_is_read() {
    let config = parse_config(DOC).ok().unwrap();
    assert_eq!(config.wifi_networks, vec![("home".to_string(), "pw1".to_string())]);
    assert_eq!(config.server_ip, [188, 245, 58, 248]);
    assert_eq!(config.server_port, 1234);
    assert_eq!(&config.secret_key, b"supersecretkey!1");
}

#[test]
fn the_second_network_is_optional_but_whole() {
    let config = parse_config(&with("wifi2_ssid = \"dacha\"\nwifi2_passwd = \"pw2\"")).ok().unwrap();
    assert_eq!(config.wifi_networks[1], ("dacha".to_string(), "pw2".to_string()));
    assert_eq!(error(&with("wifi2_ssid = \"dacha\"")), ConfigError::HalfNetwork);
    assert_eq!(error(&with("wifi2_passwd = \"pw2\"")), ConfigError::HalfNetwork);
    assert_eq!(
        error(&with("wifi2_ssid = 1\nwifi2_passwd = \"pw2\"")),
        ConfigError::BadField(Key::Wifi2Ssid)
    );
    assert_eq!(
        error(&with("wifi2_ssid = \"a\"\nwifi2_passwd = 2")),
        ConfigError::BadField(Key::Wifi2Passwd)
    );
}

#[test]
fn each_fault_has_its_error() {
    assert_eq!(error("[firmware"), ConfigError::InvalidToml);
    assert_eq!(error(""), ConfigError::BadField(Key::WifiSsid));
    assert_eq!(error(&without("wifi_ssid")), ConfigError::BadField(Key::WifiSsid));
    assert_eq!(error(&without("wifi_passwd")), ConfigError::BadField(Key::WifiPasswd));
    assert_eq!(error(&without("server_ip")), ConfigError::BadField(Key::ServerIp));
    assert_eq!(error(&without("server_port")), ConfigError::BadField(Key::ServerPort));
    assert_eq!(
        error(&replaced("server_port", "server_port = \"1234\"")),
        ConfigError::BadField(Key::ServerPort)
    );
    assert_eq!(error(&without("secret_key")), ConfigError::BadField(Key::SecretKey));
    assert_eq!(
        error(&replaced("server_ip", "server_ip = \"1.2.3\"")),
        ConfigError::BadAddress
    );
    assert_eq!(
        error(&replaced("secret_key", "secret_key = \"73\"")),
        ConfigError::BadKey
    );
    let long = "x".repeat(33);
    assert_eq!(
        error(&replaced("wifi_ssid", &format!("wifi_ssid = \"{long}\""))),
        ConfigError::SsidTooLong(0)
    );
    let long = "x".repeat(65);
    assert_eq!(
        error(&with(&format!("wifi2_ssid = \"a\"\nwifi2_passwd = \"{long}\""))),
        ConfigError::PasswdTooLong(1)
    );
}

#[test]
fn values_alone_make_a_configuration() {
    let text = |s: &str| Field::Text(s.to_string());
    let fields = || Fields {
        wifi_ssid: text("home"),
        wifi_passwd: text("pw1"),
        wifi2_ssid: Field::Missing,
        wifi2_passwd: Field::Missing,
        server_ip: text("10.0.0.1"),
        server_port: Field::Integer(65536 + 80),
        secret_key: text("000102030405060708090a0B0c0D0e0F"),
    };
    let config = build_config(fields()).ok().unwrap();
    // A port is cut to its low 16 bits.
    assert_eq!(config.server_port, 80);
    assert_eq!(config.secret_key, [0, 1, 2, 3, 4, 5, 6, 7, 8, 9, 10, 11, 12, 13, 14, 15]);
    let negative = Fields { server_port: Field::Integer(-1), ..fields() };
    assert_eq!(build_config(negative).ok().unwrap().server_port, 65535);
    let other = Fields { server_ip: Field::Other, ..fields() };
    assert_eq!(build_config(other).err(), Some(ConfigError::BadField(Key::ServerIp)));
}

#[test]
fn network_lengths_are_in_bytes() {
    assert_eq!(check_network(&"x".repeat(32), &"y".repeat(64), 0), Ok(()));
    assert_eq!(check_network(&"x".repeat(33), "", 0), Err(ConfigError::SsidTooLong(0)));
    assert_eq!(check_network("", &"y".repeat(65), 3), Err(ConfigError::PasswdTooLong(3)));
    // Seventeen letters of two bytes each.
    assert_eq!(check_network(&"é".repeat(17), "", 1), Err(ConfigError::SsidTooLong(1)));
}

#[test]
fn addresses_are_read() {
    for (s, ip) in [
        ("0.0.0.0", [0, 0, 0, 0]),
        ("255.255.255.255", [255, 255, 255, 255]),
        ("1.2.3.4", [1, 2, 3, 4]),
        ("99.100.9.10", [99, 100, 9, 10]),
    ] {
        assert_eq!(parse_ipv4(s.as_bytes()), Some(ip), "{s:?}");
    }
    for s in [
        "256.1.1.1", "01.2.3.4", "1.2.3", "1.2.3.4.5", "1.2.3.", ".1.2.3", "1..2.3", "", "a.b.c.d", "1.2.3.4 ",
        " 1.2.3.4", "1.2.3.1000", "00.0.0.0", "1.2.3.-4", "1,2,3,4",
    ] {
        assert_eq!(parse_ipv4(s.as_bytes()), None, "{s:?}");
    }
}

#[test]
fn keys_are_read() {
    assert_eq!(&hex_to_u8_16("73757065727365637265746b65792131"), b"supersecretkey!1");
    assert_eq!(parse_key("7375706572736563726574"), None);
    assert_eq!(parse_key("zz757065727365637265746b65792131"), None);
    // A plus sign stands for a leading zero.
    assert_eq!(parse_key("+a757065727365637265746b65792131").map(|k| k[0]), Some(10));
    assert_eq!(parse_key("++757065727365637265746b65792131"), None);
}

#[test]
fn literals() {
    assert_eq!(
        secret_literal(b"supersecretkey!1"),
        "115, 117, 112, 101, 114, 115, 101, 99, 114, 101, 116, 107, 101, 121, 33, 49"
    );
    assert_eq!(secret_literal(&[0; 16]), "0, 0, 0, 0, 0, 0, 0, 0, 0, 0, 0, 0, 0, 0, 0, 0");
    assert_eq!(ipv4_literal([188, 245, 58, 248]), "core::net::Ipv4Addr::new(188, 245, 58, 248)");
    let networks = vec![
        ("home".to_string(), "pw1".to_string()),
        ("dacha".to_string(), "pw2".to_string()),
    ];
    assert_eq!(networks_literal(&networks), r#"("home", "pw1"), ("dacha", "pw2")"#);
}

#[test]
fn constants_are_compiled_in() {
    let source = constants_source(&parse_config(DOC).ok().unwrap());
    let secret = secret_literal(b"supersecretkey!1");
    let lines: Vec<&str> = source.lines().collect();
    assert_eq!(lines[0], "");
    assert_eq!(lines[1], r#"pub static WIFI_NETWORKS: &[(&str, &str)] = &[("home", "pw1")];"#);
    assert_eq!(
        lines[2],
        "pub const SERVER_IP: core::net::Ipv4Addr = core::net::Ipv4Addr::new(188, 245, 58, 248);"
    );
    assert_eq!(lines[3], "pub const SERVER_PORT: u16 = 1234;");
    assert_eq!(lines[4], format!("pub static SECRET_KEY: [u8; 16] = [{secret}];"));
}
