use pool::config::{listen_addr, parse_key32, Config, ConfigError, KeyError, Variables};
use pool::keys::{generate_keypair, keypair_lines, xonly_public_key};

fn text(value: &str) -> Option<String> {
    Some(value.to_string())
}

fn full() -> Variables {
    Variables {
        rpc_url: None,
        rpc_user: text("user"),
        rpc_pass: text("pass"),
        sv2_listen_addr: None,
        pool_address: text("bc1q"),
        pool_authority_public_key: Some("0a".repeat(32)),
        pool_authority_private_key: Some("0B".repeat(32)),
    }
}

#[test]
fn defaults_fill_what_may_be_left_out() {
    let config = Config::from_variables(full(), true).unwrap();
    assert_eq!(config.rpc_url, "http://127.0.0.1:18443");
    assert_eq!(config.rpc_user, "user");
    assert_eq!(config.rpc_pass, "pass");
    assert_eq!(config.sv2_listen_addr, "0.0.0.0:3333");
    assert_eq!(config.pool_address, "bc1q");
    assert_eq!(config.pool_authority_public_key, [0x0a; 32]);
    assert_eq!(config.pool_authority_private_key, [0x0b; 32]);
    let mut vars = full();
    vars.rpc_url = text("http://node");
    vars.sv2_listen_addr = text("1.2.3.4:5");
    assert_eq!(listen_addr(&vars.sv2_listen_addr), "1.2.3.4:5");
    let config = Config::from_variables(vars, true).unwrap();
    assert_eq!(config.rpc_url, "http://node");
    assert_eq!(config.sv2_listen_addr, "1.2.3.4:5");
}

#[test]
fn the_first_error_counts() {
    let mut vars = full();
    vars.pool_authority_private_key = text("00");
    let error = |vars: &Variables, ok: bool| Config::from_variables(vars.clone(), ok).err();
    assert_eq!(
        error(&vars, true),
        Some(ConfigError::PrivateKey { error: KeyError::WrongLength })
    );
    vars.pool_authority_public_key = text("x");
    assert_eq!(error(&vars, true), Some(ConfigError::PublicKey { error: KeyError::NotHex }));
    vars.pool_authority_public_key = None;
    assert_eq!(error(&vars, true), Some(ConfigError::PublicKey { error: KeyError::NotSet }));
    vars.pool_address = None;
    assert_eq!(error(&vars, true), Some(ConfigError::PoolAddressNotSet));
    assert_eq!(error(&vars, false), Some(ConfigError::BadListenAddr));
    vars.rpc_pass = None;
    assert_eq!(error(&vars, false), Some(ConfigError::RpcPassNotSet));
    vars.rpc_user = None;
    assert_eq!(error(&vars, false), Some(ConfigError::RpcUserNotSet));
}

#[test]
fn generated_keys_are_read_back() {
    let (public, private) = generate_keypair();
    let (first, second) = keypair_lines(&public, &private);
    let public_hex = first.strip_prefix("POOL_AUTHORITY_PUBLIC_KEY=").unwrap();
    let private_hex = second.strip_prefix("POOL_AUTHORITY_PRIVATE_KEY=").unwrap();
    assert_eq!(parse_key32(&text(public_hex)), Ok(public));
    assert_eq!(parse_key32(&text(private_hex)), Ok(private));
    assert_eq!(xonly_public_key(&private), Some(public));
    assert_eq!(xonly_public_key(&[0; 32]), None);
    assert_eq!(xonly_public_key(&[1; 31]), None);
    assert_ne!(generate_keypair().1, private);
}
