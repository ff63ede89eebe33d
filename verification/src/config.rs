//! Configuration from the environment.
use crate::hexadecimal;
use crate::jobs;
use vstd::prelude::*;

verus! {

/// What the pool is run with.
#[derive(Debug, Clone)]
pub struct Config {
    pub rpc_url: String,
    pub rpc_user: String,
    pub rpc_pass: String,
    /// Address where the SV2 Mining Protocol server listens (default 0.0.0.0:3333).
    pub sv2_listen_addr: String,
    pub pool_address: String,
    /// Pool authority X-only public key for the Noise NX handshake.
    pub pool_authority_public_key: [u8; 32],
    /// Pool authority private key for the Noise NX handshake.
    pub pool_authority_private_key: [u8; 32],
}

/// The variables that the configuration is read from, each where it is set.
#[derive(Debug, Clone)]
pub struct Variables {
    pub rpc_url: Option<String>,
    pub rpc_user: Option<String>,
    pub rpc_pass: Option<String>,
    pub sv2_listen_addr: Option<String>,
    pub pool_address: Option<String>,
    pub pool_authority_public_key: Option<String>,
    pub pool_authority_private_key: Option<String>,
}

/// Why a variable gives no key.
#[derive(Debug, Clone, Copy, PartialEq, Eq, Structural)]
pub enum KeyError {
    NotSet,
    NotHex,
    /// Not exactly 32 bytes (64 hex chars).
    WrongLength,
}

/// Why there is no configuration.
#[derive(Debug, Clone, Copy, PartialEq, Eq, Structural)]
pub enum ConfigError {
    RpcUserNotSet,
    RpcPassNotSet,
    /// The listen address is no socket address.
    BadListenAddr,
    PoolAddressNotSet,
    PublicKey { error: KeyError },
    PrivateKey { error: KeyError },
}

pub open spec fn text_or(value: Option<String>, default: Seq<char>) -> Seq<char> {
    match value {
        Some(text) => text@,
        None => default,
    }
}

/// The error that a key variable meets, or none.
pub open spec fn key_error(value: Option<String>) -> Option<KeyError> {
    match value {
        None => Some(KeyError::NotSet),
        Some(text) => match hexadecimal::decoded(text@) {
            None => Some(KeyError::NotHex),
            Some(data) => if data.len() != 32 {
                Some(KeyError::WrongLength)
            } else {
                None
            },
        },
    }
}

/// The error that the variables meet, or none; the first in order counts.
pub open spec fn config_error(vars: Variables, listen_addr_ok: bool) -> Option<ConfigError> {
    if vars.rpc_user is None {
        Some(ConfigError::RpcUserNotSet)
    } else if vars.rpc_pass is None {
        Some(ConfigError::RpcPassNotSet)
    } else if !listen_addr_ok {
        Some(ConfigError::BadListenAddr)
    } else if vars.pool_address is None {
        Some(ConfigError::PoolAddressNotSet)
    } else if key_error(vars.pool_authority_public_key) is Some {
        Some(ConfigError::PublicKey { error: key_error(vars.pool_authority_public_key)->0 })
    } else if key_error(vars.pool_authority_private_key) is Some {
        Some(ConfigError::PrivateKey { error: key_error(vars.pool_authority_private_key)->0 })
    } else {
        None
    }
}

/// Whether the configuration is what the variables say.
pub open spec fn is_config(config: Config, vars: Variables) -> bool {
    &&& config.rpc_url@ == text_or(vars.rpc_url, "http://127.0.0.1:18443"@)
    &&& Some(config.rpc_user) == vars.rpc_user
    &&& Some(config.rpc_pass) == vars.rpc_pass
    &&& config.sv2_listen_addr@ == text_or(vars.sv2_listen_addr, "0.0.0.0:3333"@)
    &&& Some(config.pool_address) == vars.pool_address
    &&& vars.pool_authority_public_key matches Some(text) && hexadecimal::decoded(text@) == Some(
        config.pool_authority_public_key@,
    )
    &&& vars.pool_authority_private_key matches Some(text) && hexadecimal::decoded(text@) == Some(
        config.pool_authority_private_key@,
    )
}

/// A key variable that holds a key pair's line of hexadecimal gives the key back.
pub proof fn written_key_is_read_back(key: Seq<u8>, value: String)
    requires
        key.len() == 32,
        value@ == hexadecimal::encoded(key),
    ensures
        key_error(Some(value)) is None,
        hexadecimal::decoded(value@) == Some(key),
{
    hexadecimal::decoding_undoes_encoding(key);
}

/// When there is no configuration: no user, no password, a listen address that is none, no
/// pool address, or a key that is not set, no hexadecimal or not 32 bytes, the public one
/// first; the first of these in order, and only then.
pub proof fn config_errors_are(vars: Variables, listen_addr_ok: bool)
    ensures
        ({
            let error = config_error(vars, listen_addr_ok);
            let named = vars.rpc_user is Some && vars.rpc_pass is Some;
            let listens = named && listen_addr_ok;
            let paid = listens && vars.pool_address is Some;
            let public = key_error(vars.pool_authority_public_key);
            let private = key_error(vars.pool_authority_private_key);
            &&& error == Some(ConfigError::RpcUserNotSet) <==> vars.rpc_user is None
            &&& error == Some(ConfigError::RpcPassNotSet) <==> vars.rpc_user is Some
                && vars.rpc_pass is None
            &&& error == Some(ConfigError::BadListenAddr) <==> named && !listen_addr_ok
            &&& error == Some(ConfigError::PoolAddressNotSet) <==> listens && vars.pool_address
                is None
            &&& paid && public is Some ==> error == Some(
                ConfigError::PublicKey { error: public->0 },
            )
            &&& paid && public is None && private is Some ==> error == Some(
                ConfigError::PrivateKey { error: private->0 },
            )
            &&& error is None <==> paid && public is None && private is None
        }),
{
}

/// When a variable gives no key, and which error it is.
pub proof fn key_errors_are(value: Option<String>)
    ensures
        ({
            let data = hexadecimal::decoded(value->0@);
            &&& key_error(value) == Some(KeyError::NotSet) <==> value is None
            &&& key_error(value) == Some(KeyError::NotHex) <==> value is Some && data is None
            &&& key_error(value) == Some(KeyError::WrongLength) <==> value is Some && data is Some
                && data->0.len() != 32
            &&& key_error(value) is None <==> value is Some && data is Some && data->0.len() == 32
        }),
{
}

/// The configuration holds what is set, and for the node and the listen address, where
/// these are not set, the defaults.
pub proof fn the_configuration_is_what_is_set(config: Config, vars: Variables)
    requires
        is_config(config, vars),
    ensures
        vars.rpc_url matches Some(text) ==> config.rpc_url@ == text@,
        vars.rpc_url is None ==> config.rpc_url@ == "http://127.0.0.1:18443"@,
        vars.sv2_listen_addr matches Some(text) ==> config.sv2_listen_addr@ == text@,
        vars.sv2_listen_addr is None ==> config.sv2_listen_addr@ == "0.0.0.0:3333"@,
        vars.rpc_user == Some(config.rpc_user),
        vars.rpc_pass == Some(config.rpc_pass),
        vars.pool_address == Some(config.pool_address),
        vars.pool_authority_public_key is Some && hexadecimal::decoded(
            vars.pool_authority_public_key->0@,
        ) == Some(config.pool_authority_public_key@),
        vars.pool_authority_private_key is Some && hexadecimal::decoded(
            vars.pool_authority_private_key->0@,
        ) == Some(config.pool_authority_private_key@),
{
}

/// The address to listen on: the variable's, or the default.
pub fn listen_addr(value: &Option<String>) -> (text: String)
    ensures
        text@ == text_or(*value, "0.0.0.0:3333"@),
{
    match value {
        Some(text) => text.clone(),
        None => "0.0.0.0:3333".to_owned(),
    }
}

/// Reads a 32-byte key from hexadecimal.
pub fn parse_key32(value: &Option<String>) -> (out: Result<[u8; 32], KeyError>)
    ensures
        match out {
            Ok(key) => *value matches Some(text) && hexadecimal::decoded(text@) == Some(key@),
            Err(error) => key_error(*value) == Some(error),
        },
{
    match value {
        None => Err(KeyError::NotSet),
        Some(text) => match hexadecimal::decode(text.as_str()) {
            None => Err(KeyError::NotHex),
            Some(data) => if data.len() != 32 {
                Err(KeyError::WrongLength)
            } else {
                Ok(jobs::to_array32(&data))
            },
        },
    }
}

impl Config {
    /// The configuration that the variables give. `listen_addr_ok` says whether the
    /// address to listen on is a socket address.
    pub fn from_variables(vars: Variables, listen_addr_ok: bool) -> (out: Result<
        Self,
        ConfigError,
    >)
        ensures
            match out {
                Ok(config) => config_error(vars, listen_addr_ok) is None && is_config(config, vars),
                Err(error) => config_error(vars, listen_addr_ok) == Some(error),
            },
    {
        let rpc_url: String = match vars.rpc_url {
            Some(text) => text,
            None => "http://127.0.0.1:18443".to_owned(),
        };
        let rpc_user: String = match vars.rpc_user {
            Some(text) => text,
            None => {
                return Err(ConfigError::RpcUserNotSet);
            },
        };
        let rpc_pass: String = match vars.rpc_pass {
            Some(text) => text,
            None => {
                return Err(ConfigError::RpcPassNotSet);
            },
        };
        if !listen_addr_ok {
            return Err(ConfigError::BadListenAddr);
        }
        let pool_address: String = match vars.pool_address {
            Some(text) => text,
            None => {
                return Err(ConfigError::PoolAddressNotSet);
            },
        };
        let pool_authority_public_key: [u8; 32] = match parse_key32(
            &vars.pool_authority_public_key,
        ) {
            Ok(key) => key,
            Err(error) => {
                return Err(ConfigError::PublicKey { error });
            },
        };
        let pool_authority_private_key: [u8; 32] = match parse_key32(
            &vars.pool_authority_private_key,
        ) {
            Ok(key) => key,
            Err(error) => {
                return Err(ConfigError::PrivateKey { error });
            },
        };
        Ok(
            Config {
                rpc_url,
                rpc_user,
                rpc_pass,
                sv2_listen_addr: listen_addr(&vars.sv2_listen_addr),
                pool_address,
                pool_authority_public_key,
                pool_authority_private_key,
            },
        )
    }
}

} // verus!
