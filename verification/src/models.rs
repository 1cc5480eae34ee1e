//! Channel configuration: a deployable unit couples a source, an ordered
//! processor chain, destinations, an optional error destination and a retry
//! bound.  Channel ids are 128-bit values, stable across redeploys.

use vstd::prelude::*;

use vstd::string::StringExecFns;

verus! {

/// One field mapping of the mapper processor.
#[derive(Debug, Clone)]
pub struct Mapping {
    pub source: String,
    pub target: String,
}

/// One route of the router processor (declared, not interpreted).
#[derive(Debug, Clone)]
pub struct Route {
    pub name: String,
    pub condition: String,
}

/// Where a channel's messages come from.
#[derive(Debug, Clone)]
pub enum SourceConfig {
    Http { port: u16, path: Option<String>, cert_path: Option<String>, key_path: Option<String> },
    Tcp { port: u16, cert_path: Option<String>, key_path: Option<String> },
    File { path: String, pattern: Option<String> },
    Database { url: String, query: String, interval_ms: u64 },
    Test { payload_type: String, payload: String },
}

/// One step of the processor chain.
#[derive(Debug, Clone)]
pub struct ProcessorConfig {
    pub id: String,
    pub name: String,
    pub kind: ProcessorType,
}

#[derive(Debug, Clone)]
pub enum ProcessorType {
    Lua { code: String },
    Mapper { mappings: Vec<Mapping> },
    Filter { condition: String },
    Router { routes: Vec<Route> },
    Hl7 { input_format: String, output_format: String },
}

/// One delivery target.
#[derive(Debug, Clone)]
pub struct DestinationConfig {
    pub id: String,
    pub name: String,
    pub kind: DestinationType,
}

#[derive(Debug, Clone)]
pub enum DestinationType {
    Http { url: String, method: String },
    File { path: String, filename: Option<String>, append: Option<bool>, encoding: Option<String> },
    Database { url: String, table: Option<String>, mode: String, query: Option<String> },
    Tcp { host: String, port: u16 },
    Lua { code: String },
}

/// A deployable channel.
#[derive(Debug, Clone)]
pub struct Channel {
    pub id: u128,
    pub name: String,
    pub enabled: bool,
    pub source: SourceConfig,
    pub processors: Vec<ProcessorConfig>,
    pub destinations: Vec<DestinationConfig>,
    pub error_destination: Option<DestinationConfig>,
    pub max_retries: Option<i32>,
}

/// The default bound on retries.
pub fn default_max_retries() -> (r: Option<i32>)
    ensures
        r == Some(3i32),
{
    Some(3)
}

/// One metrics-bus event.
#[derive(Debug, Clone)]
pub struct MetricUpdate {
    pub channel_id: u128,
    pub message_id: Option<u128>,
    pub status: String,
    pub timestamp_ms: i64,
}

/// The fixed id of the built-in demonstration channel, stable so that
/// creating it twice cannot duplicate it.
pub const HELLO_WORLD_CHANNEL_ID: u128 = 1;

/// The built-in demonstration channel: an HTTP source, one upper-casing
/// script, one file destination.
pub fn default_hello_channel() -> (r: Channel)
    ensures
        r.id == HELLO_WORLD_CHANNEL_ID,
        r.name@ == "Hello World Channel"@,
        r.enabled,
        r.source matches SourceConfig::Http { port, path, cert_path, key_path } && port == 8090u16
            && path is None && cert_path is None && key_path is None,
        r.processors@.len() == 1,
        r.processors@[0].kind matches ProcessorType::Lua { code } && code@
            == "return msg.content:upper()"@,
        r.destinations@.len() == 1,
        r.destinations@[0].kind matches DestinationType::File { path, filename, append, encoding }
            && path@ == "./output"@ && filename is None && append is None && encoding is None,
        r.error_destination is None,
        r.max_retries == Some(3i32),
{
    let processors = vec![
        ProcessorConfig {
            id: String::from_str("proc-1"),
            name: String::from_str("Uppercaser"),
            kind: ProcessorType::Lua { code: String::from_str("return msg.content:upper()") },
        },
    ];
    let destinations = vec![
        DestinationConfig {
            id: String::from_str("dest-1"),
            name: String::from_str("File Out"),
            kind: DestinationType::File {
                path: String::from_str("./output"),
                filename: None,
                append: None,
                encoding: None,
            },
        },
    ];
    Channel {
        id: HELLO_WORLD_CHANNEL_ID,
        name: String::from_str("Hello World Channel"),
        enabled: true,
        source: SourceConfig::Http { port: 8090, path: None, cert_path: None, key_path: None },
        processors,
        destinations,
        error_destination: None,
        max_retries: default_max_retries(),
    }
}

} // verus!
