pub mod wire;
pub mod serializer;
pub mod topics;
pub mod netmessage;
pub mod server_info;
pub mod collections;
pub mod broker;
pub mod text;
pub mod gameplay;
pub mod shard;
pub mod session;
pub mod routing;
pub mod numbers;
pub mod orchestrator;
pub mod login;
pub mod client_view;
