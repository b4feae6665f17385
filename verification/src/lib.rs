//! Steam's protobuf messages with a verified wire codec, and the verified decisions of the
//! client runtime around them: the connection-manager directory, HTTP/1.1, the WebSocket
//! handshake and framing.

pub mod codec;
pub mod content_manifest;
pub mod directory;
pub mod enums_productinfo;
pub mod http;
pub mod rpc;
pub mod steammessages_base;
pub mod steammessages_clientserver_2;
pub mod steammessages_clientserver_appinfo;
pub mod steammessages_clientserver_login;
pub mod steammessages_contentsystem_steamclient;
pub mod steammessages_publishedfile_steamclient;
pub mod steammessages_unified_base_steamclient;
pub mod text;
pub mod tls;
pub mod wire;
pub mod ws;
