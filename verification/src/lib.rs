//! A mesh of devices: peers find each other over Bluetooth, the local network or a local
//! socket, agree on a session, and exchange messages, calls, topics and streams over however
//! many links they share.
//!
//! The library holds the protocol and every decision. It reads no socket and no file: where
//! bytes have to move, an operation says which bytes and over which connection, and takes back
//! what came of it.

pub mod api;
pub mod clock;
pub mod mesh;
pub mod names;
pub mod protocol;
pub mod random;
pub mod strmap;
pub mod text;
pub mod transport;

pub use crate::api::message::{broadcast_message, recv_message, send_message};
pub use crate::api::pubsub::{publish, PubSubManager, PubSubMessage};
pub use crate::api::rpc::{
    dispatch_request, rpc_request, send_request, send_response, PendingRequests, RpcRegistry,
    RpcRequest, RpcResponse, RPC_STATUS_ERROR, RPC_STATUS_OK,
};
pub use crate::api::stream::{
    create_stream, create_stream_with_chunk_size, next_stream_id_central,
    next_stream_id_peripheral, Progress, StreamReader, StreamWriter,
};
pub use crate::mesh::connection::{negotiate_role, perform_handshake, ConnectionManager, Role};
pub use crate::mesh::node::types::{
    NodeConfig, NodeEvent, NodeState, PeerState, HEARTBEAT_INTERVAL, HEARTBEAT_TIMEOUT,
};
pub use crate::mesh::node::Node;
pub use crate::mesh::peer::{generate_app_uuid, Peer, PeerManager};
pub use crate::mesh::reconnect::{ReconnectMode, ReconnectPolicy};
pub use crate::mesh::scanner::{Scanner, DEFAULT_SCAN_INTERVAL};
pub use crate::mesh::security::{
    decrypt, derive_aes_key, derive_shared_secret, derive_verification_code, encrypt,
    generate_keypair, KeyPair, TrustStore, TrustedPeer,
};
pub use crate::protocol::compress;
pub use crate::protocol::errors::{MlinkError, Result};
pub use crate::protocol::frame::{decode_frame, encode_frame};
pub use crate::protocol::types::{
    decode_flags, encode_flags, CtrlCommand, ErrorCode, Frame, Handshake, InvalidMessageType,
    MessageType, Priority, StreamInfo, StreamResumeInfo, HEADER_SIZE, MAGIC, PROTOCOL_VERSION,
};
pub use crate::transport::ble::BleTransport;
pub use crate::transport::ipc::IpcTransport;
pub use crate::transport::mock::MockTransport;
pub use crate::transport::{DiscoveredPeer, TransportCapabilities};
