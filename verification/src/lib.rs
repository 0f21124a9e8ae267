//! A safe core for a family of lwIP network stacks.

pub mod addr;
pub mod channel;
pub mod counter;
pub mod err;
pub mod error;
pub mod io;
pub mod laws;
pub mod lock_stats;
pub mod mutex;
pub mod output;
pub mod packet;
pub mod pbuf_pool;
pub mod shard;
pub mod stack;
pub mod stack_impl;
pub mod tcp_accounts;
pub mod tcp_stream_context;
pub mod tcp_stream_impl;
pub mod text;
pub mod udp;

pub use error::Error;
pub use packet::{
    packet_pool_runtime_stats, trim_packet_pools, IpPacket, PacketPool, PacketPoolsRuntimeStats,
};
pub use pbuf_pool::{
    configure_pbuf_pool_capacity, pbuf_pool_runtime_stats, pbuf_pool_runtime_stats_sharded,
    PbufPoolRuntimeStats,
};
pub use shard::{shard_count, tcp_runtime_stats};
pub use stack::{NetStack, StackEgress, StackIngress};
pub use stack_impl::initialize_windows_runtime_config;
pub use tcp_stream_context::TcpRuntimeStats;
pub use udp::RecvHalf as UdpRecvHalf;
pub use udp::SendHalf as UdpSendHalf;
pub use channel::UdpPkt;
pub use udp::{udp_runtime_stats, UdpRuntimeStats, UdpSocket};
