use lwip::packet::{
    packet_pool_runtime_stats, trim_packet_pools, IpPacket, PacketPool, PacketPools, PayloadExtent,
    PbufLease, PbufTail,
};
use lwip::shard::Shards;

#[test]
fn packet_pool_reuses_storage_and_stays_bounded() {
    let mut pool = PacketPool::new(7, 2, 128);

    let first = pool.acquire(64);
    assert_eq!(pool.stats().allocations, 1);
    pool.release(first);
    assert_eq!(pool.stats().cached, 1);

    let reused = pool.acquire(64);
    assert_eq!(pool.stats().reuses, 1);
    let second = pool.acquire(64);
    let third = pool.acquire(64);
    pool.release(reused);
    pool.release(second);
    pool.release(third);

    let stats = pool.stats();
    assert_eq!(stats.cached, 2);
    assert_eq!(stats.cached_bytes, 128);
    assert_eq!(stats.discarded, 1);
}

#[test]
fn oversized_packet_storage_is_not_retained() {
    let mut pool = PacketPool::new(7, 2, 128);
    let packet = pool.acquire(129);
    pool.release(packet);

    let stats = pool.stats();
    assert_eq!(stats.cached, 0);
    assert_eq!(stats.discarded, 1);
}

#[test]
fn copy_from_slice_preserves_bytes_and_reuses_storage() {
    let mut pool = PacketPool::new(7, 1, 128);
    let packet = pool.copy_from_slice(b"panda");
    assert_eq!(packet.as_ref(), b"panda");
    pool.release(packet);

    let packet = pool.copy_from_slice(b"core");
    assert_eq!(packet.as_ref(), b"core");
    assert_eq!(pool.stats().allocations, 1);
    assert_eq!(pool.stats().reuses, 1);
}

#[test]
fn trim_releases_cached_storage() {
    let mut pool = PacketPool::new(7, 1, 128);
    let packet = pool.acquire(64);
    pool.release(packet);

    assert!(pool.trim() >= 64);
    assert_eq!(pool.stats().cached, 0);
    assert_eq!(pool.stats().cached_bytes, 0);
}

#[test]
fn the_numbers_of_a_pool_balance() {
    let mut pool = PacketPool::new(1, 2, 128);
    let mut trimmed = 0;
    for round in 0..5u64 {
        let packets: Vec<IpPacket> = (0..3).map(|_| pool.acquire(64)).collect();
        let out = pool.stats();
        assert_eq!(out.allocations, out.discarded + out.cached as u64 + 3);
        for packet in packets {
            pool.release(packet);
        }
        if round % 2 == 0 {
            trimmed += pool.stats().cached as u64;
            pool.trim();
        }
        let stats = pool.stats();
        assert_eq!(stats.returned, stats.reuses + stats.cached as u64 + trimmed);
        assert_eq!(stats.allocations, stats.discarded + stats.cached as u64);
    }
    assert_eq!(trimmed, 6);
}

#[test]
fn a_pool_that_allows_every_size_keeps_what_it_has_room_for() {
    let mut pool = PacketPool::new(1, 1, usize::MAX);
    let (large, small) = (pool.acquire(100_000), pool.acquire(1));
    pool.release(large);
    pool.release(small);
    let stats = pool.stats();
    assert_eq!((stats.cached, stats.returned, stats.discarded), (1, 1, 1));
    assert!(stats.cached_bytes >= 100_000);
}

#[test]
fn the_oldest_cached_buffer_is_handed_out_first() {
    let mut pool = PacketPool::new(1, 2, 4096);
    let large = pool.acquire(2000);
    let small = pool.acquire(64);
    pool.release(large);
    pool.release(small);
    assert!(pool.acquire(1).reserved >= 2000);
    let next = pool.acquire(1).reserved;
    assert!((64..2000).contains(&next));
}

#[test]
fn a_cached_buffer_that_is_too_small_grows() {
    let mut pool = PacketPool::new(1, 1, 4096);
    let small = pool.acquire(16);
    pool.release(small);
    let grown = pool.copy_from_slice(&[9u8; 1000]);
    assert_eq!(grown.len(), 1000);
    assert_eq!(pool.stats().allocations, 1);
    pool.release(grown);
    assert!(pool.stats().cached_bytes >= 1000);
}

#[test]
fn storing_keeps_what_fits_and_drops_the_rest() {
    let mut pool = PacketPool::new(1, 1, 100);
    assert!(!pool.store(Vec::new(), 101));
    assert!(pool.store(Vec::new(), 100));
    assert!(!pool.store(Vec::new(), 1));
    let stats = pool.stats();
    assert_eq!(stats.cached, 1);
    assert_eq!(stats.cached_bytes, 100);
    assert_eq!(stats.returned, 1);
    assert_eq!(stats.discarded, 2);
}

#[test]
fn packets_from_bytes_belong_to_no_pool() {
    let packet = IpPacket::from(vec![1u8, 2, 3]);
    assert_eq!(packet.as_ref(), &[1, 2, 3]);
    assert_eq!(packet.len(), 3);
    assert!(!packet.is_empty());
    assert!(IpPacket::from(Vec::new()).is_empty());
    let mut pools = PacketPools::new();
    assert!(pools.release(packet).is_none());
}

#[test]
fn the_registry_drops_dead_pools_and_adds_up_the_live_ones() {
    let mut pools = PacketPools::new();
    let first = pools.create(2, 128);
    let second = pools.create(2, 128);
    assert_ne!(first, second);

    let a = pools.acquire(first, 64).unwrap();
    let b = pools.acquire(second, 32).unwrap();
    assert!(pools.release(a).is_none());
    assert!(pools.release(b).is_none());

    let stats = packet_pool_runtime_stats(&mut pools);
    assert_eq!(stats.live_pools, 2);
    assert_eq!(stats.cached_packets, 2);
    assert_eq!(stats.cached_bytes, 96);
    assert_eq!(stats.allocations, 2);
    assert_eq!(stats.returned, 2);
    assert_eq!(stats.reuses, 0);
    assert_eq!(stats.discarded, 0);

    assert!(pools.drop_handle(second));
    assert!(pools.acquire(second, 1).is_none());
    assert_eq!(packet_pool_runtime_stats(&mut pools).live_pools, 1);
    assert_eq!(trim_packet_pools(&mut pools), 64);
    let stats = packet_pool_runtime_stats(&mut pools);
    assert_eq!(stats.cached_packets, 0);
    assert_eq!(stats.cached_bytes, 0);
    assert_eq!(stats.discarded, 1);
}

#[test]
fn a_packet_keeps_its_pool_alive() {
    let mut pools = PacketPools::new();
    let id = pools.create(1, 128);
    let packet = pools.acquire(id, 8).unwrap();
    assert!(pools.clone_handle(id));
    assert!(pools.drop_handle(id));
    assert!(pools.drop_handle(id));
    assert_eq!(packet_pool_runtime_stats(&mut pools).live_pools, 1);
    pools.release(packet);
    assert_eq!(packet_pool_runtime_stats(&mut pools).live_pools, 0);
    assert!(!pools.drop_handle(id));
    assert!(!pools.clone_handle(id));
}

fn leased(headers: &[u8], chain: usize, payload: &[&[u8]]) -> (IpPacket, Vec<Vec<u8>>) {
    let mut packet = IpPacket::from(headers.to_vec());
    let mut segs = Vec::new();
    let mut bytes = Vec::new();
    for (index, part) in payload.iter().enumerate() {
        segs.push(PayloadExtent { address: 0x1000 * (index + 1), len: part.len() as u32 });
        bytes.push(part.to_vec());
    }
    packet.set_tail(PbufTail::new(chain, 2, segs));
    (packet, bytes)
}

#[test]
fn completing_a_leased_packet_appends_its_payload_once() {
    let (mut packet, payload) = leased(b"hdr", 77, &[b"pay", b"", b"load"]);
    assert_eq!(packet.finalize(&payload), Some(PbufLease { shard_id: 2, chain: 77 }));
    assert_eq!(packet.as_ref(), b"hdrpayload");
    assert_eq!(packet.finalize(&payload), None);
    assert_eq!(packet.as_ref(), b"hdrpayload");
}

#[test]
fn a_refused_leased_packet_gives_its_chain_back_at_once() {
    let (mut packet, _) = leased(b"hdr", 78, &[b"x"]);
    assert_eq!(packet.drop_tail_for_immediate_free(), Some(78));
    assert_eq!(packet.drop_tail_for_immediate_free(), None);
    assert_eq!(packet.as_ref(), b"hdr");
}

/// 5000 bytes leave in segments of 1460, 1460, 1460 and 620 bytes. The large ones
/// are leased, the last is copied.
#[test]
fn leased_frames_reassemble_exactly_and_return_their_leases() {
    let expected: Vec<u8> = (0..5000u32).map(|i| (i % 251) as u8).collect();
    let header = vec![0x45u8; 40];
    let mut shards: Shards<u32> = Shards::new();
    let mut delivered = Vec::new();
    let mut chain = 1;
    for segment in expected.chunks(1460) {
        let packet = if segment.len() >= 1024 {
            let (first, second) = segment.split_at(700);
            let (mut packet, payload) = leased(&header, chain, &[first, second]);
            let lease = packet.finalize(&payload).unwrap();
            assert!(shards.park_lease(lease));
            packet
        } else {
            let mut packet = IpPacket::from(header.clone());
            packet.extend(segment);
            assert_eq!(packet.finalize(&Vec::new()), None);
            packet
        };
        delivered.extend_from_slice(&packet.as_ref()[40..]);
        chain += 1;
    }
    assert_eq!(delivered.len(), expected.len());
    assert_eq!(delivered, expected, "lease reassembly corrupted bytes");
    let shard = shards.get_mut(2).unwrap();
    assert_eq!(shard.drain_pbuf_leases(), vec![1, 2, 3]);
    assert_eq!(shard.drain_pbuf_leases(), Vec::<usize>::new());
}

#[test]
fn teardown_with_unmaterialized_frames_returns_every_lease() {
    let mut pools = PacketPools::new();
    let id = pools.create(64, 2048);
    let mut shards: Shards<u32> = Shards::new();
    let payload = vec![0x5a; 4096];
    let mut queued = Vec::new();
    for (index, segment) in payload.chunks(1460).enumerate() {
        let mut packet = pools.acquire(id, 1500).unwrap();
        packet.extend(&[0u8; 40]);
        packet.set_tail(PbufTail::new(
            100 + index,
            0,
            vec![PayloadExtent { address: 0x2000, len: segment.len() as u32 }],
        ));
        queued.push(packet);
    }
    let count = queued.len();
    for packet in queued {
        let lease = pools.release(packet).unwrap();
        assert!(shards.park_lease(lease));
    }
    let freed = shards.get_mut(0).unwrap().drain_pbuf_leases();
    assert_eq!(freed, (100..100 + count).collect::<Vec<_>>());
    let stats = packet_pool_runtime_stats(&mut pools);
    assert_eq!(stats.returned, count as u64);
    assert!(!shards.park_lease(PbufLease { shard_id: 4, chain: 1 }));
}
