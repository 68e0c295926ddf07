use anytls::addr::parse_socks_addr;
use anytls::buffer::{simd_compare, simd_copy, Buffer};
use anytls::perf::{AsyncIoOptimizer, ConnectionStats, NetworkStats, PerformanceCounter};
use anytls::session::ProxyError;
use anytls::stream::Stream;

#[test]
fn addr_ipv4() {
    let rec = [1u8, 192, 168, 0, 1, 0x1F, 0x90];
    assert_eq!(parse_socks_addr(&rec).unwrap(), b"192.168.0.1:8080".to_vec());
}

#[test]
fn addr_domain() {
    let mut rec = vec![3u8, 11];
    rec.extend_from_slice(b"example.com");
    rec.extend_from_slice(&[0x01, 0xBB]);
    assert_eq!(parse_socks_addr(&rec).unwrap(), b"example.com:443".to_vec());
}

#[test]
fn addr_ipv6() {
    let mut rec = vec![4u8];
    rec.extend_from_slice(&[
        0x20, 0x01, 0x0d, 0xb8, 0, 0, 0, 0, 0, 0, 0, 0, 0, 0, 0x12, 0x34,
    ]);
    rec.extend_from_slice(&[0x00, 0x50]);
    assert_eq!(
        parse_socks_addr(&rec).unwrap(),
        b"[2001:0db8:0000:0000:0000:0000:0000:1234]:80".to_vec()
    );
}

#[test]
fn addr_rejects_bad_records() {
    assert_eq!(parse_socks_addr(&[]), Err(ProxyError::ProtocolError));
    assert_eq!(parse_socks_addr(&[1, 2, 3]), Err(ProxyError::ProtocolError));
    assert_eq!(parse_socks_addr(&[3, 5, b'a', b'b']), Err(ProxyError::ProtocolError));
    assert_eq!(parse_socks_addr(&[9, 0, 0, 0, 0, 0, 0]), Err(ProxyError::ProtocolError));
}

#[test]
fn stream_partial_reads() {
    let mut s = Stream::new(5);
    assert_eq!(s.id(), 5);
    assert!(!s.has_buffered());
    s.accept_chunk(b"abcdef".to_vec());
    assert_eq!(s.take_buffered(4), b"abcd".to_vec());
    assert!(s.has_buffered());
    assert_eq!(s.take_buffered(100), b"ef".to_vec());
    assert!(!s.has_buffered());
}

#[test]
fn stream_close_is_idempotent() {
    let mut s = Stream::new(9);
    let fin = s.close().unwrap();
    assert_eq!(fin.sid, 9);
    assert!(s.close().is_none());
    assert!(s.is_closed());
    assert_eq!(s.write_frame(b"x".to_vec()), Err(ProxyError::StreamClosed));
}

#[test]
fn stream_write_frame_shape() {
    let s = Stream::new(2);
    let f = s.write_frame(b"hi".to_vec()).unwrap();
    assert_eq!(f.cmd, anytls::frame::CMD_PSH);
    assert_eq!(f.sid, 2);
    assert_eq!(f.data, b"hi".to_vec());
}

#[test]
fn buffer_bookkeeping() {
    let mut b = Buffer::new(8);
    b.set_len(5);
    assert_eq!(b.written_slice().len(), 5);
    b.set_len(100);
    assert_eq!(b.written_slice().len(), 8);
    b.mark_in_use();
    b.reset();
    assert_eq!(b.written_slice().len(), 0);
    b.mark_unused();
}

#[test]
fn simd_helpers() {
    let src = [1u8, 2, 3, 4, 5];
    let mut dst = [0u8; 3];
    assert_eq!(simd_copy(&src, &mut dst), 3);
    assert_eq!(dst, [1, 2, 3]);
    let mut wide = [9u8; 8];
    assert_eq!(simd_copy(&src, &mut wide), 5);
    assert_eq!(wide, [1, 2, 3, 4, 5, 9, 9, 9]);
    assert!(simd_compare(&[1, 2], &[1, 2]));
    assert!(!simd_compare(&[1, 2], &[1, 3]));
}

#[test]
fn perf_counters() {
    let mut c = PerformanceCounter::new();
    c.start();
    c.stop();
    let metrics = c.get_metrics();
    assert_eq!(metrics.len(), 4);
    assert_eq!(metrics[0], ("cpu_cycles".to_owned(), 0));
    assert_eq!(metrics[3], ("branch_misses".to_owned(), 0));

    let stats = NetworkStats::new();
    assert_eq!(stats.rx_packets + stats.tx_packets, 0);
    let conn = ConnectionStats::new();
    assert_eq!(conn.total_connections, 0);

    let opt = AsyncIoOptimizer::new(4);
    assert!(opt.optimize().is_ok());
    assert!(AsyncIoOptimizer::new(0).optimize().is_err());
}
