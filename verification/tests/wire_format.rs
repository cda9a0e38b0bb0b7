use fast_reverse_proxy::addr::{IpV4, PeerAddr, SockAddrV4};
use fast_reverse_proxy::parse::parse_sock_addr;
use fast_reverse_proxy::proxy::{haproxy_v1_header, haproxy_v2_header, header_dst, header_preamble, Mode, Protocol};
use fast_reverse_proxy::text::{dec_u16, dec_u64};
use fast_reverse_proxy::wire::{
    checked_handoff_frame, encode_handoff_frame, parse_handoff_body, push_be16, push_be64,
    read_be64,
};
use fast_reverse_proxy::addr::{render_quad, render_sock, require_v4};

fn sample_src() -> SockAddrV4 {
    SockAddrV4 { ip: IpV4 { a: 203, b: 0, c: 113, d: 7 }, port: 54321 }
}

fn sample_dst() -> SockAddrV4 {
    SockAddrV4 { ip: IpV4 { a: 198, b: 51, c: 100, d: 2 }, port: 80 }
}

#[test]
fn v1_header_exact_bytes() {
    let h = haproxy_v1_header(&sample_src(), &sample_dst());
    assert_eq!(h, "PROXY TCP4 203.0.113.7 198.51.100.2 54321 80\r\n");
    assert_eq!(h.as_bytes().len(), 46);
}

#[test]
fn v2_header_exact_bytes() {
    let h = haproxy_v2_header(&sample_src(), &sample_dst());
    let expected: Vec<u8> = vec![
        0x0D, 0x0A, 0x0D, 0x0A, 0x21, 0x11, 0x00, 0x0C, 0xCB, 0x00, 0x71, 0x07, 0xC6, 0x33, 0x64,
        0x02, 0xD4, 0x31, 0x00, 0x50,
    ];
    assert_eq!(h, expected);
}

#[test]
fn preamble_matches_protocol() {
    let src = sample_src();
    let dst = sample_dst();
    assert!(header_preamble(&Protocol::Tcp, &src, &dst).is_empty());
    assert_eq!(
        header_preamble(&Protocol::HAProxyV1, &src, &dst),
        haproxy_v1_header(&src, &dst).into_bytes()
    );
    assert_eq!(
        header_preamble(&Protocol::HAProxyV2, &src, &dst),
        haproxy_v2_header(&src, &dst)
    );
}

#[test]
fn handoff_frame_exact_bytes() {
    let frame = encode_handoff_frame("10.0.0.1:8080");
    assert_eq!(frame.len(), 24);
    assert_eq!(frame[0], 0x17);
    assert_eq!(frame[1], 0x01);
    assert_eq!(&frame[2..10], &[0x00, 0x00, 0x00, 0x00, 0x00, 0x00, 0x00, 0x0D]);
    assert_eq!(&frame[10..23], "10.0.0.1:8080".as_bytes());
    assert_eq!(frame[23], 0x02);
}

#[test]
fn handoff_frame_round_trip() {
    let frame = encode_handoff_frame("10.0.0.1:8080");
    let body = &frame[1..];
    let target = parse_handoff_body(body).expect("well-formed frame must parse");
    assert_eq!(target, "10.0.0.1:8080".as_bytes().to_vec());
}

#[test]
fn handoff_frame_for_empty_target() {
    let frame = encode_handoff_frame("");
    assert_eq!(frame.len(), 11);
    assert_eq!(frame[0], 10);
    let target = parse_handoff_body(&frame[1..]).expect("empty target is still a frame");
    assert!(target.is_empty());
}

#[test]
fn handoff_frame_caps_target_length() {
    let long = "x".repeat(246);
    assert!(checked_handoff_frame(&long).is_none());
    let just_fits = "x".repeat(245);
    let frame = checked_handoff_frame(&just_fits).expect("245 bytes fit the length byte");
    assert_eq!(frame.len(), 256);
    assert_eq!(frame[0], 255);
}

#[test]
fn handoff_body_rejects_malformed_frames() {
    let good = {
        let f = encode_handoff_frame("a");
        f[1..].to_vec()
    };
    assert!(parse_handoff_body(&good).is_some());

    let mut bad_first = good.clone();
    bad_first[0] = 0x03;
    assert!(parse_handoff_body(&bad_first).is_none());

    let mut bad_last = good.clone();
    let n = bad_last.len();
    bad_last[n - 1] = 0x00;
    assert!(parse_handoff_body(&bad_last).is_none());

    let mut bad_len = good.clone();
    bad_len[8] = 0xFF;
    assert!(parse_handoff_body(&bad_len).is_none());

    assert!(parse_handoff_body(&[0x01, 0x02]).is_none());
    assert!(parse_handoff_body(&[]).is_none());
}

#[test]
fn big_endian_encodings() {
    let mut v: Vec<u8> = Vec::new();
    push_be16(&mut v, 0x1234);
    assert_eq!(v, vec![0x12, 0x34]);
    let mut w: Vec<u8> = Vec::new();
    push_be64(&mut w, 13);
    assert_eq!(w, vec![0, 0, 0, 0, 0, 0, 0, 13]);
    assert_eq!(read_be64(&w, 0), 13);
}

#[test]
fn decimal_rendering() {
    assert_eq!(dec_u16(0), "0");
    assert_eq!(dec_u16(80), "80");
    assert_eq!(dec_u16(65535), "65535");
    assert_eq!(dec_u64(1000000), "1000000");
}

#[test]
fn address_rendering() {
    assert_eq!(render_quad(&IpV4 { a: 10, b: 0, c: 0, d: 1 }), "10.0.0.1");
    assert_eq!(
        render_sock(&SockAddrV4 { ip: IpV4 { a: 10, b: 0, c: 0, d: 1 }, port: 8080 }),
        "10.0.0.1:8080"
    );
}

#[test]
fn sock_addr_parsing_accepts_canonical_forms() {
    let sa = parse_sock_addr("10.0.0.1:8080").expect("canonical address");
    assert_eq!((sa.ip.a, sa.ip.b, sa.ip.c, sa.ip.d, sa.port), (10, 0, 0, 1, 8080));
    let sa = parse_sock_addr("255.255.255.255:65535").expect("maximal address");
    assert_eq!((sa.ip.a, sa.port), (255, 65535));
    let sa = parse_sock_addr("0.0.0.0:0").expect("minimal address");
    assert_eq!((sa.ip.a, sa.ip.d, sa.port), (0, 0, 0));
}

#[test]
fn sock_addr_parsing_rejects_noise() {
    assert!(parse_sock_addr("").is_none());
    assert!(parse_sock_addr("10.0.0.1").is_none());
    assert!(parse_sock_addr("10.0.0.1:").is_none());
    assert!(parse_sock_addr("256.0.0.1:80").is_none());
    assert!(parse_sock_addr("01.2.3.4:80").is_none());
    assert!(parse_sock_addr("1.2.3.4:99999").is_none());
    assert!(parse_sock_addr("1.2.3.4:080").is_none());
    assert!(parse_sock_addr("::1:80").is_none());
    assert!(parse_sock_addr("a.b.c.d:80").is_none());
    assert!(parse_sock_addr("1.2.3.4:80 ").is_none());
}

#[test]
fn parse_render_round_trip() {
    let sa = SockAddrV4 { ip: IpV4 { a: 192, b: 168, c: 0, d: 17 }, port: 443 };
    let text = render_sock(&sa);
    let back = parse_sock_addr(&text).expect("rendered form parses");
    assert_eq!(back, sa);
}

#[test]
fn header_destination_by_mode() {
    let v4 = PeerAddr::V4(sample_dst());
    assert_eq!(header_dst(&Mode::Reverse, &v4, "ignored"), Some(sample_dst()));
    assert_eq!(header_dst(&Mode::Reverse, &PeerAddr::V6, "ignored"), None);
    let sa = header_dst(&Mode::HolePunch, &PeerAddr::V6, "10.0.0.1:8080").expect("parsed target");
    assert_eq!(sa.port, 8080);
    assert_eq!(header_dst(&Mode::HolePunch, &v4, "not-an-address"), None);
    assert_eq!(require_v4(&PeerAddr::V6), None);
}
