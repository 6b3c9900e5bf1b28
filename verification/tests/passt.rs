//! The WAN processes.

use k8netd::passt::{
    decode_frame, decode_vnet, encode_frame, encode_vnet, next_frame, passt_argv, passt_config_for, source_of,
    FrameReader, PasstConfig, PortForward, VnetError, MAX_PASST_PENDING, VNET_EGRESS, VNET_HEADER_LEN, VNET_INGRESS,
};

fn cfg(forwards: &[(u16, u16)]) -> PasstConfig {
    PasstConfig {
        vm_ip: "192.168.124.20".to_string(),
        forwards: forwards.iter().map(|&(h, v)| PortForward { host: h, vm: v }).collect(),
    }
}

#[test]
fn argv_matches_contract_single_forward() {
    let argv = passt_argv(&cfg(&[(6443, 6443)]), 7);
    assert_eq!(
        argv,
        vec![
            "passt",
            "--fd",
            "7",
            "-a",
            "192.168.124.20",
            "-t6443:192.168.124.20/6443"
        ]
    );
}

#[test]
fn argv_multiple_forwards_in_order() {
    let argv = passt_argv(&cfg(&[(6443, 6443), (22, 2222)]), 9);
    assert_eq!(&argv[..5], &["passt", "--fd", "9", "-a", "192.168.124.20"]);
    assert_eq!(argv[5], "-t6443:192.168.124.20/6443");
    assert_eq!(argv[6], "-t22:192.168.124.20/2222");
    assert_eq!(argv.len(), 7);
}

#[test]
fn argv_without_forwards_has_no_t_flags() {
    let argv = passt_argv(&cfg(&[]), 3);
    assert_eq!(argv.len(), 5);
    assert!(argv.iter().all(|a| !a.starts_with("-t")));
}

#[test]
fn vnet_round_trip_both_directions() {
    let frame = make_frame(64);
    for dir in [VNET_EGRESS, VNET_INGRESS] {
        let encoded = encode_vnet(dir, &frame);
        assert_eq!(encoded.len(), VNET_HEADER_LEN + frame.len());
        let (d, payload) = decode_vnet(&encoded).unwrap();
        assert_eq!(d, dir);
        assert_eq!(payload, &frame[..]);
    }
}

#[test]
fn vnet_rejects_short_and_truncated() {
    assert_eq!(decode_vnet(&[0u8; 3]), Err(VnetError::TooShort(3)));
    let bad = encode_vnet(VNET_INGRESS, &[]);
    let mut trunc = bad.clone();
    trunc[2] = 0;
    trunc[3] = 200;
    assert_eq!(
        decode_vnet(&trunc),
        Err(VnetError::Truncated { declared: 200, have: 0 })
    );
}

fn make_frame(payload_len: usize) -> Vec<u8> {
    let mut f = vec![0u8; 14 + payload_len];
    f[..6].copy_from_slice(&[0xff; 6]);
    f[6] = 0x02;
    for (i, b) in f.iter_mut().enumerate().skip(14) {
        *b = (i % 251) as u8;
    }
    f
}

#[test]
fn vnet_errors_in_words() {
    assert_eq!(VnetError::TooShort(3).message(), "vnet buffer too short: 3 bytes");
    assert_eq!(
        VnetError::Truncated { declared: 200, have: 0 }.message(),
        "vnet frame truncated: declared 200, have 0"
    );
}

#[test]
fn vnet_header_bytes() {
    assert_eq!(encode_vnet(VNET_EGRESS, &[7, 8, 9])[1..], [0, 0, 3, 7, 8, 9]);
    let mut longer = encode_vnet(VNET_INGRESS, &[1, 2]);
    longer.push(3);
    assert_eq!(decode_vnet(&longer), Ok((VNET_INGRESS, &[1u8, 2][..])), "what follows is left");
}

#[test]
fn streams_give_back_frames_in_any_pieces() {
    let frames: Vec<Vec<u8>> = vec![make_frame(0), make_frame(64), Vec::new(), make_frame(300)];
    let stream: Vec<u8> = frames.iter().flat_map(|f| encode_frame(f)).collect();
    for piece in [1usize, 3, 5, 64, stream.len()] {
        let mut reader = FrameReader::new();
        let mut got = Vec::new();
        for chunk in stream.chunks(piece) {
            got.extend(reader.receive(chunk));
        }
        assert_eq!(got, frames, "pieces of {piece}");
    }
}

#[test]
fn frames_carry_their_length() {
    assert_eq!(encode_frame(&[9, 8]), vec![0, 0, 0, 2, 9, 8]);
    assert_eq!(decode_frame(&[0, 0, 0, 2, 9, 8, 7]), Some(&[9u8, 8][..]));
    assert_eq!(decode_frame(&[0, 0, 0, 2, 9]), None);
    assert_eq!(decode_frame(&[0, 0, 0]), None);
    assert_eq!(next_frame(&[0, 0, 0, 1, 5, 6]), Some((5, vec![5])));
    assert_eq!(next_frame(&[]), None);
}

#[test]
fn broken_streams_are_dropped() {
    let mut reader = FrameReader::new();
    let mut start = vec![0x7f, 0xff, 0xff, 0xff];
    start.resize(MAX_PASST_PENDING, 0);
    assert!(reader.receive(&start).is_empty());
    assert!(reader.receive(&[0]).is_empty(), "one byte too many");
    assert_eq!(reader.receive(&encode_frame(&[1, 2, 3])), vec![vec![1, 2, 3]]);
}

#[test]
fn the_wan_is_known_by_its_frames() {
    let frame = [1, 1, 1, 1, 1, 1, 0x52, 0x55, 0x0a, 0, 2, 2, 8, 0];
    assert_eq!(source_of(&frame).unwrap().to_string(), "52:55:0a:00:02:02");
    assert_eq!(source_of(&frame[..11]), None);
}

#[test]
fn configurations_follow_what_is_published() {
    let c = passt_config_for("10.0.0.5", &vec![(22, 20001), (6443, 20000)]);
    assert_eq!(
        passt_argv(&c, -1),
        vec!["passt", "--fd", "-1", "-a", "10.0.0.5", "-t20001:10.0.0.5/22", "-t20000:10.0.0.5/6443"]
    );
    assert!(c.same(&c.clone()));
    assert!(!c.same(&passt_config_for("10.0.0.6", &vec![(22, 20001), (6443, 20000)])));
    assert!(!c.same(&passt_config_for("10.0.0.5", &vec![(22, 20001)])));
    assert!(!c.same(&passt_config_for("10.0.0.5", &vec![(22, 20001), (6443, 20002)])));
}
