use dudu::pipeline::{
    build_stream_mapping, input_options, pacing_delay_us, rescale_q, rescale_q_pass_minmax,
    run_outcome, MediaKind, Packet, PacketAction, Rational, Remuxer, AVERROR_EOF, NOPTS_VALUE,
};

fn tb(num: i32, den: i32) -> Rational {
    Rational { num, den }
}

fn pkt(stream_index: i32, pts: i64, dts: i64, duration: i64) -> Packet {
    Packet { stream_index, pts, dts, duration, pos: 77 }
}

#[test]
fn mapping_skips_uncopied_kinds() {
    let kinds = vec![MediaKind::Video, MediaKind::Data, MediaKind::Audio, MediaKind::Attachment, MediaKind::Subtitle];
    assert_eq!(build_stream_mapping(&kinds), vec![0, -1, 1, -1, 2]);
    assert!(build_stream_mapping(&vec![]).is_empty());
}

#[test]
fn rescale_exact_values() {
    // 90 kHz to 1 kHz
    assert_eq!(rescale_q_pass_minmax(90000, tb(1, 90000), tb(1, 1000)), 1000);
    assert_eq!(rescale_q_pass_minmax(1499, tb(1, 90000), tb(1, 1000)), 16);
    assert_eq!(rescale_q_pass_minmax(-1499, tb(1, 90000), tb(1, 1000)), -16);
    assert_eq!(rescale_q(1499, tb(1, 90000), tb(1, 1000)), 17);
    assert_eq!(rescale_q(45, tb(1, 90000), tb(1, 1000)), 1);
    assert_eq!(rescale_q(-45, tb(1, 90000), tb(1, 1000)), -1);
    assert_eq!(rescale_q(3003, tb(1, 30000), tb(1, 1_000_000)), 100100);
    assert_eq!(rescale_q_pass_minmax(NOPTS_VALUE, tb(1, 90000), tb(1, 1000)), NOPTS_VALUE);
    assert_eq!(rescale_q_pass_minmax(i64::MAX, tb(1, 90000), tb(1, 1000)), i64::MAX);
    assert_eq!(rescale_q(5, tb(1, 0), tb(1, 1000)), NOPTS_VALUE);
    assert_eq!(rescale_q_pass_minmax(i64::MAX - 1, tb(1, 1), tb(1, 1000)), NOPTS_VALUE);
}

#[test]
fn rescaled_known_pts_stay_ordered() {
    let pts = [0i64, 1, 2, 3, 1000, 1001, 90000, 90001, 1_000_000];
    let out: Vec<i64> = pts.iter().map(|p| rescale_q_pass_minmax(*p, tb(1, 90000), tb(1, 1000))).collect();
    for w in out.windows(2) {
        assert!(w[0] <= w[1]);
    }
    let neg: Vec<i64> = [-5000i64, -1, 0, 7].iter().map(|p| rescale_q_pass_minmax(*p, tb(1, 48000), tb(1, 1000))).collect();
    for w in neg.windows(2) {
        assert!(w[0] <= w[1]);
    }
}

fn remuxer() -> Remuxer {
    let mapping = build_stream_mapping(&vec![MediaKind::Video, MediaKind::Data, MediaKind::Audio]);
    Remuxer::new(mapping, vec![tb(1, 90000), tb(1, 1), tb(1, 48000)], vec![tb(1, 1000), tb(1, 1000)], 0).unwrap()
}

#[test]
fn remuxer_rejects_inconsistent_tables() {
    assert!(Remuxer::new(vec![0, 1], vec![tb(1, 1)], vec![tb(1, 1)], 0).is_none());
    assert!(Remuxer::new(vec![0, 2], vec![tb(1, 1), tb(1, 1)], vec![tb(1, 1)], 0).is_none());
    assert!(Remuxer::new(vec![-1, 0], vec![tb(1, 1), tb(1, 1)], vec![tb(1, 1)], -1).is_some());
}

#[test]
fn packets_of_dropped_or_unknown_streams() {
    let mut m = remuxer();
    assert_eq!(m.plan_packet(pkt(1, 0, 0, 1)), PacketAction::Drop);
    assert_eq!(m.plan_packet(pkt(3, 0, 0, 1)), PacketAction::Drop);
    assert_eq!(m.plan_packet(pkt(-1, 0, 0, 1)), PacketAction::Drop);
}

#[test]
fn video_packet_rescaled_and_paced() {
    let mut m = remuxer();
    let a = m.plan_packet(pkt(0, 180000, 180000, 3000));
    assert_eq!(
        a,
        PacketAction::Write {
            packet: Packet { stream_index: 0, pts: 2000, dts: 2000, duration: 33, pos: -1 },
            pace_until_us: Some(2_000_000),
        }
    );
}

#[test]
fn audio_packet_not_paced() {
    let mut m = remuxer();
    let a = m.plan_packet(pkt(2, 48000, 48000, 1024));
    assert_eq!(
        a,
        PacketAction::Write {
            packet: Packet { stream_index: 1, pts: 1000, dts: 1000, duration: 21, pos: -1 },
            pace_until_us: None,
        }
    );
}

#[test]
fn missing_timestamps_are_synthesised() {
    let mut m = remuxer();
    let first = m.plan_packet(pkt(2, NOPTS_VALUE, NOPTS_VALUE, 960));
    let second = m.plan_packet(pkt(2, NOPTS_VALUE, 5, 960));
    assert_eq!(m.cur_pts, vec![0, 0, 1920]);
    match (first, second) {
        (PacketAction::Write { packet: p1, .. }, PacketAction::Write { packet: p2, .. }) => {
            assert_eq!((p1.pts, p1.dts), (0, 0));
            assert_eq!((p2.pts, p2.dts), (20, 20));
        }
        _ => panic!("expected writes"),
    }
    // a packet with a known pts does not advance the synthesised clock
    m.plan_packet(pkt(2, 100, 100, 960));
    assert_eq!(m.cur_pts, vec![0, 0, 1920]);
}

#[test]
fn pacing_waits_until_deadline() {
    assert_eq!(pacing_delay_us(2_000_000, 500_000), 1_500_000);
    assert_eq!(pacing_delay_us(2_000_000, 2_000_000), 0);
    assert_eq!(pacing_delay_us(1_000, 5_000), 0);
    assert_eq!(pacing_delay_us(i64::MAX, i64::MIN), u64::MAX);
    // simulated clock: each write happens after its deadline
    let mut m = remuxer();
    let mut now: i64 = 0;
    for k in 0..5i64 {
        if let PacketAction::Write { pace_until_us: Some(deadline), .. } = m.plan_packet(pkt(0, k * 3000, k * 3000, 3000)) {
            now += pacing_delay_us(deadline, now) as i64;
            assert!(now >= deadline);
            assert_eq!(deadline, (k * 3000 * 1_000_000 + 45_000) / 90_000);
        } else {
            panic!("expected a paced write");
        }
    }
}

#[test]
fn outcomes_from_status_codes() {
    assert_eq!(run_outcome(0, "x".to_string()), Ok(()));
    assert_eq!(run_outcome(AVERROR_EOF, "End of file".to_string()), Ok(()));
    assert_eq!(run_outcome(-110, "ETIMEDOUT".to_string()), Err("ETIMEDOUT".to_string()));
}

#[test]
fn demuxer_options() {
    let o = input_options();
    assert_eq!(
        o,
        vec![
            ("buffer_size", "1024000"),
            ("rtbufsize", "10000"),
            ("stimeout", "3000000"),
            ("max_delay", "5000000"),
            ("rtsp_transport", "tcp"),
        ]
    );
}
