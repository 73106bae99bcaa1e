use grbl_rs::commands::{probe_z_line, GrblCommand, RealtimeCommand};
use grbl_rs::motion::{translate_line, translate_lines, BedAxis, MotionConfig};
use grbl_rs::poller::{PollStep, Poller};
use grbl_rs::program::{prepare_program, program_lines};
use grbl_rs::ports::{list_ports, mock_ports, port_title, PortDescriptor, PortKind};
use grbl_rs::status::{parse_status_line, MachineState, MachineStatus, Position};
use grbl_rs::streamer::{
    classify_response, Response, StreamAction, StreamFailure, StreamResult, Streamer,
};
use grbl_rs::wire::{frame_line, LineRead, LineReader, ReadEvent};
use grbl_rs::DEFAULT_BAUD;

#[test]
fn test_default_baud() {
    assert_eq!(DEFAULT_BAUD, 115_200);
}

#[test]
fn test_list_ports_no_panic() {
    let _ = list_ports(&Vec::new());
}

#[test]
fn list_ports_titles_by_transport() {
    let found = vec![
        PortDescriptor { name: "/dev/ttyACM0".to_string(), kind: PortKind::Usb { vid: 1155, pid: 22336 } },
        PortDescriptor { name: "COM4".to_string(), kind: PortKind::Pci },
        PortDescriptor { name: "COM5".to_string(), kind: PortKind::Bluetooth },
        PortDescriptor { name: "COM6".to_string(), kind: PortKind::Unknown },
    ];
    let ports = list_ports(&found);
    assert_eq!(ports.len(), 4);
    assert_eq!(ports[0].name, "/dev/ttyACM0");
    assert_eq!(ports[0].title, "/dev/ttyACM0 (USB 1155:22336)");
    assert_eq!(ports[1].title, "COM4 (PCI)");
    assert_eq!(ports[2].title, "COM5 (Bluetooth)");
    assert_eq!(ports[3].title, "COM6");
    assert_eq!(port_title(&"X".to_string(), PortKind::Usb { vid: 0, pid: 7 }), "X (USB 0:7)");
}

#[test]
fn mock_ports_are_two_fixed_entries() {
    let m = mock_ports();
    assert_eq!(m.len(), 2);
    assert_eq!(m[0].name, "COM3");
    assert_eq!(m[0].title, "Mock CNC (COM3)");
    assert_eq!(m[1].name, "/dev/ttyUSB0");
    assert_eq!(m[1].title, "Mock CNC (ttyUSB0)");
}

#[test]
fn command_lines() {
    assert_eq!(GrblCommand::Jog("G21G91X10F500".to_string()).to_line(), "$J=G21G91X10F500");
    assert_eq!(GrblCommand::Home.to_line(), "$H");
    assert_eq!(GrblCommand::Unlock.to_line(), "$X");
}

#[test]
fn realtime_bytes() {
    assert_eq!(RealtimeCommand::StatusQuery.as_byte(), b'?');
    assert_eq!(RealtimeCommand::FeedHold.as_byte(), b'!');
    assert_eq!(RealtimeCommand::CycleStart.as_byte(), b'~');
    assert_eq!(RealtimeCommand::JogCancel.as_byte(), 0x85);
    assert_eq!(RealtimeCommand::FeedOverridePlus10.as_byte(), 0x91);
}

#[test]
fn probe_line_has_four_decimals() {
    let line = probe_z_line(100_000, 500_000);
    assert_eq!(line, "G38.2 Z-10.0000 F50.0000");
    assert_eq!(frame_line(&line), b"G38.2 Z-10.0000 F50.0000\r\n".to_vec());
    assert_eq!(probe_z_line(12_345, 5), "G38.2 Z-1.2345 F0.0005");
    assert_eq!(probe_z_line(-25_000, 0), "G38.2 Z--2.5000 F0.0000");
}

#[test]
fn frame_line_appends_crlf_only() {
    assert_eq!(frame_line("G0 X1"), b"G0 X1\r\n".to_vec());
    assert_eq!(frame_line(""), b"\r\n".to_vec());
    assert_eq!(frame_line("$H"), vec![b'$', b'H', 13, 10]);
}

fn read_all(bytes: &[u8], then: ReadEvent) -> LineRead {
    let mut r = LineReader::new();
    for b in bytes {
        if let Some(done) = r.feed(ReadEvent::Byte(*b)) {
            return done;
        }
    }
    r.feed(then).expect("a final event ends the read")
}

#[test]
fn read_line_stops_at_first_lf_and_drops_cr() {
    assert_eq!(read_all(b"ok\r\nerror:1\n", ReadEvent::TimedOut), LineRead::Line(b"ok".to_vec()));
    assert_eq!(read_all(b"a\rb\r\n", ReadEvent::TimedOut), LineRead::Line(b"ab".to_vec()));
    assert_eq!(read_all(b"\n", ReadEvent::TimedOut), LineRead::Line(Vec::new()));
}

#[test]
fn read_line_times_out_without_partial_line() {
    assert_eq!(read_all(b"<Idle|MPo", ReadEvent::TimedOut), LineRead::TimedOut);
    assert_eq!(read_all(b"", ReadEvent::TimedOut), LineRead::TimedOut);
    assert_eq!(read_all(b"abc", ReadEvent::Failed), LineRead::Failed);
    assert_eq!(read_all(b"abc", ReadEvent::Closed), LineRead::TimedOut);
}

#[test]
fn status_report_parses() {
    let s = parse_status_line(&b"<Idle|WPos:1.000,2.500,-3.000|MPos:10.000,20.000,30.000|F:500>".to_vec())
        .expect("a full report");
    assert_eq!(s.state, MachineState::Idle);
    assert_eq!(s.work_position, Position { x: 10_000, y: 25_000, z: -30_000, a: None });
    assert_eq!(s.machine_position, Position { x: 100_000, y: 200_000, z: 300_000, a: None });
    assert_eq!(s.feed_rate, 5_000_000);
    assert_eq!(s.spindle_speed, 0);
}

#[test]
fn status_report_with_substate_fourth_axis_and_spindle() {
    let s = parse_status_line(
        &b"<Hold:0|WPos:0,0,0,12.5|MPos:1.23456,-0.5,.25|FS:1200,8000|Pn:XYZ>".to_vec(),
    )
    .expect("a full report");
    assert_eq!(s.state, MachineState::Hold);
    assert_eq!(s.work_position.a, Some(125_000));
    assert_eq!(s.machine_position, Position { x: 12_345, y: -5_000, z: 2_500, a: None });
    assert_eq!(s.feed_rate, 12_000_000);
    assert_eq!(s.spindle_speed, 80_000_000);
}

#[test]
fn status_report_with_one_position() {
    let s = parse_status_line(&b"<Run|MPos:10.000,20.000,-5.000|FS:500,0|WCO:1.000,2.000,-1.000>".to_vec())
        .expect("a machine position and an offset");
    assert_eq!(s.state, MachineState::Run);
    assert_eq!(s.machine_position, Position { x: 100_000, y: 200_000, z: -50_000, a: None });
    assert_eq!(s.work_position, Position { x: 90_000, y: 180_000, z: -40_000, a: None });
    let s = parse_status_line(&b"<Idle|WPos:1,2,3|WCO:1,1,1>".to_vec()).expect("a work position");
    assert_eq!(s.machine_position, Position { x: 20_000, y: 30_000, z: 40_000, a: None });
    let s = parse_status_line(&b"<Jog|MPos:1,2,3>".to_vec()).expect("no offset reported");
    assert_eq!(s.work_position, s.machine_position);
    assert_eq!(parse_status_line(&b"<Idle|MPos:1,2,3|WCO:1,2>".to_vec()), None);
}

#[test]
fn malformed_status_reports_are_skipped() {
    assert_eq!(parse_status_line(&b"ok".to_vec()), None);
    assert_eq!(parse_status_line(&b"<Idle|Bf:15,128>".to_vec()), None);
    assert_eq!(parse_status_line(&b"<Idle|WPos:1,2,3|MPos:1,2>".to_vec()), None);
    assert_eq!(parse_status_line(&b"<Busy|WPos:1,2,3|MPos:1,2,3>".to_vec()), None);
    assert_eq!(parse_status_line(&b"<Idle|WPos:1,2,3|MPos:1,x,3>".to_vec()), None);
    assert_eq!(parse_status_line(&b"<Idle|WPos:1,2,3|MPos:1,2,3".to_vec()), None);
    assert_eq!(parse_status_line(&b"<Idle|WPos:1,2,3|MPos:1,2,3|F:>".to_vec()), None);
}

#[test]
fn idle_status_is_at_origin() {
    let s = MachineStatus::idle();
    assert_eq!(s.state, MachineState::Idle);
    assert_eq!(s.work_position, Position { x: 0, y: 0, z: 0, a: None });
}

#[test]
fn motion_rewrites_y_beyond_limit() {
    let cfg = MotionConfig::default();
    assert_eq!(cfg, MotionConfig { y_limit: 6_096_000, bed_axis: BedAxis::A });
    assert_eq!(translate_line("G1 Y700 F100", &cfg), "G1 A700 F100");
    assert_eq!(translate_line("G1 Y609.6", &cfg), "G1 Y609.6");
    assert_eq!(translate_line("G1 Y609.60001", &cfg), "G1 A609.60001");
    assert_eq!(translate_line("G1 y+610", &cfg), "G1 A+610");
    assert_eq!(translate_line("G1 Y-700", &cfg), "G1 Y-700");
    assert_eq!(translate_line("G1 X5 (Y900) Y10", &cfg), "G1 X5 (Y900) Y10");
    assert_eq!(translate_line("G0 Y800 ; Y900", &cfg), "G0 A800 ; Y900");
    let cfg_u = MotionConfig { y_limit: 1_000_000, bed_axis: BedAxis::U };
    assert_eq!(translate_line("G1 X1 Y150", &cfg_u), "G1 X1 U150");
}

#[test]
fn motion_translation_is_idempotent_within_limit() {
    let cfg = MotionConfig::default();
    let lines = vec!["G21".to_string(), "G1 Y100 F500".to_string(), "M5".to_string()];
    let once = translate_lines(&lines, &cfg);
    let twice = translate_lines(&once, &cfg);
    assert_eq!(once, lines);
    assert_eq!(twice, once);
}

#[test]
fn motion_translation_keeps_lines_and_order() {
    let cfg = MotionConfig::default();
    let lines = vec![
        "G21".to_string(),
        "G1 Y900".to_string(),
        "M3 S1000".to_string(),
        "G1 X10".to_string(),
    ];
    let out = translate_lines(&lines, &cfg);
    assert_eq!(out.len(), 4);
    assert_eq!(out[0], "G21");
    assert_eq!(out[1], "G1 A900");
    assert_eq!(out[2], "M3 S1000");
    assert_eq!(out[3], "G1 X10");
}

/// Drives a run against scripted replies and statuses; returns the lines sent and
/// the outcome.
fn drive(
    total: usize,
    replies: &[&[u8]],
    statuses: &[MachineState],
) -> (Vec<usize>, Result<StreamResult, StreamFailure>) {
    let mut s = Streamer::new(total);
    let mut sent = Vec::new();
    let mut reply = 0;
    let mut tick = 0;
    loop {
        let st = statuses.get(tick).copied().unwrap_or(MachineState::Idle);
        tick += 1;
        match s.poll(st) {
            StreamAction::Send(i) => sent.push(i),
            StreamAction::AwaitResponse => {
                let read = match replies.get(reply) {
                    Some(r) => LineRead::Line(r.to_vec()),
                    None => LineRead::TimedOut,
                };
                reply += 1;
                s.on_read(&read);
            }
            StreamAction::Wait => {}
            StreamAction::Finished(r) => return (sent, r),
        }
    }
}

#[test]
fn streaming_all_acknowledged() {
    let (sent, r) = drive(3, &[b"ok", b"ok", b"ok"], &[]);
    assert_eq!(sent, vec![0, 1, 2]);
    assert_eq!(r, Ok(StreamResult { lines_acked: 3, error: None }));
    let (sent, r) = drive(0, &[], &[]);
    assert!(sent.is_empty());
    assert_eq!(r, Ok(StreamResult { lines_acked: 0, error: None }));
}

#[test]
fn streaming_stops_at_first_error() {
    let (sent, r) = drive(5, &[b"ok", b"[MSG:busy]", b"error:20", b"ok"], &[]);
    assert_eq!(sent, vec![0, 1]);
    assert_eq!(r, Ok(StreamResult { lines_acked: 1, error: Some(b"20".to_vec()) }));
}

#[test]
fn streaming_timeout_is_a_failure() {
    let (sent, r) = drive(3, &[b"ok"], &[]);
    assert_eq!(sent, vec![0, 1]);
    assert_eq!(r, Err(StreamFailure::Timeout));
}

#[test]
fn streaming_pauses_in_hold_and_resumes() {
    let mut s = Streamer::new(3);
    assert!(matches!(s.poll(MachineState::Idle), StreamAction::Send(0)));
    assert!(matches!(s.poll(MachineState::Hold), StreamAction::AwaitResponse));
    s.on_response(Response::Acknowledged);
    assert!(matches!(s.poll(MachineState::Hold), StreamAction::Wait));
    assert!(matches!(s.poll(MachineState::Hold), StreamAction::Wait));
    assert!(matches!(s.poll(MachineState::Idle), StreamAction::Send(1)));
    s.on_response(Response::Acknowledged);
    assert!(matches!(s.poll(MachineState::Run), StreamAction::Send(2)));
    let (sent, r) = drive(
        2,
        &[b"ok", b"ok"],
        &[MachineState::Hold, MachineState::Hold, MachineState::Idle],
    );
    assert_eq!(sent, vec![0, 1]);
    assert_eq!(r, Ok(StreamResult { lines_acked: 2, error: None }));
}

#[test]
fn responses_are_classified() {
    assert_eq!(classify_response(&b"ok".to_vec()), Response::Acknowledged);
    assert_eq!(classify_response(&b"error:9".to_vec()), Response::Error(b"9".to_vec()));
    assert_eq!(classify_response(&b"ALARM:1".to_vec()), Response::Other);
    assert_eq!(classify_response(&b"okay".to_vec()), Response::Other);
}

#[test]
fn poller_stops_for_good() {
    let mut p = Poller::new();
    assert_eq!(p.next_step(), PollStep::Query);
    let st = p.on_reply(&LineRead::Line(b"<Run|WPos:0,0,0|MPos:0,0,0>".to_vec()));
    assert_eq!(st.map(|s| s.state), Some(MachineState::Run));
    assert_eq!(p.on_reply(&LineRead::TimedOut), None);
    assert_eq!(p.on_reply(&LineRead::Line(b"ok".to_vec())), None);
    p.stop();
    assert_eq!(p.next_step(), PollStep::Stop);
    let _ = p.on_reply(&LineRead::TimedOut);
    assert_eq!(p.next_step(), PollStep::Stop);
}

#[test]
fn program_text_splits_into_lines() {
    assert_eq!(program_lines("G21\r\nG1 X1\nM5\n"), vec!["G21", "G1 X1", "M5"]);
    assert_eq!(program_lines("a\n\nb"), vec!["a", "", "b"]);
    assert_eq!(program_lines(""), Vec::<String>::new());
    assert_eq!(program_lines("\n"), vec![""]);
    let cfg = MotionConfig::default();
    assert_eq!(prepare_program("G21\nG1 Y700\r\n", &cfg), vec!["G21", "G1 A700"]);
}
