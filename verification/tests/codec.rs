use mud_session::telnet::{parse_telnet_event, Prompt, TelnetCodec, TelnetEvent};

fn drain_events(codec: &mut TelnetCodec, buffer: &mut Vec<u8>) -> Vec<TelnetEvent> {
    let mut events = Vec::new();
    while let Some(ev) = codec.decode(buffer) {
        events.push(ev);
    }
    events
}

fn data_lines(events: &[TelnetEvent]) -> Vec<Vec<u8>> {
    let mut lines = Vec::new();
    for ev in events {
        if let TelnetEvent::Data(bytes) = ev {
            lines.push(bytes.clone());
        }
    }
    lines
}

#[test]
fn decode_whole_line() {
    let mut codec = TelnetCodec::new();
    let mut buffer = b"hello world\n".to_vec();
    let events = drain_events(&mut codec, &mut buffer);
    assert_eq!(events.len(), 1);
    assert!(matches!(&events[0], TelnetEvent::Data(d) if d == b"hello world"));
    assert!(buffer.is_empty());
}

#[test]
fn decode_strips_carriage_return() {
    let mut codec = TelnetCodec::new();
    let mut buffer = b"hi there\r\n".to_vec();
    let events = drain_events(&mut codec, &mut buffer);
    assert_eq!(events.len(), 1);
    assert!(matches!(&events[0], TelnetEvent::Data(d) if d == b"hi there"));
}

#[test]
fn decode_partial_line_waits() {
    let mut codec = TelnetCodec::new();
    let mut buffer = b"no newline yet".to_vec();
    assert!(codec.decode(&mut buffer).is_none());
    let mut rest = b" done\n".to_vec();
    let events = drain_events(&mut codec, &mut rest);
    assert_eq!(events.len(), 1);
    assert!(matches!(&events[0], TelnetEvent::Data(d) if d == b"no newline yet done"));
}

#[test]
fn decode_control_sequence() {
    let mut codec = TelnetCodec::new();
    // IAC WILL 31 (window size), then a line.
    let mut buffer = vec![255, 251, 31, b'o', b'k', b'\n'];
    let events = drain_events(&mut codec, &mut buffer);
    assert_eq!(events.len(), 2);
    assert!(matches!(events[0], TelnetEvent::WILL(31)));
    assert!(matches!(&events[1], TelnetEvent::Data(d) if d == b"ok"));
}

#[test]
fn decode_split_invariant_inside_control_sequence() {
    // The same bytes in one chunk...
    let whole: Vec<u8> = vec![b'a', 255, 253, 7, b'b', b'\n', 255, 241];
    let mut codec_a = TelnetCodec::new();
    let mut buffer = whole.clone();
    let unsplit = drain_events(&mut codec_a, &mut buffer);

    // ...and split at every position, including inside IAC DO 7.
    for cut in 0..whole.len() {
        let mut codec_b = TelnetCodec::new();
        let mut first = whole[..cut].to_vec();
        let mut events = drain_events(&mut codec_b, &mut first);
        let mut second = whole[cut..].to_vec();
        events.extend(drain_events(&mut codec_b, &mut second));
        assert_eq!(events.len(), unsplit.len(), "split at {}", cut);
        for (x, y) in events.iter().zip(unsplit.iter()) {
            match (x, y) {
                (TelnetEvent::Data(a), TelnetEvent::Data(b)) => assert_eq!(a, b),
                (TelnetEvent::DO(a), TelnetEvent::DO(b)) => assert_eq!(a, b),
                (TelnetEvent::NOP, TelnetEvent::NOP) => {}
                other => panic!("mismatched events after split at {}: {:?}", cut, other),
            }
        }
    }
}

#[test]
fn decode_drops_bare_command_byte() {
    let mut codec = TelnetCodec::new();
    // A WILL byte with no introducer is malformed and silently discarded.
    let mut buffer = vec![251, b'x', b'\n'];
    let events = drain_events(&mut codec, &mut buffer);
    let lines = data_lines(&events);
    assert_eq!(lines, vec![b"x".to_vec()]);
}

#[test]
fn decode_unknown_control_surfaces_opaquely() {
    let mut codec = TelnetCodec::new();
    // IAC followed by an unknown action byte yields the opaque event.
    let mut buffer = vec![255, 99, b'y', b'\n'];
    let events = drain_events(&mut codec, &mut buffer);
    assert_eq!(events.len(), 2);
    assert!(matches!(events[0], TelnetEvent::IAC));
    assert!(matches!(&events[1], TelnetEvent::Data(d) if d == b"y"));
}

#[test]
fn parse_event_data_run() {
    let mut buffer = b"abc".to_vec();
    let ev = parse_telnet_event(&mut buffer);
    assert!(matches!(ev, Some(TelnetEvent::Data(d)) if d == b"abc"));
    assert!(buffer.is_empty());
}

#[test]
fn parse_event_data_stops_at_introducer() {
    let mut buffer = vec![b'a', b'b', 255, 241];
    let ev = parse_telnet_event(&mut buffer);
    assert!(matches!(ev, Some(TelnetEvent::Data(d)) if d == b"ab"));
    assert_eq!(buffer, vec![255, 241]);
    let ev2 = parse_telnet_event(&mut buffer);
    assert!(matches!(ev2, Some(TelnetEvent::NOP)));
    assert!(buffer.is_empty());
}

#[test]
fn parse_event_incomplete_option_waits() {
    let mut buffer = vec![255, 252];
    assert!(parse_telnet_event(&mut buffer).is_none());
    assert_eq!(buffer, vec![255, 252]);
    buffer.push(3);
    let ev = parse_telnet_event(&mut buffer);
    assert!(matches!(ev, Some(TelnetEvent::WONT(3))));
}

#[test]
fn parse_event_discards_leading_strays() {
    let mut buffer = vec![240, 241, b'z'];
    let ev = parse_telnet_event(&mut buffer);
    assert!(matches!(ev, Some(TelnetEvent::Data(d)) if d == b"z"));
}

#[test]
fn parse_event_empty_buffer() {
    let mut buffer: Vec<u8> = Vec::new();
    assert!(parse_telnet_event(&mut buffer).is_none());
}

#[test]
fn encode_terminates_line() {
    let codec = TelnetCodec::new();
    let mut out: Vec<u8> = Vec::new();
    codec.encode("Welcome, ada", &mut out);
    assert_eq!(out, b"Welcome, ada\n".to_vec());
}

#[test]
fn encode_prompt_has_no_terminator() {
    let codec = TelnetCodec::new();
    let mut out: Vec<u8> = Vec::new();
    codec.encode_prompt(&Prompt::new(String::from("Enter a username: ")), &mut out);
    assert_eq!(out, b"Enter a username: ".to_vec());
}
