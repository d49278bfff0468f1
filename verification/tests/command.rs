use fanwatch::command::{
    encode_response, handle_command, parse_command, parse_keyword, CommandError,
};
use fanwatch::action::Action;
use fanwatch::entry::EventEntry;
use fanwatch::flags::Opt;
use fanwatch::record::ByteOrder;

fn response(code: u32, fd: i32) -> Vec<u8> {
    let mut bytes = fd.to_le_bytes().to_vec();
    bytes.extend(code.to_le_bytes());
    bytes
}

#[test]
fn allow_is_answered_and_the_descriptor_released() {
    assert_eq!(
        handle_command(8, "ALLOW 7\n", ByteOrder::Little),
        Ok(vec![Action::Respond(response(libc::FAN_ALLOW, 7)), Action::Close(7)])
    );
    assert_eq!(
        handle_command(7, "ALLOW 7", ByteOrder::Little),
        Ok(vec![Action::Respond(vec![7, 0, 0, 0, 1, 0, 0, 0]), Action::Close(7)])
    );
}

#[test]
fn a_bogus_line_is_rejected_and_nothing_is_written() {
    assert_eq!(handle_command(5, "bogus", ByteOrder::Little), Err(CommandError::InvalidInput));
    assert_eq!(handle_command(6, "bogus\n", ByteOrder::Little), Err(CommandError::InvalidInput));
}

#[test]
fn deny_is_answered_for_a_held_descriptor() {
    let held = EventEntry {
        mask: libc::FAN_OPEN_PERM,
        fd: Some(9),
        pid: Some(42),
        path: Some(b"/tmp/watched/f".to_vec()),
    };
    let opt = Opt {
        events: None,
        namespace: None,
        recursive: false,
        mount: false,
        filesystem: false,
        paths: vec![],
    };
    assert_eq!(
        held.plan(&opt),
        vec![Action::Emit(b"FAN_OPEN_PERM\t9\t42\t/tmp/watched/f\n".to_vec())]
    );
    assert_eq!(
        handle_command(7, "DENY 9\n", ByteOrder::Little),
        Ok(vec![Action::Respond(response(libc::FAN_DENY, 9)), Action::Close(9)])
    );
    assert_eq!(
        handle_command(7, "DENY 9\n", ByteOrder::Big),
        Ok(vec![Action::Respond(vec![0, 0, 0, 9, 0, 0, 0, 2]), Action::Close(9)])
    );
}

#[test]
fn the_end_of_the_channel_is_an_error() {
    assert_eq!(handle_command(0, "", ByteOrder::Little), Err(CommandError::EndOfInput));
    assert_eq!(handle_command(0, "ALLOW 7\n", ByteOrder::Little), Err(CommandError::EndOfInput));
}

#[test]
fn an_empty_line_is_no_end_of_the_channel() {
    assert_eq!(handle_command(1, "\n", ByteOrder::Little), Err(CommandError::InvalidInput));
    assert_eq!(handle_command(1, "", ByteOrder::Little), Err(CommandError::InvalidInput));
}

#[test]
fn keywords_are_the_names_without_their_prefix() {
    assert_eq!(parse_keyword("ALLOW").unwrap().name, "FAN_ALLOW");
    assert_eq!(parse_keyword("DENY").unwrap().name, "FAN_DENY");
    assert_eq!(parse_keyword("ALLOW").unwrap().bits, libc::FAN_ALLOW as u64);
    assert_eq!(parse_keyword("DENY").unwrap().bits, libc::FAN_DENY as u64);
    for word in ["", "allow", "Allow", "ALLOW ", "FAN_ALLOW", "FAN_DENY", "DENIED", "OPEN", "_ALLOW"] {
        assert_eq!(parse_keyword(word), None);
    }
}

#[test]
fn commands_that_are_read() {
    let allow = parse_keyword("ALLOW").unwrap();
    let deny = parse_keyword("DENY").unwrap();
    assert_eq!(parse_command("ALLOW 7"), Some((allow, 7)));
    assert_eq!(parse_command("DENY 9"), Some((deny, 9)));
    assert_eq!(parse_command("ALLOW\t12\n"), Some((allow, 12)));
    assert_eq!(parse_command("ALLOW 7 and more"), Some((allow, 7)));
    assert_eq!(parse_command("DENY +3"), Some((deny, 3)));
    assert_eq!(parse_command("DENY -1"), Some((deny, -1)));
    assert_eq!(parse_command("DENY 2147483647"), Some((deny, i32::MAX)));
    assert_eq!(parse_command("ALLOW\u{a0}5"), Some((allow, 5)));
}

#[test]
fn lines_that_are_no_command() {
    for line in [
        "",
        "\n",
        "ALLOW",
        "ALLOW\n",
        "ALLOW ",
        "ALLOW  7",
        " ALLOW 7",
        "7 ALLOW",
        "ALLOW seven",
        "ALLOW 7x",
        "ALLOW 2147483648",
        "allow 7",
        "FAN_ALLOW 7",
        "ALLOW,7",
        "bogus",
        "bogus 7",
    ] {
        assert_eq!(parse_command(line), None);
        assert_eq!(
            handle_command(line.len().max(1), line, ByteOrder::Little),
            Err(CommandError::InvalidInput)
        );
    }
}

#[test]
fn the_response_record_is_that_of_the_kernel() {
    assert_eq!(std::mem::size_of::<libc::fanotify_response>(), 8);
    let record = encode_response(libc::FAN_DENY, 0x0102_0304, ByteOrder::Little);
    assert_eq!(record, vec![4, 3, 2, 1, 2, 0, 0, 0]);
    let record = encode_response(libc::FAN_ALLOW, -1, ByteOrder::Big);
    assert_eq!(record, vec![0xff, 0xff, 0xff, 0xff, 0, 0, 0, 1]);
    let template = libc::fanotify_response { fd: 7, response: libc::FAN_ALLOW };
    let mut native = template.fd.to_ne_bytes().to_vec();
    native.extend(template.response.to_ne_bytes());
    let order =
        if u16::from_ne_bytes([1, 0]) == 1 { ByteOrder::Little } else { ByteOrder::Big };
    assert_eq!(encode_response(template.response, template.fd, order), native);
}
