use linux_debugger::arm_target::debugger::{core_register_values, normalize_thumb_addr};
use linux_debugger::arm_target::gdb_protocol::{
    bytes_to_hex, encode_packet, expect_ok, first_signal_byte, format_stop_reply, hex_to_bytes,
    is_console_output_packet, packet_checksum, parse_hex_u64, parse_le_u32_hex, signal_name,
    stop_reply_is_exit, u32_to_le_bytes,
};
use linux_debugger::arm_target::link::{GdbRemoteConnection, PacketReader, Received};
use linux_debugger::arm_target::registers::{arm_register_from_name, core_reg};

#[test]
fn encodes_gdb_packet_checksum() {
    assert_eq!(encode_packet("qSupported"), "$qSupported#37");
}

#[test]
fn parses_little_endian_register_hex() {
    assert_eq!(parse_le_u32_hex("78563412").unwrap(), 0x12345678);
}

#[test]
fn recognizes_bare_console_output_packet() {
    assert!(is_console_output_packet("O"));
    assert!(is_console_output_packet("O4869"));
    assert!(!is_console_output_packet("OK"));
}

#[test]
fn normalizes_thumb_addresses() {
    assert_eq!(normalize_thumb_addr(0x08000101), 0x08000100);
}

#[test]
fn an_even_address_is_its_own_normal_form() {
    assert_eq!(normalize_thumb_addr(0x08000100), 0x08000100);
    assert_eq!(normalize_thumb_addr(normalize_thumb_addr(3)), 2);
}

#[test]
fn the_checksum_wraps() {
    assert_eq!(packet_checksum(b""), 0);
    assert_eq!(packet_checksum(&[0xff, 0x02]), 1);
    assert_eq!(encode_packet("OK"), "$OK#9a");
}

#[test]
fn hexadecimal_bytes_read_back() {
    let bytes = vec![0x00, 0x7f, 0x80, 0xff];
    assert_eq!(bytes_to_hex(&bytes), "007f80ff");
    assert_eq!(hex_to_bytes("007f80ff").unwrap(), bytes);
    assert_eq!(hex_to_bytes("007F80FF").unwrap(), bytes);
    assert_eq!(u32_to_le_bytes(0x12345678), [0x78, 0x56, 0x34, 0x12]);
    assert_eq!(
        parse_le_u32_hex(&bytes_to_hex(&u32_to_le_bytes(0xdeadbeef))).unwrap(),
        0xdeadbeef
    );
}

#[test]
fn malformed_hexadecimal_is_refused() {
    assert!(hex_to_bytes("123").is_err());
    assert_eq!(
        hex_to_bytes("0g").err().unwrap().message(),
        "invalid hex digit: 0x67"
    );
    assert!(parse_le_u32_hex("1234").is_err());
    assert_eq!(parse_hex_u64("0x20").unwrap(), 0x20);
    assert_eq!(parse_hex_u64("20").unwrap(), 0x20);
    assert_eq!(
        parse_hex_u64("xyz").err().unwrap().message(),
        "invalid hex value xyz: invalid digit found in string"
    );
    assert_eq!(
        parse_hex_u64("0x").err().unwrap().message(),
        "invalid hex value 0x: cannot parse integer from empty string"
    );
    assert_eq!(
        parse_hex_u64("0x10000000000000000").err().unwrap().message(),
        "invalid hex value 0x10000000000000000: number too large to fit in target type"
    );
}

#[test]
fn only_ok_is_ok() {
    assert!(expect_ok("OK").is_ok());
    assert!(expect_ok("E01").is_err());
    assert!(expect_ok("").is_err());
    assert!(expect_ok("T05").is_err());
}

#[test]
fn stop_replies_are_put_into_words() {
    assert_eq!(first_signal_byte("05"), Some(5));
    assert_eq!(first_signal_byte("x"), None);
    assert_eq!(signal_name(5), "SIGTRAP");
    assert!(format_stop_reply("S05").contains("SIGTRAP"));
    assert!(format_stop_reply("T05thread:01;").contains("SIGTRAP"));
    assert_eq!(format_stop_reply("W02"), "Exited with 2");
    assert!(stop_reply_is_exit("W00"));
    assert!(stop_reply_is_exit("X09"));
    assert!(!stop_reply_is_exit("S05"));
}

#[test]
fn core_registers_have_names() {
    assert_eq!(core_reg(0).name, "r0");
    assert_eq!(arm_register_from_name("pc").unwrap().index, 15);
    assert_eq!(arm_register_from_name("r15").unwrap().index, 15);
    assert_eq!(arm_register_from_name("sp").unwrap().index, 13);
    assert_eq!(arm_register_from_name("lr").unwrap().index, 14);
    assert!(arm_register_from_name("r99").is_none());
}

#[test]
fn a_register_block_is_cut_into_words() {
    assert_eq!(
        core_register_values(&[1, 0, 0, 0, 0, 1, 0, 0, 9]),
        vec![1, 0x100]
    );
    assert_eq!(core_register_values(&[1, 2, 3]), Vec::<u64>::new());
}

/// What a reader makes of bytes: the first thing that is not a part of a packet.
fn received(bytes: &[u8]) -> Option<Received> {
    let mut reader = PacketReader::new();
    for byte in bytes {
        match reader.receive(*byte) {
            Received::More => {}
            other => return Some(other),
        }
    }
    None
}

#[test]
fn a_reader_gives_back_what_was_encoded() {
    for payload in ["", "OK", "qSupported", "m8000000,4", "gr\u{fc}n"] {
        let packet = encode_packet(payload);
        match received(packet.as_bytes()) {
            Some(Received::Complete(Ok(text))) => assert_eq!(text, payload),
            other => panic!("{other:?}"),
        }
    }
}

#[test]
fn a_reader_skips_what_comes_before_a_packet() {
    match received(b"++noise$OK#9a") {
        Some(Received::Complete(Ok(text))) => assert_eq!(text, "OK"),
        other => panic!("{other:?}"),
    }
}

#[test]
fn a_reader_refuses_bad_checksums() {
    assert!(matches!(received(b"$OK#00"), Some(Received::Corrupt(_))));
    assert!(matches!(received(b"$OK#zz"), Some(Received::Malformed(_))));
    let mut packet = b"$".to_vec();
    packet.push(0xff);
    packet.extend_from_slice(b"#ff");
    assert!(matches!(received(&packet), Some(Received::Complete(Err(_)))));
    assert!(received(b"$OK#9").is_none());
}

/// Feeds bytes to an exchange: all that is written, and the outcome.
fn exchange(
    mut link: GdbRemoteConnection,
    bytes: &[u8],
) -> (Vec<u8>, Option<Result<String, String>>) {
    let mut written = Vec::new();
    for byte in bytes {
        let step = link.on_byte(*byte);
        written.extend_from_slice(&step.write);
        if let Some(outcome) = step.outcome {
            return (written, Some(outcome.map_err(|e| e.describe())));
        }
    }
    (written, None)
}

#[test]
fn an_exchange_acknowledges_the_response() {
    let link = GdbRemoteConnection::send_packet("?");
    assert_eq!(link.packet, b"$?#3f");
    let (written, outcome) = exchange(link, b"+$S05#b8");
    assert_eq!(written, b"+");
    assert_eq!(outcome, Some(Ok("S05".to_string())));
}

#[test]
fn a_refused_packet_is_sent_again() {
    let (written, outcome) = exchange(GdbRemoteConnection::send_packet("?"), b"-+$OK#9a");
    assert_eq!(written, b"$?#3f+");
    assert_eq!(outcome, Some(Ok("OK".to_string())));
}

#[test]
fn a_wrong_checksum_is_refused() {
    let (written, outcome) = exchange(GdbRemoteConnection::send_packet("?"), b"+$OK#00$OK#9a");
    assert_eq!(written, b"-");
    assert_eq!(
        outcome,
        Some(Err("bad GDB remote checksum: expected 0x00, got 0x9a".to_string()))
    );
}

#[test]
fn registers_are_named_in_any_case() {
    for index in 0..17 {
        let name = core_reg(index).name.to_ascii_uppercase();
        assert_eq!(arm_register_from_name(&name).unwrap().index, index);
    }
    assert_eq!(arm_register_from_name("XpSr").unwrap().index, 16);
}

#[test]
fn three_refusals_end_an_exchange() {
    let (written, outcome) = exchange(GdbRemoteConnection::send_packet("?"), b"---");
    assert_eq!(written, b"$?#3f$?#3f");
    assert!(matches!(outcome, Some(Err(_))));
}

#[test]
fn console_output_is_skipped_in_an_exchange() {
    let mut bytes = b"+".to_vec();
    bytes.extend_from_slice(encode_packet("O4869").as_bytes());
    bytes.extend_from_slice(encode_packet("OK").as_bytes());
    let (written, outcome) = exchange(GdbRemoteConnection::send_packet("qRcmd,00"), &bytes);
    assert_eq!(written, b"++");
    assert_eq!(outcome, Some(Ok("OK".to_string())));
}

#[test]
fn a_packet_that_is_waited_for_may_be_console_output() {
    let bytes = encode_packet("O4869");
    let (written, outcome) = exchange(GdbRemoteConnection::read_packet(), bytes.as_bytes());
    assert_eq!(written, b"+");
    assert_eq!(outcome, Some(Ok("O4869".to_string())));
}

#[test]
fn an_interrupt_is_one_byte() {
    let link = GdbRemoteConnection::interrupt();
    assert_eq!(link.packet, vec![3]);
    let (_, outcome) = exchange(link, b"$T02#b6");
    assert_eq!(outcome, Some(Ok("T02".to_string())));
}

#[test]
fn a_corrupt_response_is_refused() {
    let (written, _) = exchange(GdbRemoteConnection::send_packet("?"), b"+$OK#00");
    assert_eq!(written, b"-");
}

#[test]
fn a_response_that_is_no_text_is_acknowledged_and_refused() {
    let (written, outcome) = exchange(GdbRemoteConnection::send_packet("?"), b"+$\xff#ff");
    assert_eq!(written, b"+");
    assert_eq!(
        outcome,
        Some(Err(
            "invalid utf-8 sequence of 1 bytes from index 0".to_string()
        ))
    );
}
