//! The texts of the GDB remote protocol: packets, replies and the values in them.
use vstd::prelude::*;
use vstd::utf8::encode_utf8;

use crate::number::{
    digit_char_of, digit_of, digit_value, dec_of, parse_hex, push_dec, push_hex_padded,
    hex_padded_of, read_number,
};
use crate::target::{StopCause, StopReason, TargetError};
use crate::text::{after_prefix, begins, chars_of, push_text, same, starts_with, strip_prefix};
use crate::words::{upper_char, upper_of};

verus! {

/// The outcome of an operation with its error as texts.
pub open spec fn unit_result(r: Result<(), TargetError>) -> Result<(), Seq<Seq<char>>> {
    match r {
        Ok(()) => Ok(()),
        Err(e) => Err(e@),
    }
}

/// A number or the texts of an error.
pub open spec fn word_result(r: Result<u64, TargetError>) -> Result<u64, Seq<Seq<char>>> {
    match r {
        Ok(v) => Ok(v),
        Err(e) => Err(e@),
    }
}

/// Bytes or the texts of an error.
pub open spec fn bytes_result(r: Result<Vec<u8>, TargetError>) -> Result<Seq<u8>, Seq<Seq<char>>> {
    match r {
        Ok(v) => Ok(v@),
        Err(e) => Err(e@),
    }
}

// ---------------------------------------------------------------------------
// Numbers typed by a user

/// The text without a leading `0x`.
pub open spec fn without_0x(value: Seq<char>) -> Seq<char> {
    match after_prefix(value, "0x"@) {
        Some(rest) => rest,
        None => value,
    }
}

/// The number that a hexadecimal text with or without `0x` stands for.
pub open spec fn hex_value_of(value: Seq<char>) -> Result<u64, Seq<Seq<char>>> {
    match read_number(without_0x(value), 16, u64::MAX as nat) {
        Ok(n) => Ok(n as u64),
        Err(fault) => Err(seq!["invalid hex value "@ + value + ": "@ + fault.text()]),
    }
}

/// Parse a hex string with or without a `0x` prefix.
pub fn parse_hex_u64(value: &str) -> (r: Result<u64, TargetError>)
    ensures
        word_result(r) == hex_value_of(value@),
{
    let parsed = match strip_prefix(value, "0x") {
        Some(rest) => parse_hex(rest.as_str()),
        None => parse_hex(value),
    };
    match parsed {
        Ok(n) => Ok(n),
        Err(fault) => {
            let mut message = "invalid hex value ".to_owned();
            push_text(&mut message, value);
            message.append(": ");
            message.append(fault.message());
            Err(TargetError::new(message))
        },
    }
}

// ---------------------------------------------------------------------------
// Hexadecimal bytes

/// The value of an ASCII hex digit.
pub open spec fn nibble_of(b: u8) -> Option<u8> {
    if 48 <= b <= 57 {
        Some((b - 48) as u8)
    } else if 97 <= b <= 102 {
        Some((b - 87) as u8)
    } else if 65 <= b <= 70 {
        Some((b - 55) as u8)
    } else {
        None
    }
}

/// The complaint about a byte that is no hex digit.
pub open spec fn bad_digit(b: u8) -> Seq<Seq<char>> {
    seq!["invalid hex digit: 0x"@ + hex_padded_of(b as nat, 2)]
}

/// The byte that two ASCII hex digits stand for.
pub open spec fn hex_byte_of(high: u8, low: u8) -> Result<u8, Seq<Seq<char>>> {
    match (nibble_of(high), nibble_of(low)) {
        (None, _) => Err(bad_digit(high)),
        (_, None) => Err(bad_digit(low)),
        (Some(h), Some(l)) => Ok((16 * h + l) as u8),
    }
}

/// The bytes that an even number of hex digits stand for, pair by pair from the left.
pub open spec fn hex_pairs_of(digits: Seq<u8>) -> Result<Seq<u8>, Seq<Seq<char>>>
    decreases digits.len(),
{
    if digits.len() < 2 {
        Ok(Seq::empty())
    } else {
        match hex_byte_of(digits[0], digits[1]) {
            Err(e) => Err(e),
            Ok(b) => match hex_pairs_of(digits.skip(2)) {
                Err(e) => Err(e),
                Ok(rest) => Ok(seq![b] + rest),
            },
        }
    }
}

/// The bytes that a text of hex digits stands for.
pub open spec fn hex_bytes_of(hex: Seq<char>) -> Result<Seq<u8>, Seq<Seq<char>>> {
    if encode_utf8(hex).len() % 2 != 0 {
        Err(seq!["hex string has odd length"@])
    } else {
        hex_pairs_of(encode_utf8(hex))
    }
}

/// The two small hex digits of every byte.
pub open spec fn hex_text_of(bytes: Seq<u8>) -> Seq<char> {
    Seq::new(
        2 * bytes.len(),
        |i: int|
            if i % 2 == 0 {
                digit_char_of((bytes[i / 2] / 16) as int)
            } else {
                digit_char_of((bytes[i / 2] % 16) as int)
            },
    )
}

/// Parse one ASCII hex digit.
pub fn hex_nibble(value: u8) -> (r: Result<u8, TargetError>)
    ensures
        match r {
            Ok(n) => nibble_of(value) == Some(n),
            Err(e) => nibble_of(value) is None && e@ == bad_digit(value),
        },
{
    if 48 <= value && value <= 57 {
        Ok(value - 48)
    } else if 97 <= value && value <= 102 {
        Ok(value - 97 + 10)
    } else if 65 <= value && value <= 70 {
        Ok(value - 65 + 10)
    } else {
        let mut message = "invalid hex digit: 0x".to_owned();
        push_hex_padded(&mut message, value as u64, 2);
        Err(TargetError::new(message))
    }
}

/// Parse two ASCII hex digits into one byte.
pub fn parse_hex_byte(high: u8, low: u8) -> (r: Result<u8, TargetError>)
    ensures
        match r {
            Ok(b) => hex_byte_of(high, low) == Ok::<u8, Seq<Seq<char>>>(b),
            Err(e) => hex_byte_of(high, low) == Err::<u8, Seq<Seq<char>>>(e@),
        },
{
    match hex_nibble(high) {
        Err(e) => Err(e),
        Ok(h) => match hex_nibble(low) {
            Err(e) => Err(e),
            Ok(l) => Ok(16 * h + l),
        },
    }
}

proof fn lemma_pairs_err(digits: Seq<u8>, i: int)
    requires
        0 <= i,
        2 * i + 1 < digits.len(),
        forall|j: int| 0 <= j < i ==> hex_byte_of(digits[2 * j], #[trigger] digits[2 * j + 1]) is Ok,
        hex_byte_of(digits[2 * i], digits[2 * i + 1]) is Err,
    ensures
        hex_pairs_of(digits) == Err::<Seq<u8>, Seq<Seq<char>>>(
            hex_byte_of(digits[2 * i], digits[2 * i + 1])->Err_0,
        ),
    decreases i,
{
    if i > 0 {
        let rest = digits.skip(2);
        assert(hex_byte_of(digits[2 * 0int], digits[2 * 0int + 1]) is Ok);
        assert forall|j: int| 0 <= j < i - 1 implies hex_byte_of(
            rest[2 * j],
            #[trigger] rest[2 * j + 1],
        ) is Ok by {
            assert(rest[2 * j + 1] == digits[2 * (j + 1) + 1]);
            assert(rest[2 * j] == digits[2 * (j + 1)]);
        }
        assert(rest[2 * (i - 1)] == digits[2 * i]);
        assert(rest[2 * (i - 1) + 1] == digits[2 * i + 1]);
        lemma_pairs_err(rest, i - 1);
    }
}

proof fn lemma_pairs_ok(digits: Seq<u8>, out: Seq<u8>)
    requires
        digits.len() == 2 * out.len(),
        forall|j: int|
            0 <= j < out.len() ==> hex_byte_of(digits[2 * j], digits[2 * j + 1]) == Ok::<
                u8,
                Seq<Seq<char>>,
            >(#[trigger] out[j]),
    ensures
        hex_pairs_of(digits) == Ok::<Seq<u8>, Seq<Seq<char>>>(out),
    decreases out.len(),
{
    if out.len() == 0 {
        assert(out =~= Seq::<u8>::empty());
    } else {
        let rest = digits.skip(2);
        let tail = out.drop_first();
        assert(hex_byte_of(digits[2 * 0int], digits[2 * 0int + 1]) == Ok::<u8, Seq<Seq<char>>>(out[0]));
        assert forall|j: int| 0 <= j < tail.len() implies hex_byte_of(rest[2 * j], rest[2 * j + 1])
            == Ok::<u8, Seq<Seq<char>>>(#[trigger] tail[j]) by {
            assert(tail[j] == out[j + 1]);
            assert(rest[2 * j + 1] == digits[2 * (j + 1) + 1]);
            assert(rest[2 * j] == digits[2 * (j + 1)]);
        }
        lemma_pairs_ok(rest, tail);
        assert(seq![out[0]] + tail =~= out);
    }
}

/// Decode a hex string into bytes.
pub fn hex_to_bytes(hex: &str) -> (r: Result<Vec<u8>, TargetError>)
    ensures
        bytes_result(r) == hex_bytes_of(hex@),
{
    let digits: &[u8] = hex.as_bytes();
    let count: usize = digits.len();
    if count % 2 != 0 {
        return Err(TargetError::of("hex string has odd length"));
    }
    let mut out: Vec<u8> = Vec::new();
    let mut i: usize = 0;
    while i < count / 2
        invariant
            count == digits@.len(),
            digits@ == encode_utf8(hex@),
            count % 2 == 0,
            i <= count / 2,
            out@.len() == i,
            forall|j: int|
                0 <= j < i ==> hex_byte_of(digits@[2 * j], digits@[2 * j + 1]) == Ok::<
                    u8,
                    Seq<Seq<char>>,
                >(#[trigger] out@[j]),
        decreases count / 2 - i,
    {
        match parse_hex_byte(digits[2 * i], digits[2 * i + 1]) {
            Ok(b) => {
                out.push(b);
            },
            Err(e) => {
                proof {
                    assert forall|j: int| 0 <= j < i implies hex_byte_of(
                        digits@[2 * j],
                        #[trigger] digits@[2 * j + 1],
                    ) is Ok by {
                        assert(hex_byte_of(digits@[2 * j], digits@[2 * j + 1]) == Ok::<
                            u8,
                            Seq<Seq<char>>,
                        >(out@[j]));
                    }
                    lemma_pairs_err(digits@, i as int);
                }
                return Err(e);
            },
        }
        i = i + 1;
    }
    proof {
        lemma_pairs_ok(digits@, out@);
    }
    Ok(out)
}

/// Encode bytes as lowercase hexadecimal.
pub fn bytes_to_hex(bytes: &[u8]) -> (r: String)
    ensures
        r@ == hex_text_of(bytes@),
{
    let mut out = String::new();
    for i in 0..bytes.len()
        invariant
            out@ == hex_text_of(bytes@).take(2 * i),
    {
        push_byte_hex(&mut out, bytes[i]);
        assert(out@ =~= hex_text_of(bytes@).take(2 * (i + 1)));
    }
    assert(hex_text_of(bytes@).take((2 * bytes@.len()) as int) =~= hex_text_of(bytes@));
    out
}

/// Appends the two small hex digits of a byte.
pub fn push_byte_hex(out: &mut String, byte: u8)
    ensures
        final(out)@ == old(out)@.push(digit_char_of((byte / 16) as int)).push(
            digit_char_of((byte % 16) as int),
        ),
{
    let high: u8 = byte / 16;
    let low: u8 = byte % 16;
    out.push(
        if high < 10 {
            (48u8 + high) as char
        } else {
            (87u8 + high) as char
        },
    );
    out.push(
        if low < 10 {
            (48u8 + low) as char
        } else {
            (87u8 + low) as char
        },
    );
}

/// Hex digits are ASCII, so their bytes are the characters themselves.
pub proof fn lemma_hex_text_bytes(bytes: Seq<u8>)
    ensures
        encode_utf8(hex_text_of(bytes)).len() == 2 * bytes.len(),
        forall|j: int|
            0 <= j < bytes.len() ==> hex_byte_of(
                encode_utf8(hex_text_of(bytes))[2 * j],
                encode_utf8(hex_text_of(bytes))[2 * j + 1],
            ) == Ok::<u8, Seq<Seq<char>>>(#[trigger] bytes[j]),
{
    let text = hex_text_of(bytes);
    assert(vstd::utf8::is_ascii_chars(text));
    vstd::utf8::is_ascii_chars_encode_utf8(text);
    assert forall|j: int| 0 <= j < bytes.len() implies hex_byte_of(
        encode_utf8(text)[2 * j],
        encode_utf8(text)[2 * j + 1],
    ) == Ok::<u8, Seq<Seq<char>>>(#[trigger] bytes[j]) by {
        let high = (bytes[j] / 16) as int;
        let low = (bytes[j] % 16) as int;
        assert((2 * j) / 2 == j && (2 * j) % 2 == 0 && (2 * j + 1) / 2 == j && (2 * j + 1) % 2
            == 1);
        assert(text[2 * j] == digit_char_of(high));
        assert(text[2 * j + 1] == digit_char_of(low));
        assert(nibble_of(digit_char_of(high) as u8) == Some(high as u8));
        assert(nibble_of(digit_char_of(low) as u8) == Some(low as u8));
    }
}

/// Bytes written in hexadecimal read back as themselves.
pub proof fn lemma_hex_bytes_round_trip(bytes: Seq<u8>)
    ensures
        hex_bytes_of(hex_text_of(bytes)) == Ok::<Seq<u8>, Seq<Seq<char>>>(bytes),
{
    lemma_hex_text_bytes(bytes);
    lemma_pairs_ok(encode_utf8(hex_text_of(bytes)), bytes);
}

/// Bytes written in hexadecimal with capital letters read back as themselves too.
pub proof fn lemma_upper_hex_reads_back(bytes: Seq<u8>)
    ensures
        hex_bytes_of(upper_of(hex_text_of(bytes))) == Ok::<Seq<u8>, Seq<Seq<char>>>(bytes),
{
    let text = upper_of(hex_text_of(bytes));
    assert(vstd::utf8::is_ascii_chars(text));
    vstd::utf8::is_ascii_chars_encode_utf8(text);
    assert forall|j: int| 0 <= j < bytes.len() implies hex_byte_of(
        encode_utf8(text)[2 * j],
        encode_utf8(text)[2 * j + 1],
    ) == Ok::<u8, Seq<Seq<char>>>(#[trigger] bytes[j]) by {
        let high = (bytes[j] / 16) as int;
        let low = (bytes[j] % 16) as int;
        assert((2 * j) / 2 == j && (2 * j) % 2 == 0 && (2 * j + 1) / 2 == j && (2 * j + 1) % 2
            == 1);
        assert(text[2 * j] == upper_char(digit_char_of(high)));
        assert(text[2 * j + 1] == upper_char(digit_char_of(low)));
        assert(nibble_of(upper_char(digit_char_of(high)) as u8) == Some(high as u8));
        assert(nibble_of(upper_char(digit_char_of(low)) as u8) == Some(low as u8));
    }
    lemma_pairs_ok(encode_utf8(text), bytes);
}

// ---------------------------------------------------------------------------
// Register values

/// The number that four bytes stand for, the least significant first.
pub open spec fn le_word_of(b: Seq<u8>) -> u32 {
    (b[0] + 256 * b[1] + 65536 * b[2] + 16777216 * b[3]) as u32
}

/// The four bytes of a number, the least significant first.
pub open spec fn le_bytes_of(value: u32) -> Seq<u8> {
    seq![
        (value % 256) as u8,
        (value / 256 % 256) as u8,
        (value / 65536 % 256) as u8,
        (value / 16777216) as u8,
    ]
}

/// The number that the first four bytes of a hex text stand for.
pub open spec fn le_hex_of(hex: Seq<char>) -> Result<u32, Seq<Seq<char>>> {
    match hex_bytes_of(hex) {
        Err(e) => Err(e),
        Ok(bytes) => if bytes.len() < 4 {
            Err(seq!["expected at least four bytes in register value"@])
        } else {
            Ok(le_word_of(bytes))
        },
    }
}

/// The number at `at..at + 4`, the least significant byte first.
pub fn le_word_at(bytes: &[u8], at: usize) -> (r: u32)
    requires
        at + 4 <= bytes@.len(),
    ensures
        r == le_word_of(bytes@.skip(at as int)),
{
    let limit: usize = bytes.len();
    assert(bytes@.skip(at as int)[0] == bytes@[at as int]);
    assert(bytes@.skip(at as int)[1] == bytes@[at + 1]);
    assert(bytes@.skip(at as int)[2] == bytes@[at + 2]);
    assert(bytes@.skip(at as int)[3] == bytes@[at + 3]);
    (bytes[at] as u32) + 256 * (bytes[at + 1] as u32) + 65536 * (bytes[at + 2] as u32) + 16777216 * (
    bytes[at + 3] as u32)
}

/// Parse a little-endian u32 encoded as hex bytes.
pub fn parse_le_u32_hex(hex: &str) -> (r: Result<u32, TargetError>)
    ensures
        match r {
            Ok(v) => le_hex_of(hex@) == Ok::<u32, Seq<Seq<char>>>(v),
            Err(e) => le_hex_of(hex@) == Err::<u32, Seq<Seq<char>>>(e@),
        },
{
    match hex_to_bytes(hex) {
        Err(e) => Err(e),
        Ok(bytes) => {
            if bytes.len() < 4 {
                Err(TargetError::of("expected at least four bytes in register value"))
            } else {
                assert(bytes@.skip(0) =~= bytes@);
                Ok(le_word_at(bytes.as_slice(), 0))
            }
        },
    }
}

/// Convert a u32 to little-endian bytes.
pub fn u32_to_le_bytes(value: u32) -> (r: [u8; 4])
    ensures
        r@ == le_bytes_of(value),
{
    let r: [u8; 4] = [
        (value % 256) as u8,
        (value / 256 % 256) as u8,
        (value / 65536 % 256) as u8,
        (value / 16777216) as u8,
    ];
    assert(r@ =~= le_bytes_of(value));
    r
}

/// A number split into bytes is put together again.
pub proof fn lemma_le_bytes(value: u32)
    ensures
        le_word_of(le_bytes_of(value)) == value,
        le_bytes_of(value).len() == 4,
{
}

/// A register value written as hex bytes reads back as itself.
pub proof fn lemma_register_round_trip(value: u32)
    ensures
        le_hex_of(hex_text_of(le_bytes_of(value))) == Ok::<u32, Seq<Seq<char>>>(value),
{
    lemma_le_bytes(value);
    lemma_hex_bytes_round_trip(le_bytes_of(value));
}

// ---------------------------------------------------------------------------
// Replies

/// Whether a reply reports an error.
pub open spec fn is_error_reply(response: Seq<char>) -> bool {
    begins(response, "E"@)
}

/// What a reply that must be `OK` means.
pub open spec fn ok_of(response: Seq<char>) -> Result<(), Seq<Seq<char>>> {
    if response == "OK"@ {
        Ok(())
    } else if is_error_reply(response) {
        Err(seq!["remote target returned error: "@ + response])
    } else {
        Err(seq!["unexpected remote target response: "@ + response])
    }
}

/// Require a GDB remote `OK` response.
pub fn expect_ok(response: &str) -> (r: Result<(), TargetError>)
    ensures
        unit_result(r) == ok_of(response@),
{
    if same(response, "OK") {
        Ok(())
    } else {
        let mut message = if starts_with(response, "E") {
            "remote target returned error: ".to_owned()
        } else {
            "unexpected remote target response: ".to_owned()
        };
        push_text(&mut message, response);
        Err(TargetError::new(message))
    }
}

/// The number in the first two hex digits of a text.
pub open spec fn signal_byte_of(value: Seq<char>) -> Option<u8> {
    if value.len() < 2 {
        None
    } else {
        match (digit_of(value[0], 16), digit_of(value[1], 16)) {
            (Some(h), Some(l)) => Some((16 * h + l) as u8),
            _ => None,
        }
    }
}

/// Parse the first two hex characters as a signal number.
pub fn first_signal_byte(value: &str) -> (r: Option<u8>)
    ensures
        r == signal_byte_of(value@),
{
    let a = chars_of(value);
    if a.len() < 2 {
        return None;
    }
    match (digit_value(a[0], 16), digit_value(a[1], 16)) {
        (Some(h), Some(l)) => Some((16 * h + l) as u8),
        _ => None,
    }
}

/// The name of a common signal number.
pub open spec fn signal_name_of(code: u8) -> Seq<char> {
    if code == 2 {
        "SIGINT"@
    } else if code == 3 {
        "SIGQUIT"@
    } else if code == 5 {
        "SIGTRAP"@
    } else if code == 6 {
        "SIGABRT"@
    } else if code == 11 {
        "SIGSEGV"@
    } else {
        "unknown"@
    }
}

/// Map common signal numbers to names.
pub fn signal_name(code: u8) -> (r: &'static str)
    ensures
        r@ == signal_name_of(code),
{
    if code == 2 {
        "SIGINT"
    } else if code == 3 {
        "SIGQUIT"
    } else if code == 5 {
        "SIGTRAP"
    } else if code == 6 {
        "SIGABRT"
    } else if code == 11 {
        "SIGSEGV"
    } else {
        "unknown"
    }
}

/// A signal number with its name.
pub open spec fn signal_label_of(code: u8) -> Seq<char> {
    dec_of(code as nat) + " ("@ + signal_name_of(code) + ")"@
}

/// A signal number with its name.
fn signal_label(code: u8) -> (r: String)
    ensures
        r@ == signal_label_of(code),
{
    let mut out = String::new();
    push_dec(&mut out, code as u64);
    assert(out@ =~= dec_of(code as nat));
    out.append(" (");
    out.append(signal_name(code));
    out.append(")");
    out
}

/// The number behind the letter of a stop reply.
pub open spec fn code_after(reply: Seq<char>, letter: Seq<char>) -> Option<u8> {
    match after_prefix(reply, letter) {
        Some(rest) => signal_byte_of(rest),
        None => None,
    }
}

/// What a stop reply says.
pub open spec fn stop_cause_of(reply: Seq<char>) -> StopCause {
    if let Some(code) = code_after(reply, "S"@) {
        StopCause::Signal(signal_label_of(code))
    } else if let Some(code) = code_after(reply, "T"@) {
        StopCause::Signal(signal_label_of(code))
    } else if let Some(code) = code_after(reply, "W"@) {
        StopCause::Exited(code as i32)
    } else if let Some(code) = code_after(reply, "X"@) {
        StopCause::Terminated(signal_label_of(code))
    } else {
        StopCause::Other("Remote stop reply: "@ + reply)
    }
}

fn signal_after(reply: &str, letter: &str) -> (r: Option<u8>)
    ensures
        r == code_after(reply@, letter@),
{
    match strip_prefix(reply, letter) {
        Some(rest) => first_signal_byte(rest.as_str()),
        None => None,
    }
}

/// Convert a remote stop reply into shared target state.
pub fn stop_reason_from_reply(reply: &str) -> (r: StopReason)
    ensures
        r@ == stop_cause_of(reply@),
{
    if let Some(code) = signal_after(reply, "S") {
        return StopReason::Signal(signal_label(code));
    }
    if let Some(code) = signal_after(reply, "T") {
        return StopReason::Signal(signal_label(code));
    }
    if let Some(code) = signal_after(reply, "W") {
        return StopReason::Exited(code as i32);
    }
    if let Some(code) = signal_after(reply, "X") {
        return StopReason::Terminated(signal_label(code));
    }
    let mut message = "Remote stop reply: ".to_owned();
    push_text(&mut message, reply);
    StopReason::Other(message)
}

/// Format a remote stop reply for printing.
pub fn format_stop_reply(reply: &str) -> (r: String)
    ensures
        r@ == stop_cause_of(reply@).text(),
{
    stop_reason_from_reply(reply).message()
}

/// A stop reply reports that the program is gone.
pub open spec fn is_exit_reply(reply: Seq<char>) -> bool {
    begins(reply, "W"@) || begins(reply, "X"@)
}

/// Check whether a remote stop reply means the target exited.
pub fn stop_reply_is_exit(reply: &str) -> (r: bool)
    ensures
        r == is_exit_reply(reply@),
{
    starts_with(reply, "W") || starts_with(reply, "X")
}

/// A packet of console output: `O` and the hex digits of any number of bytes, also of none.
pub open spec fn is_console_output(packet: Seq<char>) -> bool {
    &&& begins(packet, "O"@)
    &&& (packet.len() - 1) % 2 == 0
    &&& forall|i: int| 1 <= i < packet.len() ==> digit_of(#[trigger] packet[i], 16) is Some
}

/// `O` packets carry console output; `OK` is a normal success reply.
///
/// OpenOCD can emit a bare `O` packet with no payload, so treat it as console
/// output and keep waiting for the actual command response.
pub fn is_console_output_packet(packet: &str) -> (r: bool)
    ensures
        r == is_console_output(packet@),
{
    if !starts_with(packet, "O") {
        return false;
    }
    proof {
        reveal_strlit("O");
    }
    let a = chars_of(packet);
    if (a.len() - 1) % 2 != 0 {
        return false;
    }
    for i in 1..a.len()
        invariant
            a@ == packet@,
            forall|j: int| 1 <= j < i ==> digit_of(#[trigger] a@[j], 16) is Some,
    {
        if digit_value(a[i], 16).is_none() {
            return false;
        }
    }
    true
}

// ---------------------------------------------------------------------------
// Packets

/// The sum of all bytes.
pub open spec fn byte_sum(payload: Seq<u8>) -> nat
    decreases payload.len(),
{
    if payload.len() == 0 {
        0
    } else {
        byte_sum(payload.drop_last()) + payload.last() as nat
    }
}

/// The sum of all bytes, modulo 256.
pub open spec fn checksum_of(payload: Seq<u8>) -> u8 {
    (byte_sum(payload) % 256) as u8
}

/// Compute the GDB remote checksum for a payload.
pub fn packet_checksum(payload: &[u8]) -> (r: u8)
    ensures
        r == checksum_of(payload@),
{
    let mut sum: u8 = 0;
    assert(payload@.take(0) =~= Seq::<u8>::empty());
    for i in 0..payload.len()
        invariant
            sum == byte_sum(payload@.take(i as int)) % 256,
    {
        assert(payload@.take(i + 1).drop_last() =~= payload@.take(i as int));
        sum = sum.wrapping_add(payload[i]);
    }
    assert(payload@.take(payload@.len() as int) =~= payload@);
    sum
}

/// A payload in packet framing: `$`, the payload, `#` and two checksum digits.
pub open spec fn packet_of(payload: Seq<char>) -> Seq<char> {
    seq!['$'] + payload + seq!['#'] + hex_text_of(seq![checksum_of(encode_utf8(payload))])
}

/// Wrap a payload in GDB remote packet framing.
pub fn encode_packet(payload: &str) -> (r: String)
    ensures
        r@ == packet_of(payload@),
{
    let sum: u8 = packet_checksum(payload.as_bytes());
    let mut out = String::new();
    out.push('$');
    push_text(&mut out, payload);
    out.push('#');
    push_byte_hex(&mut out, sum);
    assert(out@ =~= packet_of(payload@));
    out
}

} // verus!
