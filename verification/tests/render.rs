use errno_msg::engine::{
    is_utf8_codeset, render_all_escaped, render_utf8_native, ConvStatus, Transcoder,
};
use errno_msg::widemsg::{fallback_code_text, render_wide_message, trim_trailing_newlines};
use errno_msg::{errno, set_errno, Errno};

#[test]
fn errno_after_set_errno() {
    let codes: [i32; 6] = [1, 42, 13, -1, i32::MAX, i32::MIN];
    for &e in codes.iter() {
        set_errno(Errno(e));
        assert_eq!(errno(), Errno(e));
    }
    set_errno(Errno(0));
    assert_eq!(errno(), Errno(0));
}

#[test]
fn errno_value_semantics() {
    assert_eq!(Errno(5), Errno(5));
    assert_ne!(Errno(5), Errno(6));
    assert!(Errno(2) < Errno(3));
    let e = Errno(7);
    let f = e;
    assert_eq!(e.0, f.0);
}

#[test]
fn fast_path_ascii_message() {
    let out = render_utf8_native(b"Permission denied");
    assert_eq!(out, b"Permission denied".to_vec());
}

#[test]
fn fast_path_multibyte_passthrough() {
    let msg = "\u{8a31}\u{53ef}\u{304c}\u{3042}\u{308a}\u{307e}\u{305b}\u{3093}";
    let out = render_utf8_native(msg.as_bytes());
    assert_eq!(out, msg.as_bytes().to_vec());
}

#[test]
fn fast_path_empty_message() {
    let out = render_utf8_native(b"");
    assert_eq!(out, Vec::<u8>::new());
}

#[test]
fn fast_path_escapes_invalid_lead_byte() {
    let out = render_utf8_native(&[0xff, 0x41]);
    assert_eq!(out, b"\\xffA".to_vec());
}

#[test]
fn fast_path_escapes_lone_continuation_and_truncated_sequence() {
    // A continuation byte with no lead, then a two-byte lead with no tail.
    let out = render_utf8_native(&[0x80, 0x41, 0xc3]);
    assert_eq!(out, b"\\x80A\\xc3".to_vec());
    // An overlong two-byte form is rejected byte by byte.
    let out = render_utf8_native(&[0xc0, 0xaf]);
    assert_eq!(out, b"\\xc0\\xaf".to_vec());
}

#[test]
fn degraded_path_escapes_everything() {
    let out = render_all_escaped(&[0x01, 0x41, 0xff]);
    assert_eq!(out, b"\\x01\\x41\\xff".to_vec());
    assert_eq!(render_all_escaped(&[]), Vec::<u8>::new());
}

#[test]
fn escape_tokens_do_not_depend_on_context() {
    let alone = render_all_escaped(&[0xff]);
    let surrounded = render_all_escaped(&[0x01, 0xff, 0x02]);
    assert_eq!(&surrounded[4..8], &alone[..]);
    let fast = render_utf8_native(&[0x41, 0xff, 0x42]);
    assert_eq!(&fast[1..5], &alone[..]);
}

#[test]
fn engine_converts_without_escapes() {
    // A native-encoded message whose characters all convert: one invocation
    // consumes the whole input and produces its UTF-8 form.
    let native: Vec<u8> = vec![0xb5, 0xf6, 0xb2, 0xc4];
    let produced = "\u{8a31}\u{53ef}".as_bytes();
    let mut t = Transcoder::new(native);
    assert!(!t.is_done());
    t.step(4, produced, ConvStatus::Converted);
    assert!(t.is_done());
    assert_eq!(t.position(), 4);
    assert_eq!(t.into_output(), produced.to_vec());
}

#[test]
fn engine_escapes_invalid_lead_byte_then_converts() {
    // Raw bytes 0xFF 0x41 where 0xFF begins no character: the engine escapes
    // exactly that byte, then the converter resumes at the following byte.
    let mut t = Transcoder::new(vec![0xff, 0x41]);
    t.step(0, &[], ConvStatus::Unconvertible);
    assert!(!t.is_done());
    assert_eq!(t.position(), 1);
    t.step(1, b"A", ConvStatus::Converted);
    assert!(t.is_done());
    assert_eq!(t.into_output(), b"\\xffA".to_vec());
}

#[test]
fn engine_flushes_before_escaping() {
    // The converter consumed two bytes and produced text before stopping at
    // an undecodable byte: the produced text is flushed first, so output
    // order matches input order.
    let mut t = Transcoder::new(vec![0x41, 0x42, 0xff, 0x43]);
    t.step(2, b"AB", ConvStatus::Unconvertible);
    assert_eq!(t.position(), 3);
    t.step(1, b"C", ConvStatus::Converted);
    assert_eq!(t.into_output(), b"AB\\xffC".to_vec());
}

#[test]
fn engine_empty_message() {
    let mut t = Transcoder::new(Vec::new());
    t.step(0, &[], ConvStatus::Converted);
    assert!(t.is_done());
    assert_eq!(t.output().len(), 0);
}

#[test]
fn engine_all_escapes() {
    // A message of nothing but undecodable bytes: a run of escape tokens with
    // no decoded text between them.
    let mut t = Transcoder::new(vec![0xfe, 0xff]);
    t.step(0, &[], ConvStatus::Unconvertible);
    t.step(0, &[], ConvStatus::Unconvertible);
    t.step(0, &[], ConvStatus::Converted);
    assert_eq!(t.into_output(), b"\\xfe\\xff".to_vec());
}

#[test]
fn buffer_boundary_is_invisible() {
    // The same conversion reported as one full-buffer flush mid-message and
    // then the rest, versus one whole chunk: identical output. The input
    // boundary falls between two multi-byte characters the converter's own
    // state carries across; each flushed chunk is whole characters.
    let msg: Vec<u8> = vec![0xb5, 0xf6, 0xb2, 0xc4];
    let produced = "\u{8a31}\u{53ef}".as_bytes();

    let mut whole = Transcoder::new(msg.clone());
    whole.step(4, produced, ConvStatus::Converted);

    let mut split = Transcoder::new(msg);
    split.step(2, &produced[..3], ConvStatus::OutputFull);
    split.step(2, &produced[3..], ConvStatus::Converted);

    assert_eq!(whole.into_output(), split.into_output());
}

#[test]
fn utf8_codeset_detection_is_exact() {
    assert!(is_utf8_codeset(b"UTF-8\0"));
    assert!(!is_utf8_codeset(b"UTF-8"));
    assert!(!is_utf8_codeset(b"utf-8\0"));
    assert!(!is_utf8_codeset(b"EUC-JP\0"));
    assert!(!is_utf8_codeset(b"UTF-8\0\0"));
    assert!(!is_utf8_codeset(b""));
}

#[test]
fn fallback_text_is_zero_padded_lowercase_hex() {
    assert_eq!(fallback_code_text(0), b"error 0x0000".to_vec());
    assert_eq!(fallback_code_text(5), b"error 0x0005".to_vec());
    assert_eq!(fallback_code_text(0xab), b"error 0x00ab".to_vec());
    assert_eq!(fallback_code_text(0x12345), b"error 0x12345".to_vec());
    assert_eq!(fallback_code_text(0xffffffff), b"error 0xffffffff".to_vec());
}

#[test]
fn wide_message_trimming() {
    let units: [u16; 4] = [72, 105, 13, 10];
    assert_eq!(trim_trailing_newlines(&units), 2);
    assert_eq!(trim_trailing_newlines(&[13, 10, 13]), 0);
    assert_eq!(trim_trailing_newlines(&[72]), 1);
    assert_eq!(trim_trailing_newlines(&[]), 0);
}

#[test]
fn wide_message_rendering() {
    let units: [u16; 4] = [72, 105, 13, 10];
    assert_eq!(render_wide_message(&units), "Hi");
    // An unpaired surrogate decodes to the replacement character.
    let bad: [u16; 1] = [0xd800];
    assert_eq!(render_wide_message(&bad), "\u{fffd}");
    let empty: [u16; 0] = [];
    assert_eq!(render_wide_message(&empty), "");
}

#[test]
fn escape_token_exact_for_every_byte() {
    for b in 0..=255u8 {
        let out = render_all_escaped(&[b]);
        assert_eq!(out, format!("\\x{:02x}", b).into_bytes());
    }
}
