use screenshare::h264::{H264Error, H264Reader, NalPoll, NAL};

fn reader_with(bytes: &[u8]) -> H264Reader {
    let mut r = H264Reader::new();
    r.push_input(bytes);
    r
}

fn expect_nal(p: NalPoll) -> NAL {
    match p {
        NalPoll::Ready(Ok(nal)) => nal,
        NalPoll::Ready(Err(e)) => panic!("unexpected error {:?}", e),
        NalPoll::NeedInput => panic!("unexpected NeedInput"),
    }
}

fn expect_eof(p: NalPoll) -> String {
    match p {
        NalPoll::Ready(Err(H264Error::ErrIoEOF(m))) => m,
        _ => panic!("expected ErrIoEOF"),
    }
}

fn expect_not_h264(p: NalPoll) -> String {
    match p {
        NalPoll::Ready(Err(H264Error::ErrDataIsNotH264Stream(m))) => m,
        _ => panic!("expected ErrDataIsNotH264Stream"),
    }
}

/// Reads every unit of `stream` fed in chunks of `chunk` bytes, the source
/// ending after the last chunk.
fn read_all(stream: &[u8], chunk: usize) -> (Vec<Vec<u8>>, String) {
    let mut r = H264Reader::new();
    let mut pos = 0;
    let mut ended = false;
    let mut out = Vec::new();
    loop {
        match r.next_nal(ended) {
            NalPoll::NeedInput => {
                if pos >= stream.len() {
                    ended = true;
                } else {
                    let end = std::cmp::min(pos + chunk, stream.len());
                    r.push_input(&stream[pos..end]);
                    pos = end;
                }
            }
            NalPoll::Ready(Ok(nal)) => {
                out.push(nal.data.to_vec());
                ended = false;
            }
            NalPoll::Ready(Err(H264Error::ErrIoEOF(m))) => return (out, m),
            NalPoll::Ready(Err(H264Error::ErrDataIsNotH264Stream(m))) => return (out, m),
        }
    }
}

#[test]
fn single_unit_after_four_byte_start_code() {
    let mut r = reader_with(&[0, 0, 0, 1, 0x67, 0x42, 0x00, 0x1f]);
    let nal = expect_nal(r.next_nal(true));
    assert_eq!(&nal.data[..], &[0x67, 0x42, 0x00, 0x1f]);
    assert!(!nal.forbidden_zero_bit);
    assert_eq!(nal.ref_idc, 3);
    assert_eq!(nal.unit_type, 7);
    assert_eq!(expect_eof(r.next_nal(true)), "self.nal_buffer.is_empty()");
}

#[test]
fn units_between_start_codes() {
    let mut r = reader_with(&[0, 0, 0, 1, 0x67, 1, 2, 0, 0, 1, 0x68, 3, 4]);
    let first = expect_nal(r.next_nal(false));
    assert_eq!(&first.data[..], &[0x67, 1, 2]);
    assert!(matches!(r.next_nal(false), NalPoll::NeedInput));
    let second = expect_nal(r.next_nal(true));
    assert_eq!(&second.data[..], &[0x68, 3, 4]);
    assert_eq!(second.unit_type, 8);
    assert_eq!(expect_eof(r.next_nal(true)), "self.nal_buffer.is_empty()");
}

#[test]
fn three_byte_leading_start_code() {
    let mut r = reader_with(&[0, 0, 1, 0x65, 9, 0, 0, 0, 1, 0x41]);
    let first = expect_nal(r.next_nal(false));
    assert_eq!(&first.data[..], &[0x65, 9]);
    assert_eq!(first.unit_type, 5);
    let second = expect_nal(r.next_nal(true));
    assert_eq!(&second.data[..], &[0x41]);
    assert_eq!(second.ref_idc, 2);
    assert_eq!(second.unit_type, 1);
}

#[test]
fn sei_units_are_skipped() {
    let mut r = reader_with(&[0, 0, 0, 1, 0x06, 5, 0, 0, 1, 0x65, 7, 0, 0, 0, 1, 0x41, 9]);
    let first = expect_nal(r.next_nal(false));
    assert_eq!(&first.data[..], &[0x65, 7]);
    let second = expect_nal(r.next_nal(true));
    assert_eq!(&second.data[..], &[0x41, 9]);
}

#[test]
fn sei_at_end_of_input_is_handed_out() {
    let mut r = reader_with(&[0, 0, 0, 1, 0x06, 5]);
    let nal = expect_nal(r.next_nal(true));
    assert_eq!(&nal.data[..], &[0x06, 5]);
    assert_eq!(nal.unit_type, 6);
}

#[test]
fn extra_zero_bytes_before_start_code_stay_in_unit() {
    let mut r = reader_with(&[0, 0, 0, 1, 0x67, 5, 0, 0, 0, 0, 1, 0x68]);
    let first = expect_nal(r.next_nal(false));
    assert_eq!(&first.data[..], &[0x67, 5, 0]);
}

#[test]
fn trailing_zero_bytes_at_end_of_input_stay_in_unit() {
    let mut r = reader_with(&[0, 0, 0, 1, 0x67, 5, 0, 0]);
    let nal = expect_nal(r.next_nal(true));
    assert_eq!(&nal.data[..], &[0x67, 5, 0, 0]);
}

#[test]
fn header_fields() {
    let mut r = reader_with(&[0, 0, 0, 1, 0xE5, 1]);
    let nal = expect_nal(r.next_nal(true));
    assert!(nal.forbidden_zero_bit);
    assert_eq!(nal.ref_idc, 3);
    assert_eq!(nal.unit_type, 5);

    let mut r = reader_with(&[0, 0, 0, 1, 0x0E, 1]);
    let nal = expect_nal(r.next_nal(true));
    assert!(!nal.forbidden_zero_bit);
    assert_eq!(nal.ref_idc, 0);
    // Type 14 is reserved: webrtc's NalUnitType::Reserved.
    assert_eq!(nal.unit_type, 20);

    let mut r = reader_with(&[0, 0, 0, 1, 0x33, 1]);
    let nal = expect_nal(r.next_nal(true));
    assert_eq!(nal.ref_idc, 1);
    assert_eq!(nal.unit_type, 19);
}

#[test]
fn prefix_errors() {
    let mut r = H264Reader::new();
    assert_eq!(expect_eof(r.next_nal(true)), "n == 0 when reading prefix");
    let mut r = reader_with(&[0, 0]);
    assert_eq!(expect_not_h264(r.next_nal(true)), "n < 3");
    // A start code with nothing after it ends the stream.
    let mut r = reader_with(&[0, 0, 1]);
    assert_eq!(expect_eof(r.next_nal(true)), "n == 3 && nal_prefix3bytes_found");
    let mut r = reader_with(&[1, 2, 3]);
    assert_eq!(expect_not_h264(r.next_nal(true)), "n == 3 && !nal_prefix3bytes_found");
    let mut r = reader_with(&[0, 0, 0, 2, 0x67]);
    assert_eq!(expect_not_h264(r.next_nal(false)), "no nal prefix found");
}

#[test]
fn waits_for_the_whole_prefix() {
    let mut r = reader_with(&[0, 0]);
    assert!(matches!(r.next_nal(false), NalPoll::NeedInput));
    assert_eq!(r.buffered_len(), 2);
    r.push_input(&[0, 1, 0x67, 7]);
    assert!(matches!(r.next_nal(false), NalPoll::NeedInput));
    let nal = expect_nal(r.next_nal(true));
    assert_eq!(&nal.data[..], &[0x67, 7]);
}

#[test]
fn chunking_does_not_matter() {
    let stream: Vec<u8> = vec![
        0, 0, 0, 1, 0x67, 0x42, 0, 0x1f, 0, 0, 1, 0x68, 0xce, 0x3c, 0x80, 0, 0, 0, 1, 0x06, 5, 4,
        0, 0, 1, 0x65, 0x88, 0x84, 0, 0x21, 0, 0, 1, 0x41, 0x9a,
    ];
    let expected: Vec<Vec<u8>> = vec![
        vec![0x67, 0x42, 0, 0x1f],
        vec![0x68, 0xce, 0x3c, 0x80],
        vec![0x65, 0x88, 0x84, 0, 0x21],
        vec![0x41, 0x9a],
    ];
    for chunk in 1..=stream.len() {
        let (units, end) = read_all(&stream, chunk);
        assert_eq!(units, expected, "chunk size {}", chunk);
        assert_eq!(end, "self.nal_buffer.is_empty()");
    }
}

#[test]
fn error_messages() {
    let e = H264Error::ErrIoEOF("n == 0 when reading prefix".to_string());
    assert_eq!(e.to_error_message(), "H264Error::ErrIoEOF(n == 0 when reading prefix)");
    let e = H264Error::ErrDataIsNotH264Stream("n < 3".to_string());
    assert_eq!(e.to_error_message(), "H264Error::ErrDataIsNotH264Stream(n < 3)");
}

#[test]
fn whole_stream_in_order() {
    // SEI units in the middle are dropped, the last unit is handed out
    // whatever its type, then ErrIoEOF.
    let stream: Vec<u8> = vec![
        0, 0, 1, 0x67, 1, 0, 0, 0, 1, 0x06, 2, 0, 0, 1, 0x65, 3, 0, 0, 1, 0x06, 4,
    ];
    let mut r = reader_with(&stream);
    assert_eq!(&expect_nal(r.next_nal(true)).data[..], &[0x67, 1]);
    assert_eq!(&expect_nal(r.next_nal(true)).data[..], &[0x65, 3]);
    assert_eq!(&expect_nal(r.next_nal(true)).data[..], &[0x06, 4]);
    assert_eq!(expect_eof(r.next_nal(true)), "self.nal_buffer.is_empty()");
}

#[test]
fn unit_starting_with_zero_may_hold_a_start_code() {
    // After a four-byte start code, zero bytes then 0 0 1 with nothing
    // before it do not end a unit: they are collected.
    let mut r = reader_with(&[0, 0, 0, 1, 0, 0, 1, 0x67]);
    let nal = expect_nal(r.next_nal(true));
    assert_eq!(&nal.data[..], &[0, 0, 1, 0x67]);
}
