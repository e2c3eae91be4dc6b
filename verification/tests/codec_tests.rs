use transpose_server::job::new_manager;
use transpose_server::matrix_type::MatrixType;
use transpose_server::request::{DecodeError, Request};
use transpose_server::response::Response;
use transpose_server::status::Status;
use transpose_server::wire::{get_u32_le, get_u64_le, put_u64_le};

const PLENTY: u64 = 8_000_000_000;

#[test]
fn matrix_types_have_their_sizes() {
    assert_eq!(MatrixType::U8.get_type_size(), 1);
    assert_eq!(MatrixType::U16.get_type_size(), 2);
    assert_eq!(MatrixType::U32.get_type_size(), 4);
    assert_eq!(MatrixType::U64.get_type_size(), 8);
    assert_eq!(MatrixType::I8.get_type_size(), 1);
    assert_eq!(MatrixType::I16.get_type_size(), 2);
    assert_eq!(MatrixType::I32.get_type_size(), 4);
    assert_eq!(MatrixType::I64.get_type_size(), 8);
    assert_eq!(MatrixType::F32.get_type_size(), 4);
    assert_eq!(MatrixType::F64.get_type_size(), 8);
}

#[test]
fn matrix_type_codes_go_both_ways() {
    let all = [
        MatrixType::U8,
        MatrixType::U16,
        MatrixType::U32,
        MatrixType::U64,
        MatrixType::I8,
        MatrixType::I16,
        MatrixType::I32,
        MatrixType::I64,
        MatrixType::F32,
        MatrixType::F64,
    ];
    for (code, matrix_type) in all.iter().enumerate() {
        assert_eq!(matrix_type.code(), code as u8);
        assert_eq!(u8::from(*matrix_type), code as u8);
        assert_eq!(MatrixType::from_code(code as u8), Some(*matrix_type));
        assert_eq!(MatrixType::try_from(code as u8), Ok(*matrix_type));
    }
    for code in 10u8..=255 {
        assert_eq!(MatrixType::from_code(code), None);
    }
    assert_eq!(
        MatrixType::try_from(10u8),
        Err(String::from("Invalid matrix type code: 10"))
    );
}

#[test]
fn signed_codes_are_signed_types() {
    assert_eq!(MatrixType::from_code(4), Some(MatrixType::I8));
    assert_eq!(MatrixType::from_code(5), Some(MatrixType::I16));
    assert_eq!(MatrixType::from_code(6), Some(MatrixType::I32));
    assert_eq!(MatrixType::from_code(7), Some(MatrixType::I64));
}

#[test]
fn matrix_types_have_their_names() {
    assert_eq!(MatrixType::U8.name(), "u8");
    assert_eq!(MatrixType::U16.name(), "u16");
    assert_eq!(MatrixType::U32.name(), "u32");
    assert_eq!(MatrixType::U64.name(), "u64");
    assert_eq!(MatrixType::I8.name(), "i8");
    assert_eq!(MatrixType::I16.name(), "i16");
    assert_eq!(MatrixType::I32.name(), "i32");
    assert_eq!(MatrixType::I64.name(), "i64");
    assert_eq!(MatrixType::F32.name(), "f32");
    assert_eq!(MatrixType::F64.name(), "f64");
    assert_eq!(String::from(MatrixType::F32), "f32");
}

#[test]
fn status_codes_and_names() {
    assert_eq!(Status::NoData.code(), 0);
    assert_eq!(Status::Reserved.code(), 1);
    assert_eq!(Status::Running.code(), 2);
    assert_eq!(Status::Completed { matrix_bytes: vec![1] }.code(), 3);
    assert_eq!(u8::from(&Status::Running), 2);
    assert_eq!(Status::NoData.name(), "no data");
    assert_eq!(Status::Reserved.name(), "reserved");
    assert_eq!(Status::Running.name(), "running");
    assert_eq!(Status::Completed { matrix_bytes: vec![] }.name(), "completed");
    assert_eq!(String::from(&Status::Reserved), "reserved");
}

#[test]
fn little_endian_numbers() {
    let mut out = vec![9u8];
    put_u64_le(&mut out, 0x0102030405060708);
    assert_eq!(out, vec![9, 8, 7, 6, 5, 4, 3, 2, 1]);
    assert_eq!(get_u64_le(&out, 1), 0x0102030405060708);
    assert_eq!(get_u32_le(&out, 1), 0x05060708);
    assert_eq!(get_u32_le(&[0xff, 0xff, 0xff, 0xff], 0), u32::MAX);
    assert_eq!(get_u64_le(&[0xff; 8], 0), u64::MAX);
    let mut one = Vec::new();
    put_u64_le(&mut one, 1);
    assert_eq!(one, vec![1, 0, 0, 0, 0, 0, 0, 0]);
}

#[test]
fn a_reserve_frame_is_read() {
    let frame = [0u8, 2, 3, 0, 0, 0];
    assert_eq!(
        Request::from_stream(&frame),
        Ok((
            Request::Reserve {
                matrix_type: MatrixType::U32,
                matrix_dimension: 3
            },
            6
        ))
    );
    let wide = [0u8, 9, 0x78, 0x56, 0x34, 0x12, 77, 77];
    assert_eq!(
        Request::from_stream(&wide),
        Ok((
            Request::Reserve {
                matrix_type: MatrixType::F64,
                matrix_dimension: 0x12345678
            },
            6
        ))
    );
}

#[test]
fn calc_and_poll_frames_are_read() {
    assert_eq!(
        Request::from_stream(&[1, 1, 0, 0, 0, 0, 0, 0, 0, 1, 2, 3, 4]),
        Ok((Request::Calc { id: 1 }, 9))
    );
    assert_eq!(
        Request::from_stream(&[2, 0, 1, 0, 0, 0, 0, 0, 0]),
        Ok((Request::Poll { id: 256 }, 9))
    );
    assert_eq!(
        Request::from_stream(&[2, 0xff, 0xff, 0xff, 0xff, 0xff, 0xff, 0xff, 0xff]),
        Ok((Request::Poll { id: u64::MAX }, 9))
    );
}

#[test]
fn frames_that_cannot_be_read() {
    assert_eq!(Request::from_stream(&[]), Err(DecodeError::UnexpectedEof));
    assert_eq!(Request::from_stream(&[0]), Err(DecodeError::UnexpectedEof));
    assert_eq!(
        Request::from_stream(&[0, 1, 2, 3, 4]),
        Err(DecodeError::UnexpectedEof)
    );
    assert_eq!(
        Request::from_stream(&[1, 0, 0, 0, 0, 0, 0, 0]),
        Err(DecodeError::UnexpectedEof)
    );
    assert_eq!(
        Request::from_stream(&[0xff]),
        Err(DecodeError::UnknownRequestCode { code: 255 })
    );
    assert_eq!(
        Request::from_stream(&[3, 0, 0, 0, 0, 0, 0, 0, 0]),
        Err(DecodeError::UnknownRequestCode { code: 3 })
    );
    assert_eq!(
        Request::from_stream(&[0, 10]),
        Err(DecodeError::InvalidMatrixType { code: 10 })
    );
    assert_eq!(
        Request::from_stream(&[0, 10, 1, 0, 0, 0]),
        Err(DecodeError::InvalidMatrixType { code: 10 })
    );
}

#[test]
fn decode_errors_have_their_words() {
    assert_eq!(DecodeError::UnexpectedEof.message(), "early eof");
    assert_eq!(
        DecodeError::UnknownRequestCode { code: 255 }.message(),
        "unknown request code: 255"
    );
    assert_eq!(
        DecodeError::InvalidMatrixType { code: 10 }.message(),
        "Invalid matrix type code: 10"
    );
    assert!(DecodeError::UnexpectedEof.refusal().is_none());
    match (DecodeError::UnknownRequestCode { code: 7 }).refusal() {
        Some(Response::Error { error }) => assert_eq!(error, "unknown request code: 7"),
        other => panic!("expected an error response, got {:?}", other),
    }
}

#[test]
fn missing_counts_the_bytes_still_to_read() {
    assert_eq!(Request::missing(&[]), Ok(1));
    assert_eq!(Request::missing(&[0]), Ok(1));
    assert_eq!(Request::missing(&[0, 3]), Ok(4));
    assert_eq!(Request::missing(&[0, 3, 1]), Ok(3));
    assert_eq!(Request::missing(&[0, 3, 1, 0, 0, 0]), Ok(0));
    assert_eq!(Request::missing(&[1]), Ok(8));
    assert_eq!(Request::missing(&[2, 0, 0]), Ok(6));
    assert_eq!(Request::missing(&[2, 0, 0, 0, 0, 0, 0, 0, 0]), Ok(0));
    assert_eq!(
        Request::missing(&[0, 12]),
        Err(DecodeError::InvalidMatrixType { code: 12 })
    );
    assert_eq!(
        Request::missing(&[9]),
        Err(DecodeError::UnknownRequestCode { code: 9 })
    );
}

#[test]
fn written_requests_are_read_back() {
    let requests = [
        Request::Reserve {
            matrix_type: MatrixType::I64,
            matrix_dimension: 70000,
        },
        Request::Reserve {
            matrix_type: MatrixType::U8,
            matrix_dimension: u32::MAX,
        },
        Request::Calc { id: 1 },
        Request::Poll { id: 0xdead_beef_0000_0001 },
    ];
    for request in requests {
        let mut stream = Vec::new();
        request.write(&mut stream);
        assert_eq!(Request::missing(&stream), Ok(0));
        let len = stream.len();
        stream.extend_from_slice(&[1, 2, 3]);
        assert_eq!(Request::from_stream(&stream), Ok((request, len)));
    }
    let mut stream = Vec::new();
    Request::Reserve {
        matrix_type: MatrixType::U32,
        matrix_dimension: 3,
    }
    .write(&mut stream);
    assert_eq!(stream, vec![0, 2, 3, 0, 0, 0]);
}

fn frame_of(response: Response) -> Vec<u8> {
    let mut stream = Vec::new();
    response.send(&mut stream);
    stream
}

#[test]
fn response_frames() {
    assert_eq!(
        frame_of(Response::Reserve { id: 1 }),
        vec![0, 1, 0, 0, 0, 0, 0, 0, 0]
    );
    assert_eq!(
        frame_of(Response::Reserve { id: 0x0102 }),
        vec![0, 2, 1, 0, 0, 0, 0, 0, 0]
    );
    assert_eq!(frame_of(Response::Calc), vec![1]);
    assert_eq!(frame_of(Response::Poll { status: Status::NoData }), vec![2, 0]);
    assert_eq!(frame_of(Response::Poll { status: Status::Reserved }), vec![2, 1]);
    assert_eq!(frame_of(Response::Poll { status: Status::Running }), vec![2, 2]);
    assert_eq!(
        frame_of(Response::Poll {
            status: Status::Completed { matrix_bytes: vec![1, 3, 2, 4] }
        }),
        vec![2, 3, 1, 3, 2, 4]
    );
    assert_eq!(
        frame_of(Response::Error { error: String::from("no") }),
        vec![3, 2, b'n', b'o']
    );
    assert_eq!(frame_of(Response::Error { error: String::new() }), vec![3, 0]);
}

#[test]
fn send_appends_to_what_is_there() {
    let mut stream = vec![7u8, 7];
    Response::Calc.send(&mut stream);
    Response::Poll { status: Status::Running }.send(&mut stream);
    assert_eq!(stream, vec![7, 7, 1, 2, 2]);
}

#[test]
fn response_codes_and_names() {
    assert_eq!(Response::Reserve { id: 5 }.code(), 0);
    assert_eq!(Response::Calc.code(), 1);
    assert_eq!(Response::Poll { status: Status::NoData }.code(), 2);
    assert_eq!(Response::Error { error: String::new() }.code(), 3);
    assert_eq!(u8::from(&Response::Calc), 1);
    assert_eq!(Response::Reserve { id: 5 }.name(), "reserve");
    assert_eq!(Response::Calc.name(), "calc");
    assert_eq!(Response::Poll { status: Status::NoData }.name(), "poll");
    assert_eq!(Response::Error { error: String::new() }.name(), "error");
}

#[test]
fn a_long_error_message_is_cut_to_255_bytes() {
    let long = "x".repeat(300);
    let frame = frame_of(Response::Error { error: long });
    assert_eq!(frame.len(), 2 + 255);
    assert_eq!(frame[1], 255);
    assert!(frame[2..].iter().all(|b| *b == b'x'));

    let exact = "y".repeat(255);
    let frame = frame_of(Response::Error { error: exact });
    assert_eq!(frame.len(), 2 + 255);
    assert_eq!(frame[1], 255);
}

#[test]
fn a_long_error_message_is_cut_between_characters() {
    // 254 one-byte characters, then two-byte characters: byte 255 would part one
    let mut text = "a".repeat(254);
    text.push_str("éééé");
    let frame = frame_of(Response::Error { error: text });
    assert_eq!(frame[1], 254);
    assert_eq!(frame.len(), 2 + 254);
    assert!(std::str::from_utf8(&frame[2..]).is_ok());

    // 253 one-byte characters, then a two-byte character that just fits
    let mut text = "a".repeat(253);
    text.push_str("éé");
    let frame = frame_of(Response::Error { error: text });
    assert_eq!(frame[1], 255);
    assert_eq!(&frame[255..], "é".as_bytes());

    // four-byte characters: 63 of them are 252 bytes, the next does not fit
    let text = "𝄞".repeat(70);
    let frame = frame_of(Response::Error { error: text });
    assert_eq!(frame[1], 252);
    assert_eq!(std::str::from_utf8(&frame[2..]).unwrap(), "𝄞".repeat(63));
}

#[test]
fn execute_reserve_calc_poll() {
    let mut manager = new_manager();
    let reserve = Request::Reserve {
        matrix_type: MatrixType::U8,
        matrix_dimension: 2,
    };
    let (response, order) = reserve.execute_with(&mut manager, vec![], PLENTY);
    assert!(matches!(response, Response::Reserve { id: 1 }));
    assert!(order.is_none());

    let (response, order) = Request::Poll { id: 1 }.execute_with(&mut manager, vec![], PLENTY);
    assert!(matches!(response, Response::Poll { status: Status::Reserved }));
    assert!(order.is_none());

    let (response, order) =
        Request::Calc { id: 1 }.execute_with(&mut manager, vec![1, 2, 3, 4], PLENTY);
    assert!(matches!(response, Response::Calc));
    let order = order.unwrap();
    assert_eq!(order.matrix_vec, vec![1, 2, 3, 4]);

    let (response, _) = Request::Poll { id: 1 }.execute_with(&mut manager, vec![], PLENTY);
    assert!(matches!(response, Response::Poll { status: Status::Running }));

    let (response, _) = Request::Poll { id: 2 }.execute_with(&mut manager, vec![], PLENTY);
    assert!(matches!(response, Response::Poll { status: Status::NoData }));
}

#[test]
fn execute_answers_refusals_with_errors() {
    let mut manager = new_manager();
    let reserve = Request::Reserve {
        matrix_type: MatrixType::U8,
        matrix_dimension: 1000,
    };
    let (response, order) = reserve.execute_with(&mut manager, vec![], 0);
    match response {
        Response::Error { error } => assert_eq!(error, "not enough memory"),
        other => panic!("expected an error response, got {:?}", other),
    }
    assert!(order.is_none());

    let (response, order) = Request::Calc { id: 1 }.execute_with(&mut manager, vec![1], PLENTY);
    match response {
        Response::Error { error } => assert_eq!(error, "the id is not reserved"),
        other => panic!("expected an error response, got {:?}", other),
    }
    assert!(order.is_none());
}

#[test]
fn execute_with_the_memory_of_this_machine() {
    let mut manager = new_manager();
    let reserve = Request::Reserve {
        matrix_type: MatrixType::U8,
        matrix_dimension: 2,
    };
    let (response, order) = reserve.execute(&mut manager, vec![]);
    assert!(order.is_none());
    match response {
        Response::Reserve { id } => assert_eq!(id, 1),
        Response::Error { error } => assert_eq!(error, "not enough memory"),
        other => panic!("unexpected response {:?}", other),
    }
    let (response, _) = Request::Poll { id: 9 }.execute(&mut manager, vec![]);
    assert!(matches!(response, Response::Poll { status: Status::NoData }));
}
