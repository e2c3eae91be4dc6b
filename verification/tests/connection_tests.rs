use transpose_server::connection::handle_client;
use transpose_server::matrix_type::MatrixType;
use transpose_server::request::Request;

const PLENTY: u64 = 8_000_000_000;

fn requests(list: &[(Request, &[u8])]) -> Vec<u8> {
    let mut stream = Vec::new();
    for (request, payload) in list {
        request.write(&mut stream);
        stream.extend_from_slice(payload);
    }
    stream
}

#[test]
fn tiny_u8_session() {
    let stream = requests(&[
        (
            Request::Reserve {
                matrix_type: MatrixType::U8,
                matrix_dimension: 2,
            },
            &[],
        ),
        (Request::Calc { id: 1 }, &[1, 2, 3, 4]),
        (Request::Poll { id: 1 }, &[]),
        (Request::Poll { id: 1 }, &[]),
    ]);
    let sent = handle_client(&stream, PLENTY);
    let mut expected = vec![0u8, 1, 0, 0, 0, 0, 0, 0, 0];
    expected.extend_from_slice(&[1]);
    expected.extend_from_slice(&[2, 3, 1, 3, 2, 4]);
    expected.extend_from_slice(&[2, 0]);
    assert_eq!(sent, expected);
}

#[test]
fn u32_session() {
    let mut input = Vec::new();
    for v in 1u32..=9 {
        input.extend_from_slice(&v.to_le_bytes());
    }
    let stream = requests(&[
        (
            Request::Reserve {
                matrix_type: MatrixType::U32,
                matrix_dimension: 3,
            },
            &[],
        ),
        (Request::Calc { id: 1 }, &input),
        (Request::Poll { id: 1 }, &[]),
    ]);
    let sent = handle_client(&stream, PLENTY);
    let mut transposed = Vec::new();
    for v in [1u32, 4, 7, 2, 5, 8, 3, 6, 9] {
        transposed.extend_from_slice(&v.to_le_bytes());
    }
    assert_eq!(&sent[..9], &[0, 1, 0, 0, 0, 0, 0, 0, 0]);
    assert_eq!(sent[9], 1);
    assert_eq!(&sent[10..12], &[2, 3]);
    assert_eq!(&sent[12..], &transposed[..]);
}

#[test]
fn insufficient_memory_is_answered_with_an_error() {
    let stream = requests(&[
        (
            Request::Reserve {
                matrix_type: MatrixType::U8,
                matrix_dimension: 1000,
            },
            &[],
        ),
        (Request::Poll { id: 1 }, &[]),
    ]);
    let sent = handle_client(&stream, 0);
    let message = b"not enough memory";
    let mut expected = vec![3u8, message.len() as u8];
    expected.extend_from_slice(message);
    expected.extend_from_slice(&[2, 0]);
    assert_eq!(sent, expected);
}

#[test]
fn an_unknown_opcode_is_answered_with_an_error() {
    let sent = handle_client(&[0xff], PLENTY);
    let message = b"unknown request code: 255";
    let mut expected = vec![3u8, message.len() as u8];
    expected.extend_from_slice(message);
    assert_eq!(sent, expected);
}

#[test]
fn nothing_is_read_after_a_frame_that_cannot_be_read() {
    let mut stream = vec![0u8, 11, 2, 0, 0, 0];
    Request::Poll { id: 1 }.write(&mut stream);
    let sent = handle_client(&stream, PLENTY);
    let message = b"Invalid matrix type code: 11";
    let mut expected = vec![3u8, message.len() as u8];
    expected.extend_from_slice(message);
    assert_eq!(sent, expected);
}

#[test]
fn an_empty_or_cut_stream_gets_no_answer() {
    assert_eq!(handle_client(&[], PLENTY), Vec::<u8>::new());
    assert_eq!(handle_client(&[2, 1, 0, 0], PLENTY), Vec::<u8>::new());
    let mut stream = Vec::new();
    Request::Poll { id: 5 }.write(&mut stream);
    stream.extend_from_slice(&[1, 1, 0]);
    assert_eq!(handle_client(&stream, PLENTY), vec![2, 0]);
}

#[test]
fn a_matrix_cut_short_is_a_client_that_went_away() {
    let stream = requests(&[
        (
            Request::Reserve {
                matrix_type: MatrixType::U16,
                matrix_dimension: 2,
            },
            &[],
        ),
        (Request::Calc { id: 1 }, &[1, 2, 3]),
    ]);
    let sent = handle_client(&stream, PLENTY);
    let message = b"the client disconnected";
    let mut expected = vec![0u8, 1, 0, 0, 0, 0, 0, 0, 0, 3, message.len() as u8];
    expected.extend_from_slice(message);
    assert_eq!(sent, expected);
}

#[test]
fn calc_of_an_unknown_id_reads_no_matrix() {
    let stream = requests(&[
        (Request::Calc { id: 4 }, &[]),
        (Request::Poll { id: 4 }, &[]),
    ]);
    let sent = handle_client(&stream, PLENTY);
    let message = b"the id is not reserved";
    let mut expected = vec![3u8, message.len() as u8];
    expected.extend_from_slice(message);
    expected.extend_from_slice(&[2, 0]);
    assert_eq!(sent, expected);
}

#[test]
fn two_sessions_are_apart() {
    let first = requests(&[
        (
            Request::Reserve {
                matrix_type: MatrixType::U8,
                matrix_dimension: 2,
            },
            &[],
        ),
        (Request::Calc { id: 1 }, &[1, 2, 3, 4]),
        (Request::Poll { id: 1 }, &[]),
    ]);
    let second = requests(&[
        (
            Request::Reserve {
                matrix_type: MatrixType::U8,
                matrix_dimension: 2,
            },
            &[],
        ),
        (Request::Calc { id: 1 }, &[5, 6, 7, 8]),
        (Request::Poll { id: 1 }, &[]),
    ]);
    let a = handle_client(&first, PLENTY);
    let b = handle_client(&second, PLENTY);
    assert_eq!(&a[..9], &b[..9]);
    assert_eq!(&a[10..], &[2, 3, 1, 3, 2, 4]);
    assert_eq!(&b[10..], &[2, 3, 5, 7, 6, 8]);
}

#[test]
fn two_connections_at_the_same_time() {
    let d = 64usize;
    let first: Vec<u8> = (0..2 * d * d).map(|k| (k % 251) as u8).collect();
    let second: Vec<u8> = (0..2 * d * d).map(|k| (k * 3 % 253) as u8).collect();
    let session = |matrix: Vec<u8>| {
        let stream = requests(&[
            (
                Request::Reserve {
                    matrix_type: MatrixType::U16,
                    matrix_dimension: 64,
                },
                &[],
            ),
            (Request::Calc { id: 1 }, &matrix),
            (Request::Poll { id: 1 }, &[]),
        ]);
        handle_client(&stream, PLENTY)
    };
    let (a, b) = rayon::join(|| session(first.clone()), || session(second.clone()));
    let check = |sent: &[u8], matrix: &[u8]| {
        assert_eq!(&sent[..9], &[0, 1, 0, 0, 0, 0, 0, 0, 0]);
        assert_eq!(&sent[9..12], &[1, 2, 3]);
        let bytes = &sent[12..];
        assert_eq!(bytes.len(), matrix.len());
        for i in 0..d {
            for j in 0..d {
                let here = (i * d + j) * 2;
                let there = (j * d + i) * 2;
                assert_eq!(&bytes[here..here + 2], &matrix[there..there + 2]);
            }
        }
    };
    check(&a, &first);
    check(&b, &second);
}
