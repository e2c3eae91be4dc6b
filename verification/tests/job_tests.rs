use transpose_server::job::{new_manager, process_tasks};
use transpose_server::matrix_type::MatrixType;
use transpose_server::memory::{
    admits, allocate_if_admitted, matrix_bytes, reserve_if_available, AVAILABLE_MEMORY_THRESHOLD,
};
use transpose_server::status::Status;
use transpose_server::task::{transpose, Task};

const PLENTY: u64 = 8_000_000_000;

#[test]
fn ids_start_at_one_and_rise() {
    let mut manager = new_manager();
    assert_eq!(manager.next_id(), 1);
    assert_eq!(manager.reserve_with(MatrixType::U8, 2, PLENTY), Ok(1));
    assert_eq!(manager.reserve_with(MatrixType::F64, 3, PLENTY), Ok(2));
    assert_eq!(manager.reserve_with(MatrixType::I16, 1, PLENTY), Ok(3));
    assert_eq!(manager.next_id(), 4);
}

#[test]
fn a_refused_reservation_takes_no_id() {
    let mut manager = new_manager();
    assert_eq!(
        manager.reserve_with(MatrixType::U8, 1000, 0),
        Err(String::from("not enough memory"))
    );
    assert_eq!(manager.next_id(), 1);
    assert_eq!(manager.reserve_with(MatrixType::U8, 1000, PLENTY), Ok(1));
}

#[test]
fn tiny_u8_job_runs_to_completion() {
    let mut manager = new_manager();
    let id = manager.reserve_with(MatrixType::U8, 2, PLENTY).unwrap();
    assert_eq!(id, 1);
    assert!(matches!(manager.poll(id), Status::Reserved));
    assert_eq!(manager.payload_len(id), Some(4));
    let order = manager.calc(id, vec![1, 2, 3, 4]).unwrap();
    assert_eq!(order.matrix_vec, vec![1, 2, 3, 4]);
    assert_eq!(order.matrix_type_size, 1);
    assert_eq!(order.matrix_dimensions, 2);
    assert_eq!(order.worker_hint, 4);
    assert!(matches!(manager.poll(id), Status::Running));
    assert!(manager.complete(id, transpose(order)));
    match manager.poll(id) {
        Status::Completed { matrix_bytes } => assert_eq!(matrix_bytes, vec![1, 3, 2, 4]),
        other => panic!("expected a completed job, got {:?}", other),
    }
}

#[test]
fn a_second_poll_after_delivery_finds_no_data() {
    let mut manager = new_manager();
    let id = manager.reserve_with(MatrixType::U8, 2, PLENTY).unwrap();
    let order = manager.calc(id, vec![1, 2, 3, 4]).unwrap();
    process_tasks(&mut manager, vec![(id, order)]);
    assert!(matches!(manager.poll(id), Status::Completed { .. }));
    assert!(matches!(manager.poll(id), Status::NoData));
    assert!(matches!(manager.poll(id), Status::NoData));
    // the id is not handed out again
    assert_eq!(manager.reserve_with(MatrixType::U8, 2, PLENTY), Ok(2));
}

#[test]
fn a_started_job_is_running_until_it_is_completed() {
    let mut manager = new_manager();
    let id = manager.reserve_with(MatrixType::U16, 2, PLENTY).unwrap();
    manager.fill(id, vec![0; 8]).unwrap();
    assert!(matches!(manager.poll(id), Status::Reserved));
    let order = manager.start(id, 3).unwrap();
    assert_eq!(order.worker_hint, 3);
    for _ in 0..5 {
        assert!(matches!(manager.poll(id), Status::Running));
    }
    let other = manager.reserve_with(MatrixType::U8, 1, PLENTY).unwrap();
    assert!(matches!(manager.poll(other), Status::Reserved));
    assert!(matches!(manager.poll(id), Status::Running));
    assert!(manager.complete(id, transpose(order)));
    assert!(matches!(manager.poll(id), Status::Completed { .. }));
}

#[test]
fn an_unknown_id_has_no_data() {
    let mut manager = new_manager();
    assert!(matches!(manager.poll(0), Status::NoData));
    assert!(matches!(manager.poll(1), Status::NoData));
    assert!(matches!(manager.poll(u64::MAX), Status::NoData));
    assert_eq!(manager.payload_len(1), None);
}

#[test]
fn calc_of_an_unknown_id_is_refused() {
    let mut manager = new_manager();
    assert_eq!(
        manager.calc(7, vec![1, 2, 3, 4]).err(),
        Some(String::from("the id is not reserved"))
    );
    assert_eq!(
        manager.fill(7, vec![]).err(),
        Some(String::from("the id is not reserved"))
    );
    assert_eq!(
        manager.start(7, 1).err(),
        Some(String::from("the id is not reserved"))
    );
}

#[test]
fn calc_of_a_running_job_is_refused() {
    let mut manager = new_manager();
    let id = manager.reserve_with(MatrixType::U8, 2, PLENTY).unwrap();
    let _order = manager.calc(id, vec![1, 2, 3, 4]).unwrap();
    assert_eq!(
        manager.calc(id, vec![1, 2, 3, 4]).err(),
        Some(String::from("the id is not reserved"))
    );
    assert!(matches!(manager.poll(id), Status::Running));
}

#[test]
fn a_payload_of_the_wrong_length_is_refused() {
    let mut manager = new_manager();
    let id = manager.reserve_with(MatrixType::U8, 2, PLENTY).unwrap();
    assert_eq!(
        manager.calc(id, vec![1, 2, 3]).err(),
        Some(String::from("the client disconnected"))
    );
    assert!(matches!(manager.poll(id), Status::Reserved));
    assert_eq!(manager.payload_len(id), Some(4));
    assert!(manager.calc(id, vec![1, 2, 3, 4]).is_ok());
}

#[test]
fn an_empty_matrix_cannot_be_filled() {
    let mut manager = new_manager();
    let id = manager.reserve_with(MatrixType::U32, 0, PLENTY).unwrap();
    assert_eq!(manager.payload_len(id), Some(0));
    assert_eq!(
        manager.calc(id, vec![]).err(),
        Some(String::from("the client disconnected"))
    );
    assert!(matches!(manager.poll(id), Status::Reserved));
}

#[test]
fn start_needs_a_filled_job() {
    let mut manager = new_manager();
    let id = manager.reserve_with(MatrixType::U8, 2, PLENTY).unwrap();
    assert!(manager.start(id, 2).is_err());
    manager.fill(id, vec![5, 6, 7, 8]).unwrap();
    let order = manager.start(id, 0).unwrap();
    assert_eq!(order.worker_hint, 4);
    assert_eq!(order.matrix_vec, vec![5, 6, 7, 8]);
}

#[test]
fn complete_takes_only_what_a_running_job_waits_for() {
    let mut manager = new_manager();
    let id = manager.reserve_with(MatrixType::U16, 2, PLENTY).unwrap();
    assert!(!manager.complete(id, vec![0; 8]));
    assert!(!manager.complete(99, vec![0; 8]));
    let _order = manager.calc(id, vec![1; 8]).unwrap();
    assert!(!manager.complete(id, vec![0; 7]));
    assert!(matches!(manager.poll(id), Status::Running));
    assert!(manager.complete(id, vec![2; 8]));
    assert!(!manager.complete(id, vec![3; 8]));
    match manager.poll(id) {
        Status::Completed { matrix_bytes } => assert_eq!(matrix_bytes, vec![2; 8]),
        other => panic!("expected a completed job, got {:?}", other),
    }
}

#[test]
fn u32_three_by_three_through_the_manager() {
    let mut manager = new_manager();
    let id = manager.reserve_with(MatrixType::U32, 3, PLENTY).unwrap();
    let mut input = Vec::new();
    for v in 1u32..=9 {
        input.extend_from_slice(&v.to_le_bytes());
    }
    manager.fill(id, input).unwrap();
    let order = manager.start(id, 2).unwrap();
    process_tasks(&mut manager, vec![(id, order)]);
    let mut expected = Vec::new();
    for v in [1u32, 4, 7, 2, 5, 8, 3, 6, 9] {
        expected.extend_from_slice(&v.to_le_bytes());
    }
    match manager.poll(id) {
        Status::Completed { matrix_bytes } => assert_eq!(matrix_bytes, expected),
        other => panic!("expected a completed job, got {:?}", other),
    }
}

#[test]
fn calc_twice_gives_the_matrix_back() {
    let mut state: u64 = 42;
    let mut next = move || {
        state = state.wrapping_mul(6364136223846793005).wrapping_add(1442695040888963407);
        (state >> 33) as u8
    };
    let given: Vec<u8> = (0..8 * 100 * 100).map(|_| next()).collect();
    let mut manager = new_manager();
    let mut bytes = given.clone();
    for round in 0..2 {
        let id = manager.reserve_with(MatrixType::F64, 100, PLENTY).unwrap();
        assert_eq!(id, round + 1);
        let order = manager.calc(id, bytes).unwrap();
        process_tasks(&mut manager, vec![(id, order)]);
        bytes = match manager.poll(id) {
            Status::Completed { matrix_bytes } => matrix_bytes,
            other => panic!("expected a completed job, got {:?}", other),
        };
        if round == 0 {
            assert_ne!(bytes, given);
        }
    }
    assert_eq!(bytes, given);
}

#[test]
fn two_connections_do_not_share_ids_or_jobs() {
    let d = 64usize;
    let first: Vec<u8> = (0..2 * d * d).map(|k| (k % 251) as u8).collect();
    let second: Vec<u8> = (0..2 * d * d).map(|k| (k * 3 % 253) as u8).collect();
    let mut a = new_manager();
    let mut b = new_manager();
    let id_a = a.reserve_with(MatrixType::U16, 64, PLENTY).unwrap();
    let id_b = b.reserve_with(MatrixType::U16, 64, PLENTY).unwrap();
    assert_eq!(id_a, 1);
    assert_eq!(id_b, 1);
    let order_a = a.calc(id_a, first.clone()).unwrap();
    assert!(matches!(b.poll(id_b), Status::Reserved));
    let order_b = b.calc(id_b, second.clone()).unwrap();
    process_tasks(&mut b, vec![(id_b, order_b)]);
    assert!(matches!(a.poll(id_a), Status::Running));
    process_tasks(&mut a, vec![(id_a, order_a)]);
    let check = |bytes: &[u8], given: &[u8]| {
        for i in 0..d {
            for j in 0..d {
                let here = (i * d + j) * 2;
                let there = (j * d + i) * 2;
                assert_eq!(&bytes[here..here + 2], &given[there..there + 2]);
            }
        }
    };
    match a.poll(id_a) {
        Status::Completed { matrix_bytes } => check(&matrix_bytes, &first),
        other => panic!("expected a completed job, got {:?}", other),
    }
    match b.poll(id_b) {
        Status::Completed { matrix_bytes } => check(&matrix_bytes, &second),
        other => panic!("expected a completed job, got {:?}", other),
    }
}

#[test]
fn process_tasks_takes_the_queue_in_order() {
    let mut manager = new_manager();
    let one = manager.reserve_with(MatrixType::U8, 2, PLENTY).unwrap();
    let two = manager.reserve_with(MatrixType::U8, 2, PLENTY).unwrap();
    let first = manager.calc(one, vec![1, 2, 3, 4]).unwrap();
    let second = manager.calc(two, vec![5, 6, 7, 8]).unwrap();
    process_tasks(&mut manager, vec![(one, first), (two, second)]);
    match manager.poll(two) {
        Status::Completed { matrix_bytes } => assert_eq!(matrix_bytes, vec![5, 7, 6, 8]),
        other => panic!("expected a completed job, got {:?}", other),
    }
    match manager.poll(one) {
        Status::Completed { matrix_bytes } => assert_eq!(matrix_bytes, vec![1, 3, 2, 4]),
        other => panic!("expected a completed job, got {:?}", other),
    }
}

#[test]
fn reservation_with_the_memory_of_this_machine() {
    let mut manager = new_manager();
    match manager.reserve(MatrixType::U8, 2) {
        Ok(id) => {
            assert_eq!(id, 1);
            assert_eq!(manager.payload_len(1), Some(4));
        }
        Err(message) => {
            assert_eq!(message, "not enough memory");
            assert_eq!(manager.next_id(), 1);
        }
    }
    match reserve_if_available(16) {
        Ok(buffer) => assert_eq!(buffer, vec![0u8; 16]),
        Err(message) => assert_eq!(message, "not enough memory"),
    }
}

#[test]
fn the_admission_rule_is_exact() {
    assert_eq!(AVAILABLE_MEMORY_THRESHOLD, 500_000_000);
    assert!(admits(500_000_000, 0));
    assert!(!admits(499_999_999, 0));
    assert!(admits(500_001_000, 1000));
    assert!(!admits(500_000_999, 1000));
    assert!(!admits(0, 1000));
    assert!(!admits(u64::MAX, u64::MAX as u128));
    assert!(admits(u64::MAX, (u64::MAX - 500_000_000) as u128));
    assert!(!admits(u64::MAX, (u64::MAX - 499_999_999) as u128));
    assert_eq!(allocate_if_admitted(3, 500_000_003), Ok(vec![0u8, 0, 0]));
    assert_eq!(
        allocate_if_admitted(3, 500_000_002),
        Err(String::from("not enough memory"))
    );
}

#[test]
fn matrix_bytes_is_size_times_side_squared() {
    assert_eq!(matrix_bytes(MatrixType::U8, 1000), 1_000_000);
    assert_eq!(matrix_bytes(MatrixType::U32, 3), 36);
    assert_eq!(matrix_bytes(MatrixType::F64, 100), 80_000);
    assert_eq!(matrix_bytes(MatrixType::I16, 0), 0);
    assert_eq!(
        matrix_bytes(MatrixType::U64, u32::MAX),
        8 * (u32::MAX as u128) * (u32::MAX as u128)
    );
}

#[test]
fn a_matrix_too_large_for_any_memory_is_refused() {
    let mut manager = new_manager();
    assert_eq!(
        manager.reserve_with(MatrixType::U64, u32::MAX, u64::MAX),
        Err(String::from("not enough memory"))
    );
}

#[test]
fn a_task_goes_through_its_states() {
    let mut task = Task::NoData;
    assert!(task.reserve(MatrixType::I32, 2, PLENTY).is_ok());
    match &task {
        Task::Reserved(data) => {
            assert_eq!(data.matrix_vec, vec![0u8; 16]);
            assert_eq!(data.matrix_type_size, 4);
            assert_eq!(data.matrix_dimensions, 2);
        }
        _ => panic!("expected a reserved task"),
    }
    assert!(task.fill((0u8..16).collect()).is_ok());
    assert!(matches!(task, Task::Ready(_)));
    let order = task.run(2);
    assert!(matches!(
        task,
        Task::Running { matrix_type_size: 4, matrix_dimensions: 2 }
    ));
    task.complete(transpose(order));
    match task {
        Task::Completed(bytes) => assert_eq!(
            bytes,
            vec![0, 1, 2, 3, 8, 9, 10, 11, 4, 5, 6, 7, 12, 13, 14, 15]
        ),
        _ => panic!("expected a completed task"),
    }
}

#[test]
fn a_refused_task_holds_nothing() {
    let mut task = Task::NoData;
    assert_eq!(
        task.reserve(MatrixType::U8, 10, 500_000_099),
        Err(String::from("not enough memory"))
    );
    assert!(matches!(task, Task::NoData));
    assert!(task.reserve(MatrixType::U8, 10, 500_000_100).is_ok());
}
