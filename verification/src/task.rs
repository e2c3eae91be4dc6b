//! One job: a reserved buffer on its way from `Reserved` over `Ready` and
//! `Running` to `Completed`, each step taken once and in that order.

use vstd::prelude::*;
use crate::matrix_type::MatrixType;
use crate::memory::{admits, admitted, matrix_bytes, matrix_len, not_enough_memory};
use crate::status::StatusView;
use crate::transpose::{transpose_in_place, transposed};

verus! {

/// Workers that transpose a matrix when its job names no other number.
pub const DEFAULT_WORKERS: usize = 4;

/// A matrix buffer with its shape and the number of workers meant for it.
pub struct MatrixData {
    pub matrix_type_size: usize,
    pub matrix_dimensions: usize,
    pub matrix_vec: Vec<u8>,
    pub worker_hint: usize,
}

/// A `MatrixData` with its bytes as a sequence.
pub struct MatrixView {
    pub type_size: nat,
    pub dimensions: nat,
    pub bytes: Seq<u8>,
    pub worker_hint: nat,
}

impl MatrixView {
    /// The buffer holds exactly the cells of the grid.
    pub open spec fn wf(self) -> bool {
        &&& self.type_size >= 1
        &&& self.bytes.len() == matrix_len(self.type_size, self.dimensions)
    }

    /// The same matrix with other bytes in it.
    pub open spec fn with_bytes(self, bytes: Seq<u8>) -> MatrixView {
        MatrixView { bytes, ..self }
    }

    /// The same matrix meant for `workers` workers, or for as many as before
    /// when `workers` is zero.
    pub open spec fn with_workers(self, workers: nat) -> MatrixView {
        if workers > 0 {
            MatrixView { worker_hint: workers, ..self }
        } else {
            self
        }
    }

    /// The number of workers that transpose this matrix: the hint, and one
    /// where the hint is zero.
    pub open spec fn workers(self) -> nat {
        if self.worker_hint == 0 {
            1
        } else {
            self.worker_hint
        }
    }

    /// The bytes of this matrix after transposition.
    pub open spec fn transposed_bytes(self) -> Seq<u8> {
        transposed(self.bytes, self.type_size as int, self.dimensions as int)
    }
}

impl View for MatrixData {
    type V = MatrixView;

    open spec fn view(&self) -> MatrixView {
        MatrixView {
            type_size: self.matrix_type_size as nat,
            dimensions: self.matrix_dimensions as nat,
            bytes: self.matrix_vec@,
            worker_hint: self.worker_hint as nat,
        }
    }
}

impl MatrixData {
    /// Puts a buffer and its shape together, if the buffer has the length
    /// that the shape asks for.
    pub fn new(matrix_type_size: usize, matrix_dimensions: usize, matrix_vec: Vec<u8>) -> (data:
        Option<MatrixData>)
        ensures
            data is Some <==> matrix_type_size >= 1 && matrix_vec@.len() == matrix_len(
                matrix_type_size as nat,
                matrix_dimensions as nat,
            ),
            data matches Some(d) ==> d@ == (MatrixView {
                type_size: matrix_type_size as nat,
                dimensions: matrix_dimensions as nat,
                bytes: matrix_vec@,
                worker_hint: DEFAULT_WORKERS as nat,
            }) && d@.wf(),
    {
        let fits = matrix_type_size >= 1 && holds_matrix(
            matrix_vec.len(),
            matrix_type_size,
            matrix_dimensions,
        );
        if fits {
            Some(
                MatrixData {
                    matrix_type_size,
                    matrix_dimensions,
                    matrix_vec,
                    worker_hint: DEFAULT_WORKERS,
                },
            )
        } else {
            None
        }
    }
}

/// Whether a buffer of `len` bytes holds exactly a matrix of side `d` with
/// `s`-byte cells.
pub fn holds_matrix(len: usize, s: usize, d: usize) -> (holds: bool)
    ensures
        holds == (len == matrix_len(s as nat, d as nat)),
{
    if s == 0 || d == 0 {
        assert(s * d * d == 0) by (nonlinear_arith)
            requires
                s == 0 || d == 0,
        ;
        return len == 0;
    }
    proof {
        lemma_len_by_division(s as int, d as int, len as int);
    }
    // s * d * d == len, by division: the product itself may not fit
    if len % d != 0 {
        return false;
    }
    let rows: usize = len / d;
    rows % d == 0 && rows / d == s
}

/// `len` is `s * d * d` exactly when dividing `len` by `d` twice leaves `s`
/// and no remainder.
proof fn lemma_len_by_division(s: int, d: int, len: int)
    requires
        0 < s,
        0 <= d,
        0 <= len,
    ensures
        d == 0 ==> (len == s * d * d <==> len == 0),
        d > 0 ==> (len == s * d * d <==> len % d == 0 && (len / d) % d == 0 && (len / d) / d == s),
{
    if d == 0 {
        assert(s * d * d == 0) by (nonlinear_arith)
            requires
                d == 0,
        ;
    } else {
        vstd::arithmetic::div_mod::lemma_fundamental_div_mod(len, d);
        vstd::arithmetic::div_mod::lemma_fundamental_div_mod(len / d, d);
        if len == s * d * d {
            vstd::arithmetic::div_mod::lemma_fundamental_div_mod_converse(len, d, s * d, 0);
            vstd::arithmetic::div_mod::lemma_fundamental_div_mod_converse(len / d, d, s, 0);
        }
        if len % d == 0 && (len / d) % d == 0 && (len / d) / d == s {
            let rows = len / d;
            assert(len == s * d * d) by (nonlinear_arith)
                requires
                    len == d * rows,
                    rows == d * s,
            ;
        }
    }
}

/// Transposes the matrix with as many workers as it is meant for, and hands
/// out its bytes.
pub fn transpose(data: MatrixData) -> (bytes: Vec<u8>)
    requires
        data@.wf(),
    ensures
        bytes@ == data@.transposed_bytes(),
{
    let MatrixData { matrix_type_size, matrix_dimensions, matrix_vec, worker_hint } = data;
    let mut buffer = matrix_vec;
    let workers = if worker_hint == 0 {
        1
    } else {
        worker_hint
    };
    transpose_in_place(&mut buffer, matrix_type_size, matrix_dimensions, workers);
    buffer
}

/// The state of a job together with what it holds in that state. While the
/// job runs, its buffer is with the workers and only its shape stays behind.
pub enum Task {
    NoData,
    Reserved(MatrixData),
    Ready(MatrixData),
    Running { matrix_type_size: usize, matrix_dimensions: usize },
    Completed(Vec<u8>),
}

/// A `Task` with its bytes as sequences.
pub enum TaskView {
    NoData,
    Reserved(MatrixView),
    Ready(MatrixView),
    Running { type_size: nat, dimensions: nat },
    Completed(Seq<u8>),
}

impl TaskView {
    /// A buffer that the job holds has the length that its shape asks for.
    pub open spec fn wf(self) -> bool {
        match self {
            TaskView::NoData => true,
            TaskView::Reserved(m) => m.wf(),
            TaskView::Ready(m) => m.wf(),
            TaskView::Running { type_size, dimensions } => type_size >= 1,
            TaskView::Completed(_) => true,
        }
    }

    /// What a poll reports of a job in this state: a filled job still counts
    /// as reserved until it is started.
    pub open spec fn status(self) -> StatusView {
        match self {
            TaskView::NoData => StatusView::NoData,
            TaskView::Reserved(_) => StatusView::Reserved,
            TaskView::Ready(_) => StatusView::Reserved,
            TaskView::Running { .. } => StatusView::Running,
            TaskView::Completed(bytes) => StatusView::Completed { matrix_bytes: bytes },
        }
    }

    /// The job after the reservation of a zeroed matrix of `len` bytes.
    pub open spec fn reserved(type_size: nat, dimensions: nat) -> TaskView {
        TaskView::Reserved(
            MatrixView {
                type_size,
                dimensions,
                bytes: Seq::new(matrix_len(type_size, dimensions), |i: int| 0u8),
                worker_hint: DEFAULT_WORKERS as nat,
            },
        )
    }

    /// Whether `payload` can fill this job: it is reserved and not empty, and
    /// the payload has its length.
    pub open spec fn takes(self, payload: Seq<u8>) -> bool {
        self matches TaskView::Reserved(m) && m.bytes.len() > 0 && payload.len() == m.bytes.len()
    }

    /// The job after `payload` has filled it.
    pub open spec fn filled(self, payload: Seq<u8>) -> TaskView {
        match self {
            TaskView::Reserved(m) => TaskView::Ready(m.with_bytes(payload)),
            _ => self,
        }
    }

    /// The matrix that leaves the job when it is started for `workers`
    /// workers.
    pub open spec fn order(self, workers: nat) -> MatrixView {
        match self {
            TaskView::Ready(m) => m.with_workers(workers),
            _ => arbitrary(),
        }
    }

    /// The job after it has been started.
    pub open spec fn started(self) -> TaskView {
        match self {
            TaskView::Ready(m) => TaskView::Running {
                type_size: m.type_size,
                dimensions: m.dimensions,
            },
            _ => self,
        }
    }

    /// Whether `bytes` can be what the workers of this job hand back: the job
    /// runs and the buffer has the length of its matrix.
    pub open spec fn awaits(self, bytes: Seq<u8>) -> bool {
        self matches TaskView::Running { type_size, dimensions } && bytes.len() == matrix_len(
            type_size,
            dimensions,
        )
    }

    /// The job after its workers have handed `bytes` back.
    pub open spec fn completed(self, bytes: Seq<u8>) -> TaskView {
        match self {
            TaskView::Running { .. } => TaskView::Completed(bytes),
            _ => self,
        }
    }
}

impl View for Task {
    type V = TaskView;

    open spec fn view(&self) -> TaskView {
        match self {
            Task::NoData => TaskView::NoData,
            Task::Reserved(data) => TaskView::Reserved(data@),
            Task::Ready(data) => TaskView::Ready(data@),
            Task::Running { matrix_type_size, matrix_dimensions } => TaskView::Running {
                type_size: *matrix_type_size as nat,
                dimensions: *matrix_dimensions as nat,
            },
            Task::Completed(bytes) => TaskView::Completed(bytes@),
        }
    }
}

/// The message of a fill that did not get the bytes of its matrix.
pub open spec fn client_disconnected() -> Seq<char> {
    "the client disconnected"@
}

impl Task {
    /// Reserves a zeroed matrix for a job that holds nothing yet, if
    /// `available` bytes of free memory admit it.
    pub fn reserve(
        &mut self,
        matrix_type: MatrixType,
        matrix_dimension: u32,
        available: u64,
    ) -> (outcome: Result<(), String>)
        requires
            *old(self) is NoData,
        ensures
            outcome is Ok <==> admitted(
                available as int,
                matrix_len(matrix_type.size(), matrix_dimension as nat) as int,
            ) && matrix_len(matrix_type.size(), matrix_dimension as nat) <= usize::MAX,
            outcome is Ok ==> final(self)@ == TaskView::reserved(
                matrix_type.size(),
                matrix_dimension as nat,
            ) && final(self)@.wf(),
            outcome matches Err(message) ==> message@ == not_enough_memory() && *final(self)
                is NoData,
    {
        let len = matrix_bytes(matrix_type, matrix_dimension);
        if len > usize::MAX as u128 || !admits(available, len) {
            return Err(String::from_str("not enough memory"));
        }
        let matrix_vec = vec![0u8; len as usize];
        assert(matrix_vec@ =~= Seq::new(len as nat, |i: int| 0u8));
        *self = Task::Reserved(
            MatrixData {
                matrix_type_size: matrix_type.get_type_size() as usize,
                matrix_dimensions: matrix_dimension as usize,
                matrix_vec,
                worker_hint: DEFAULT_WORKERS,
            },
        );
        Ok(())
    }

    /// Fills a reserved job with the bytes of its matrix. A payload of
    /// another length than the matrix, or an empty matrix, is taken as a
    /// client that went away: the job stays as it was.
    pub fn fill(&mut self, payload: Vec<u8>) -> (outcome: Result<(), String>)
        requires
            *old(self) is Reserved,
        ensures
            outcome is Ok <==> old(self)@.takes(payload@),
            outcome is Ok ==> final(self)@ == old(self)@.filled(payload@),
            outcome matches Err(message) ==> message@ == client_disconnected() && final(self)@
                == old(self)@,
            old(self)@.wf() ==> final(self)@.wf(),
    {
        let mut task = Task::NoData;
        std::mem::swap(self, &mut task);
        match task {
            Task::Reserved(data) => {
                let MatrixData { matrix_type_size, matrix_dimensions, matrix_vec, worker_hint } =
                    data;
                if matrix_vec.len() == 0 || payload.len() != matrix_vec.len() {
                    *self = Task::Reserved(
                        MatrixData {
                            matrix_type_size,
                            matrix_dimensions,
                            matrix_vec,
                            worker_hint,
                        },
                    );
                    Err(String::from_str("the client disconnected"))
                } else {
                    *self = Task::Ready(
                        MatrixData {
                            matrix_type_size,
                            matrix_dimensions,
                            matrix_vec: payload,
                            worker_hint,
                        },
                    );
                    Ok(())
                }
            },
            _ => vstd::pervasive::unreached(),
        }
    }

    /// Starts a filled job: its matrix leaves for the workers, `workers` of
    /// them if that is not zero, and the job runs.
    pub fn run(&mut self, workers: usize) -> (order: MatrixData)
        requires
            *old(self) is Ready,
        ensures
            order@ == old(self)@.order(workers as nat),
            final(self)@ == old(self)@.started(),
            old(self)@.wf() ==> order@.wf() && final(self)@.wf(),
    {
        let mut task = Task::NoData;
        std::mem::swap(self, &mut task);
        match task {
            Task::Ready(data) => {
                let MatrixData { matrix_type_size, matrix_dimensions, matrix_vec, worker_hint } =
                    data;
                *self = Task::Running { matrix_type_size, matrix_dimensions };
                MatrixData {
                    matrix_type_size,
                    matrix_dimensions,
                    matrix_vec,
                    worker_hint: if workers > 0 {
                        workers
                    } else {
                        worker_hint
                    },
                }
            },
            _ => vstd::pervasive::unreached(),
        }
    }

    /// Takes back the buffer of a running job: the job is completed.
    pub fn complete(&mut self, bytes: Vec<u8>)
        requires
            old(self)@.awaits(bytes@),
        ensures
            final(self)@ == old(self)@.completed(bytes@),
    {
        *self = Task::Completed(bytes);
    }
}

} // verus!
