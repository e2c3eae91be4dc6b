//! The jobs of one connection: a table from ids to jobs, with ids handed out
//! in rising order from one and never handed out twice.

use vstd::prelude::*;
use std::collections::HashMap;
use crate::matrix_type::MatrixType;
use crate::memory::{admitted, available_memory, matrix_len, not_enough_memory};
use crate::status::{Status, StatusView};
use crate::task::{
    client_disconnected, holds_matrix, transpose, MatrixData, MatrixView, Task, TaskView,
};

verus! {

broadcast use vstd::std_specs::hash::group_hash_axioms;

/// The jobs of one connection.
pub struct JobManager {
    task_iterator: u64,
    tasks: HashMap<u64, Task>,
}

/// A `JobManager` as the next id and a map from ids to jobs.
pub struct ManagerView {
    pub next_id: nat,
    pub tasks: Map<u64, TaskView>,
}

/// The message of a request that names an id with no reserved job behind it.
pub open spec fn id_not_reserved() -> Seq<char> {
    "the id is not reserved"@
}

impl ManagerView {
    /// Ids start at one, every job in the table has an id that was handed
    /// out, holds something, and holds a buffer of the right length.
    pub open spec fn wf(self) -> bool {
        &&& 1 <= self.next_id <= u64::MAX
        &&& forall|id: u64| #[trigger]
            self.tasks.contains_key(id) ==> 1 <= id < self.next_id && self.tasks[id].wf()
                && !(self.tasks[id] is NoData)
    }

    /// The table of a connection that has asked for nothing yet.
    pub open spec fn fresh() -> ManagerView {
        ManagerView { next_id: 1, tasks: Map::empty() }
    }

    /// What a poll of `id` reports.
    pub open spec fn status(self, id: u64) -> StatusView {
        if self.tasks.contains_key(id) {
            self.tasks[id].status()
        } else {
            StatusView::NoData
        }
    }

    /// The table after `task` has taken the next id.
    pub open spec fn reserved(self, task: TaskView) -> ManagerView {
        ManagerView {
            next_id: self.next_id + 1,
            tasks: self.tasks.insert(self.next_id as u64, task),
        }
    }

    /// The table after a poll of `id`: a completed job leaves with its bytes.
    pub open spec fn polled(self, id: u64) -> ManagerView {
        if self.tasks.contains_key(id) && self.tasks[id] is Completed {
            ManagerView { tasks: self.tasks.remove(id), ..self }
        } else {
            self
        }
    }

    /// Whether `id` names a reserved job that has not been filled.
    pub open spec fn is_reserved(self, id: u64) -> bool {
        self.tasks.contains_key(id) && self.tasks[id] is Reserved
    }

    /// Whether `id` names a job that `payload` can fill.
    pub open spec fn takes(self, id: u64, payload: Seq<u8>) -> bool {
        self.tasks.contains_key(id) && self.tasks[id].takes(payload)
    }

    /// The table after `payload` has filled the job `id`.
    pub open spec fn filled(self, id: u64, payload: Seq<u8>) -> ManagerView {
        ManagerView { tasks: self.tasks.insert(id, self.tasks[id].filled(payload)), ..self }
    }

    /// Whether `id` names a filled job that has not been started.
    pub open spec fn is_ready(self, id: u64) -> bool {
        self.tasks.contains_key(id) && self.tasks[id] is Ready
    }

    /// The table after the job `id` has been started.
    pub open spec fn started(self, id: u64) -> ManagerView {
        ManagerView { tasks: self.tasks.insert(id, self.tasks[id].started()), ..self }
    }

    /// Whether `id` names a running job whose workers can hand `bytes` back.
    pub open spec fn awaits(self, id: u64, bytes: Seq<u8>) -> bool {
        self.tasks.contains_key(id) && self.tasks[id].awaits(bytes)
    }

    /// The table after the workers of job `id` have handed `bytes` back.
    pub open spec fn completed(self, id: u64, bytes: Seq<u8>) -> ManagerView {
        if self.awaits(id, bytes) {
            ManagerView { tasks: self.tasks.insert(id, self.tasks[id].completed(bytes)), ..self }
        } else {
            self
        }
    }

    /// The table after each of `orders` has been transposed and handed back
    /// to the job it came from, first to last.
    pub open spec fn processed(self, orders: Seq<(u64, MatrixView)>) -> ManagerView
        decreases orders.len(),
    {
        if orders.len() == 0 {
            self
        } else {
            self.completed(orders[0].0, orders[0].1.transposed_bytes()).processed(
                orders.drop_first(),
            )
        }
    }
}

/// The ids and matrices of a queue of orders.
pub open spec fn orders_view(orders: Seq<(u64, MatrixData)>) -> Seq<(u64, MatrixView)> {
    orders.map_values(|order: (u64, MatrixData)| (order.0, order.1@))
}

impl View for JobManager {
    type V = ManagerView;

    closed spec fn view(&self) -> ManagerView {
        ManagerView {
            next_id: self.task_iterator as nat,
            tasks: Map::new(
                |id: u64| self.tasks@.contains_key(id),
                |id: u64| self.tasks@[id]@,
            ),
        }
    }
}

/// A table with no job in it; the first id it hands out is one.
pub fn new_manager() -> (manager: JobManager)
    ensures
        manager@ == ManagerView::fresh(),
        manager@.wf(),
{
    let manager = JobManager { task_iterator: 1, tasks: HashMap::new() };
    assert(manager@.tasks =~= Map::empty());
    manager
}

impl JobManager {
    /// The id that the next reservation gets.
    pub fn next_id(&self) -> (id: u64)
        ensures
            id == self@.next_id,
    {
        self.task_iterator
    }

    /// Reserves a zeroed matrix under the next id, if `available` bytes of
    /// free memory admit it. A refusal changes nothing.
    pub fn reserve_with(
        &mut self,
        matrix_type: MatrixType,
        matrix_dimension: u32,
        available: u64,
    ) -> (outcome: Result<u64, String>)
        requires
            old(self)@.wf(),
            old(self)@.next_id < u64::MAX,
        ensures
            final(self)@.wf(),
            outcome is Ok <==> admitted(
                available as int,
                matrix_len(matrix_type.size(), matrix_dimension as nat) as int,
            ) && matrix_len(matrix_type.size(), matrix_dimension as nat) <= usize::MAX,
            outcome matches Ok(id) ==> id == old(self)@.next_id && final(self)@ == old(
                self,
            )@.reserved(TaskView::reserved(matrix_type.size(), matrix_dimension as nat)),
            outcome matches Err(message) ==> message@ == not_enough_memory() && final(self)@ == old(
                self,
            )@,
    {
        let mut task = Task::NoData;
        match task.reserve(matrix_type, matrix_dimension, available) {
            Ok(()) => {
                let id = self.task_iterator;
                self.tasks.insert(id, task);
                self.task_iterator = id + 1;
                assert(final(self)@.tasks =~= old(self)@.reserved(
                    TaskView::reserved(matrix_type.size(), matrix_dimension as nat),
                ).tasks);
                Ok(id)
            },
            Err(message) => Err(message),
        }
    }

    /// Reserves a zeroed matrix under the next id, if the memory that the
    /// machine reports as available admits it. Whatever is reported, a
    /// granted reservation takes the next id and a refusal changes nothing.
    pub fn reserve(&mut self, matrix_type: MatrixType, matrix_dimension: u32) -> (outcome: Result<
        u64,
        String,
    >)
        requires
            old(self)@.wf(),
            old(self)@.next_id < u64::MAX,
        ensures
            final(self)@.wf(),
            outcome matches Ok(id) ==> id == old(self)@.next_id && final(self)@ == old(
                self,
            )@.reserved(TaskView::reserved(matrix_type.size(), matrix_dimension as nat)),
            outcome matches Err(message) ==> message@ == not_enough_memory() && final(self)@ == old(
                self,
            )@,
    {
        let available = available_memory();
        self.reserve_with(matrix_type, matrix_dimension, available)
    }

    /// The number of bytes that the job `id` waits for, if it is reserved and
    /// not filled yet.
    pub fn payload_len(&self, id: u64) -> (len: Option<usize>)
        ensures
            len is Some <==> self@.is_reserved(id),
            len matches Some(n) ==> self@.tasks[id] matches TaskView::Reserved(m) && n
                == m.bytes.len(),
    {
        match self.tasks.get(&id) {
            Some(Task::Reserved(data)) => Some(data.matrix_vec.len()),
            _ => None,
        }
    }

    /// Fills the reserved job `id` with the bytes of its matrix. An id with
    /// no reserved job behind it is refused, and so is a payload that the job
    /// cannot take; a refusal changes nothing.
    pub fn fill(&mut self, id: u64, payload: Vec<u8>) -> (outcome: Result<(), String>)
        requires
            old(self)@.wf(),
        ensures
            final(self)@.wf(),
            outcome is Ok <==> old(self)@.takes(id, payload@),
            outcome is Ok ==> final(self)@ == old(self)@.filled(id, payload@),
            outcome matches Err(message) ==> final(self)@ == old(self)@ && message@ == (if old(
                self,
            )@.is_reserved(id) {
                client_disconnected()
            } else {
                id_not_reserved()
            }),
    {
        if self.payload_len(id).is_none() {
            return Err(String::from_str("the id is not reserved"));
        }
        let taken = self.tasks.remove(&id);
        let mut task = match taken {
            Some(task) => task,
            None => vstd::pervasive::unreached(),
        };
        let outcome = task.fill(payload);
        self.tasks.insert(id, task);
        proof {
            if outcome is Ok {
                assert(final(self)@.tasks =~= old(self)@.filled(id, payload@).tasks);
            } else {
                assert(final(self)@.tasks =~= old(self)@.tasks);
            }
        }
        outcome
    }

    /// Starts the filled job `id`: its matrix leaves for the workers,
    /// `workers` of them if that is not zero, and the job runs. An id with no
    /// filled job behind it is refused and changes nothing.
    pub fn start(&mut self, id: u64, workers: usize) -> (outcome: Result<MatrixData, String>)
        requires
            old(self)@.wf(),
        ensures
            final(self)@.wf(),
            outcome is Ok <==> old(self)@.is_ready(id),
            outcome matches Ok(order) ==> order@ == old(self)@.tasks[id].order(workers as nat)
                && order@.wf() && final(self)@ == old(self)@.started(id),
            outcome matches Err(message) ==> message@ == id_not_reserved() && final(self)@ == old(
                self,
            )@,
    {
        let ready = match self.tasks.get(&id) {
            Some(Task::Ready(_)) => true,
            _ => false,
        };
        if !ready {
            return Err(String::from_str("the id is not reserved"));
        }
        let taken = self.tasks.remove(&id);
        let mut task = match taken {
            Some(task) => task,
            None => vstd::pervasive::unreached(),
        };
        let order = task.run(workers);
        self.tasks.insert(id, task);
        assert(final(self)@.tasks =~= old(self)@.started(id).tasks);
        Ok(order)
    }

    /// Fills the reserved job `id` and starts it with the number of workers
    /// it is meant for. What comes back is the matrix for the workers.
    pub fn calc(&mut self, id: u64, payload: Vec<u8>) -> (outcome: Result<MatrixData, String>)
        requires
            old(self)@.wf(),
        ensures
            final(self)@.wf(),
            outcome is Ok <==> old(self)@.takes(id, payload@),
            outcome matches Ok(order) ==> order@ == old(self)@.filled(id, payload@).tasks[id].order(
                0,
            ) && order@.wf() && order@.bytes == payload@ && final(self)@ == old(self)@.filled(
                id,
                payload@,
            ).started(id),
            outcome matches Err(message) ==> final(self)@ == old(self)@ && message@ == (if old(
                self,
            )@.is_reserved(id) {
                client_disconnected()
            } else {
                id_not_reserved()
            }),
    {
        match self.fill(id, payload) {
            Ok(()) => self.start(id, 0),
            Err(message) => Err(message),
        }
    }

    /// Takes back the buffer of the running job `id`: the job is completed.
    /// Says whether it was taken; a buffer for a job that does not run, or of
    /// another length than its matrix, is dropped and changes nothing.
    pub fn complete(&mut self, id: u64, bytes: Vec<u8>) -> (taken: bool)
        requires
            old(self)@.wf(),
        ensures
            final(self)@.wf(),
            taken == old(self)@.awaits(id, bytes@),
            final(self)@ == old(self)@.completed(id, bytes@),
    {
        let awaited = match self.tasks.get(&id) {
            Some(Task::Running { matrix_type_size, matrix_dimensions }) => holds_matrix(
                bytes.len(),
                *matrix_type_size,
                *matrix_dimensions,
            ),
            _ => false,
        };
        if !awaited {
            return false;
        }
        let taken = self.tasks.remove(&id);
        let mut task = match taken {
            Some(task) => task,
            None => vstd::pervasive::unreached(),
        };
        task.complete(bytes);
        self.tasks.insert(id, task);
        assert(final(self)@.tasks =~= old(self)@.completed(id, bytes@).tasks);
        true
    }

    /// Reports the state of the job `id`. A completed job leaves the table
    /// with its bytes; an id with no job behind it has no data.
    pub fn poll(&mut self, id: u64) -> (status: Status)
        requires
            old(self)@.wf(),
        ensures
            final(self)@.wf(),
            status@ == old(self)@.status(id),
            final(self)@ == old(self)@.polled(id),
    {
        let completed = match self.tasks.get(&id) {
            Some(Task::Reserved(_)) => {
                return Status::Reserved;
            },
            Some(Task::Ready(_)) => {
                return Status::Reserved;
            },
            Some(Task::Running { .. }) => {
                return Status::Running;
            },
            Some(Task::NoData) => {
                return Status::NoData;
            },
            Some(Task::Completed(_)) => true,
            None => {
                return Status::NoData;
            },
        };
        match self.tasks.remove(&id) {
            Some(Task::Completed(matrix_bytes)) => {
                assert(final(self)@.tasks =~= old(self)@.polled(id).tasks);
                Status::Completed { matrix_bytes }
            },
            _ => vstd::pervasive::unreached(),
        }
    }
}

/// Transposes each order of the queue, first to last, and hands its bytes
/// back to the job it came from.
pub fn process_tasks(manager: &mut JobManager, orders: Vec<(u64, MatrixData)>)
    requires
        old(manager)@.wf(),
        forall|k: int| 0 <= k < orders@.len() ==> (#[trigger] orders@[k]).1@.wf(),
    ensures
        final(manager)@.wf(),
        final(manager)@ == old(manager)@.processed(orders_view(orders@)),
{
    let mut queue = orders;
    while queue.len() > 0
        invariant
            manager@.wf(),
            forall|k: int| 0 <= k < queue@.len() ==> (#[trigger] queue@[k]).1@.wf(),
            manager@.processed(orders_view(queue@)) == old(manager)@.processed(
                orders_view(orders@),
            ),
        decreases queue@.len(),
    {
        let ghost before = orders_view(queue@);
        let (id, data) = queue.remove(0);
        assert(orders_view(queue@) =~= before.drop_first());
        let bytes = transpose(data);
        manager.complete(id, bytes);
    }
}

/// What can happen to the table of a connection.
pub enum Operation {
    Reserve { task: TaskView },
    Fill { id: u64, payload: Seq<u8> },
    Start { id: u64 },
    Complete { id: u64, bytes: Seq<u8> },
    Poll { id: u64 },
}

impl ManagerView {
    /// The table after `op`. An operation that the table refuses changes
    /// nothing.
    pub open spec fn after(self, op: Operation) -> ManagerView {
        match op {
            Operation::Reserve { task } => if self.next_id < u64::MAX && task is Reserved
                && task.wf() {
                self.reserved(task)
            } else {
                self
            },
            Operation::Fill { id, payload } => if self.takes(id, payload) {
                self.filled(id, payload)
            } else {
                self
            },
            Operation::Start { id } => if self.is_ready(id) {
                self.started(id)
            } else {
                self
            },
            Operation::Complete { id, bytes } => self.completed(id, bytes),
            Operation::Poll { id } => self.polled(id),
        }
    }

    /// The table after each of `ops`, first to last.
    pub open spec fn after_all(self, ops: Seq<Operation>) -> ManagerView
        decreases ops.len(),
    {
        if ops.len() == 0 {
            self
        } else {
            self.after(ops[0]).after_all(ops.drop_first())
        }
    }
}

/// No operation breaks the table, takes an id back, or brings a job under an
/// id that was handed out before and is no longer in the table.
pub proof fn lemma_operation_keeps_ids(m: ManagerView, op: Operation, id: u64)
    requires
        m.wf(),
    ensures
        m.after(op).wf(),
        m.after(op).next_id >= m.next_id,
        id < m.next_id && !m.tasks.contains_key(id) ==> !m.after(op).tasks.contains_key(id),
{
}

/// Whatever happens to a table, its next id never falls, and an id that was
/// handed out and has left the table stays out.
pub proof fn lemma_operations_keep_ids(m: ManagerView, ops: Seq<Operation>, id: u64)
    requires
        m.wf(),
    ensures
        m.after_all(ops).wf(),
        m.after_all(ops).next_id >= m.next_id,
        id < m.next_id && !m.tasks.contains_key(id) ==> !m.after_all(ops).tasks.contains_key(id),
    decreases ops.len(),
{
    if ops.len() > 0 {
        lemma_operation_keeps_ids(m, ops[0], id);
        lemma_operations_keep_ids(m.after(ops[0]), ops.drop_first(), id);
    }
}

/// The first id of a connection is one, and of two reservations the later
/// gets the greater id, whatever happens between them.
pub proof fn lemma_ids_rise(m: ManagerView, first: TaskView, between: Seq<Operation>)
    requires
        m.wf(),
    ensures
        ManagerView::fresh().wf(),
        ManagerView::fresh().next_id == 1,
        m.reserved(first).wf() ==> m.reserved(first).after_all(between).next_id > m.next_id,
{
    if m.reserved(first).wf() {
        lemma_operations_keep_ids(m.reserved(first), between, 0);
    }
}

/// Once a poll has delivered a completed job, its id is gone for good: every
/// later poll of it finds no data, and no later reservation gets that id.
pub proof fn lemma_single_delivery(m: ManagerView, id: u64, later: Seq<Operation>)
    requires
        m.wf(),
        m.status(id) is Completed,
    ensures
        m.polled(id).status(id) is NoData,
        m.polled(id).after_all(later).status(id) is NoData,
        m.polled(id).after_all(later).next_id > id,
{
    assert(m.tasks.contains_key(id));
    assert(m.polled(id).wf());
    lemma_operations_keep_ids(m.polled(id), later, id);
}

/// From its start until its workers hand the buffer back, a job is reported
/// as running, whatever else happens on the connection.
pub proof fn lemma_running_until_completed(m: ManagerView, id: u64, meanwhile: Seq<Operation>)
    requires
        m.wf(),
        m.is_ready(id),
        forall|k: int|
            0 <= k < meanwhile.len() ==> !(#[trigger] meanwhile[k] matches Operation::Complete {
                id: done,
                ..
            } && done == id),
    ensures
        m.started(id).status(id) is Running,
        m.started(id).after_all(meanwhile).status(id) is Running,
{
    assert(m.started(id).wf());
    lemma_stays_running(m.started(id), id, meanwhile);
}

proof fn lemma_stays_running(m: ManagerView, id: u64, meanwhile: Seq<Operation>)
    requires
        m.wf(),
        m.status(id) is Running,
        forall|k: int|
            0 <= k < meanwhile.len() ==> !(#[trigger] meanwhile[k] matches Operation::Complete {
                id: done,
                ..
            } && done == id),
    ensures
        m.after_all(meanwhile).status(id) is Running,
    decreases meanwhile.len(),
{
    if meanwhile.len() > 0 {
        let next = m.after(meanwhile[0]);
        lemma_operation_keeps_ids(m, meanwhile[0], id);
        assert(m.tasks.contains_key(id));
        assert(next.status(id) is Running);
        let rest = meanwhile.drop_first();
        assert forall|k: int| 0 <= k < rest.len() implies !(#[trigger] rest[k]
            matches Operation::Complete { id: done, .. } && done == id) by {
            assert(rest[k] == meanwhile[k + 1]);
        }
        lemma_stays_running(next, id, rest);
    }
}

/// A job that ran is completed with the bytes that its workers handed back,
/// and a poll then delivers exactly those bytes.
pub proof fn lemma_completed_is_delivered(m: ManagerView, id: u64, bytes: Seq<u8>)
    requires
        m.wf(),
        m.awaits(id, bytes),
    ensures
        m.completed(id, bytes).status(id) == (StatusView::Completed { matrix_bytes: bytes }),
{
}

} // verus!
