//! One connection from its first byte to its last: requests are read one
//! after the other, each is carried out on the jobs of the connection and
//! answered, and the connection ends where its bytes end or stop making
//! sense.

use vstd::prelude::*;
use vstd::slice::{slice_subrange, slice_to_vec};
use crate::job::{new_manager, ManagerView};
use crate::request::Request;
use crate::task::transpose;

verus! {

impl ManagerView {
    /// The number of bytes of a matrix that follow the frame of `request` on
    /// the connection: those of the reserved job that a `Calc` names, and
    /// none where it names no such job or the request is of another kind.
    pub open spec fn payload_len(self, request: Request) -> nat {
        match request {
            Request::Calc { id } => if self.is_reserved(id) {
                self.tasks[id]->Reserved_0.bytes.len()
            } else {
                0
            },
            _ => 0,
        }
    }

    /// The table after `request` has been carried out and the workers of a
    /// job that it started have finished.
    pub open spec fn settled(self, request: Request, payload: Seq<u8>, available: u64) -> ManagerView {
        match self.dispatched(request, payload) {
            Some(order) => self.served(request, payload, available).completed(
                request->Calc_id,
                order.transposed_bytes(),
            ),
            None => self.served(request, payload, available),
        }
    }

    /// The bytes that the server sends on a connection on which `stream`
    /// arrives, when its table is `self`, `available` bytes of memory are
    /// free throughout and every job is finished before the next request is
    /// read. The bytes of a matrix that the stream cuts short count as a
    /// payload of the wrong length; a frame that the stream cuts short is
    /// not answered; a frame that cannot be read is answered with an error,
    /// and nothing after it is read.
    pub open spec fn session(self, stream: Seq<u8>, available: u64) -> Seq<u8>
        decreases stream.len(),
    {
        match Request::decoded(stream) {
            Err(error) => match error.spec_refusal() {
                Some(response) => response.frame(),
                None => Seq::empty(),
            },
            Ok((request, used)) => {
                if 0 < used <= stream.len() {
                    let rest = stream.skip(used as int);
                    let wanted = self.payload_len(request);
                    let taken = if wanted <= rest.len() {
                        wanted
                    } else {
                        rest.len()
                    };
                    let payload = rest.take(taken as int);
                    self.answer(request, payload, available).frame() + self.settled(
                        request,
                        payload,
                        available,
                    ).session(rest.skip(taken as int), available)
                } else {
                    Seq::empty()
                }
            },
        }
    }
}

/// Serves a connection on which the bytes `stream` arrive, while `available`
/// bytes of memory are free, and gives the bytes that go back. The jobs of
/// the connection are its own, and each job is finished before the next
/// request is read.
pub fn handle_client(stream: &[u8], available: u64) -> (sent: Vec<u8>)
    ensures
        sent@ == ManagerView::fresh().session(stream@, available),
{
    let mut job_manager = new_manager();
    let mut sent: Vec<u8> = Vec::new();
    let mut at: usize = 0;
    let total = stream.len();
    assert(stream@.skip(0) =~= stream@);
    assert(sent@ + job_manager@.session(stream@, available) =~= job_manager@.session(
        stream@,
        available,
    ));
    loop
        invariant
            total == stream@.len(),
            at <= total,
            job_manager@.wf(),
            job_manager@.next_id + (total - at) <= total + 1,
            sent@ + job_manager@.session(stream@.skip(at as int), available)
                == ManagerView::fresh().session(stream@, available),
        decreases total - at,
    {
        let ghost before = job_manager@;
        let ghost left = stream@.skip(at as int);
        let ghost so_far = sent@;
        let remaining = slice_subrange(stream, at, total);
        assert(remaining@ == left);
        let (request, used) = match Request::from_stream(remaining) {
            Ok(read) => read,
            Err(error) => {
                match error.refusal() {
                    Some(response) => {
                        response.send(&mut sent);
                    },
                    None => {},
                }
                assert(sent@ == so_far + before.session(left, available));
                return sent;
            },
        };
        let rest_at: usize = at + used;
        let wanted: usize = match request {
            Request::Calc { id } => match job_manager.payload_len(id) {
                Some(len) => len,
                None => 0,
            },
            _ => 0,
        };
        let taken: usize = if wanted <= total - rest_at {
            wanted
        } else {
            total - rest_at
        };
        let payload = slice_to_vec(slice_subrange(stream, rest_at, rest_at + taken));
        proof {
            let rest = left.skip(used as int);
            assert(rest =~= stream@.skip(rest_at as int));
            assert(payload@ =~= rest.take(taken as int));
            assert(rest.skip(taken as int) =~= stream@.skip(rest_at + taken));
        }
        let (response, order) = request.execute_with(&mut job_manager, payload, available);
        match order {
            Some(order) => {
                match request {
                    Request::Calc { id } => {
                        let bytes = transpose(order);
                        job_manager.complete(id, bytes);
                    },
                    _ => {},
                }
            },
            None => {},
        }
        response.send(&mut sent);
        at = rest_at + taken;
        proof {
            assert(job_manager@ == before.settled(request, payload@, available));
            assert(sent@ + job_manager@.session(stream@.skip(at as int), available) =~= so_far
                + before.session(left, available));
        }
    }
}

} // verus!
