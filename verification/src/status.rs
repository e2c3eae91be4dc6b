//! What a poll reports about a job.

use vstd::prelude::*;

verus! {

/// The state of a job as a poll sees it. A finished job carries its bytes.
#[derive(Debug)]
pub enum Status {
    NoData,
    Reserved,
    Running,
    Completed { matrix_bytes: Vec<u8> },
}

/// A `Status` with the bytes of a finished job as a sequence.
pub enum StatusView {
    NoData,
    Reserved,
    Running,
    Completed { matrix_bytes: Seq<u8> },
}

impl StatusView {
    /// The byte that stands for this status on the wire.
    pub open spec fn wire_code(self) -> u8 {
        match self {
            StatusView::NoData => 0,
            StatusView::Reserved => 1,
            StatusView::Running => 2,
            StatusView::Completed { .. } => 3,
        }
    }

    /// The words used for this status in log lines.
    pub open spec fn name(self) -> Seq<char> {
        match self {
            StatusView::NoData => "no data"@,
            StatusView::Reserved => "reserved"@,
            StatusView::Running => "running"@,
            StatusView::Completed { .. } => "completed"@,
        }
    }
}

impl View for Status {
    type V = StatusView;

    open spec fn view(&self) -> StatusView {
        match self {
            Status::NoData => StatusView::NoData,
            Status::Reserved => StatusView::Reserved,
            Status::Running => StatusView::Running,
            Status::Completed { matrix_bytes } => StatusView::Completed {
                matrix_bytes: matrix_bytes@,
            },
        }
    }
}

impl Status {
    /// The wire code of this status.
    pub fn code(&self) -> (code: u8)
        ensures
            code == self@.wire_code(),
    {
        match self {
            Status::NoData => 0,
            Status::Reserved => 1,
            Status::Running => 2,
            Status::Completed { .. } => 3,
        }
    }

    /// The name of this status as a string.
    pub fn name(&self) -> (name: String)
        ensures
            name@ == self@.name(),
    {
        match self {
            Status::NoData => String::from_str("no data"),
            Status::Reserved => String::from_str("reserved"),
            Status::Running => String::from_str("running"),
            Status::Completed { .. } => String::from_str("completed"),
        }
    }
}

impl<'a> From<&'a Status> for u8 {
    fn from(value: &'a Status) -> (code: u8) {
        value.code()
    }
}

impl<'a> vstd::std_specs::convert::FromSpecImpl<&'a Status> for u8 {
    open spec fn obeys_from_spec() -> bool {
        true
    }

    open spec fn from_spec(value: &'a Status) -> u8 {
        value@.wire_code()
    }
}

impl<'a> From<&'a Status> for String {
    fn from(value: &'a Status) -> (name: String)
        ensures
            name@ == value@.name(),
    {
        value.name()
    }
}

impl<'a> vstd::std_specs::convert::FromSpecImpl<&'a Status> for String {
    open spec fn obeys_from_spec() -> bool {
        false
    }

    open spec fn from_spec(value: &'a Status) -> String {
        arbitrary()
    }
}

} // verus!
