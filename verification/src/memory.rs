//! Admission of reservations: enough memory must be available to hold the
//! matrix and still leave a fixed headroom.

use vstd::prelude::*;
use sysinfo::SystemExt;
use crate::matrix_type::MatrixType;

verus! {

/// Bytes that stay free for the rest of the machine whatever is reserved.
pub const AVAILABLE_MEMORY_THRESHOLD: u64 = 500_000_000;

/// Bytes that a matrix of side `d` with `s`-byte cells takes.
pub open spec fn matrix_len(s: nat, d: nat) -> nat {
    s * d * d
}

/// A reservation of `len` bytes is granted when taking the headroom and the
/// reservation from what is available leaves no debt.
pub open spec fn admitted(available: int, len: int) -> bool {
    available - AVAILABLE_MEMORY_THRESHOLD - len >= 0
}

/// The message of a refused reservation.
pub open spec fn not_enough_memory() -> Seq<char> {
    "not enough memory"@
}

/// Reads the available physical memory, in bytes, from the operating system
/// through `sysinfo`: a fresh `System` with only its memory figures loaded,
/// asked for `available_memory`. The figure is the machine's own; nothing is
/// claimed of it.
#[verifier::external_body]
pub(crate) fn available_memory() -> (available: u64) {
    let system = sysinfo::System::new_with_specifics(sysinfo::RefreshKind::new().with_memory());
    system.available_memory()
}

/// The number of bytes of a matrix of the given type and side.
pub fn matrix_bytes(matrix_type: MatrixType, matrix_dimension: u32) -> (len: u128)
    ensures
        len == matrix_len(matrix_type.size(), matrix_dimension as nat),
{
    let s: u128 = matrix_type.get_type_size() as u128;
    let d: u128 = matrix_dimension as u128;
    assert(s * d * d <= 8 * 0x1_0000_0000 * 0x1_0000_0000) by (nonlinear_arith)
        requires
            0 <= s <= 8,
            0 <= d <= 0x1_0000_0000,
    ;
    assert(s * d <= 8 * 0x1_0000_0000) by (nonlinear_arith)
        requires
            0 <= s <= 8,
            0 <= d <= 0x1_0000_0000,
    ;
    s * d * d
}

/// Whether `len` bytes may be reserved while `available` bytes are free.
pub fn admits(available: u64, len: u128) -> (granted: bool)
    ensures
        granted == admitted(available as int, len as int),
{
    len <= available as u128 && available as u128 - len >= AVAILABLE_MEMORY_THRESHOLD as u128
}

/// Allocates a zeroed buffer of `len` bytes if `available` bytes of free
/// memory admit it, and refuses otherwise.
pub fn allocate_if_admitted(len: usize, available: u64) -> (buffer: Result<Vec<u8>, String>)
    ensures
        admitted(available as int, len as int) ==> buffer is Ok && buffer->Ok_0@ == Seq::new(
            len as nat,
            |i: int| 0u8,
        ),
        !admitted(available as int, len as int) ==> buffer is Err && buffer->Err_0@
            == not_enough_memory(),
{
    if !admits(available, len as u128) {
        return Err(String::from_str("not enough memory"));
    }
    let zeroed = vec![0u8; len];
    assert(zeroed@ =~= Seq::new(len as nat, |i: int| 0u8));
    Ok(zeroed)
}

/// Allocates a zeroed buffer of `len` bytes if the memory that the machine
/// reports as available admits it. Whatever is reported, a granted buffer is
/// zeroed and `len` bytes long, and a refusal says that memory is short.
pub fn reserve_if_available(len: usize) -> (buffer: Result<Vec<u8>, String>)
    ensures
        buffer matches Ok(zeroed) ==> zeroed@ == Seq::new(len as nat, |i: int| 0u8),
        buffer matches Err(message) ==> message@ == not_enough_memory(),
{
    let available = available_memory();
    allocate_if_admitted(len, available)
}

} // verus!
