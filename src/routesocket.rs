//! The outcome of a read or write on a routing socket.
use vstd::prelude::*;
use crate::error::{unlikely_err, MtuError};

verus! {

/// The outcome of a `read` or `write` that returned `res`; `errno` is the
/// error code of the operating system after the call.
pub fn check_result(res: isize, errno: i32) -> (r: Result<usize, MtuError>)
    ensures
        res == -1 ==> r == Err::<usize, MtuError>(MtuError::Os(errno)),
        res >= 0 ==> r == Ok::<usize, MtuError>(res as usize),
        res < -1 ==> (r matches Err(e) && e is Unlikely),
{
    if res == -1 {
        Err(MtuError::Os(errno))
    } else if res < 0 {
        Err(unlikely_err("negative byte count".to_string()))
    } else {
        Ok(res as usize)
    }
}

} // verus!
