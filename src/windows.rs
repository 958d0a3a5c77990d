//! The lookup on Windows: the interface table row of the best interface
//! towards the destination gives the MTU, and its index the name.
use vstd::prelude::*;
use crate::error::{default_err, MtuError};
use crate::text::{first_nul, name_string, until_nul};
use vstd::utf8::{decode_utf8, valid_utf8};

verus! {

/// The fields of a row of the IP interface table that the lookup reads.
pub struct MibRow {
    pub index: u32,
    pub mtu: u32,
}

/// The index of the first row of interface `idx`.
pub open spec fn row_index(rows: Seq<MibRow>, idx: u32) -> Option<int> {
    if exists|i: int| 0 <= i < rows.len() && (#[trigger] rows[i]).index == idx {
        Some(
            choose|i: int|
                0 <= i < rows.len() && (#[trigger] rows[i]).index == idx && forall|j: int|
                    0 <= j < i ==> (#[trigger] rows[j]).index != idx,
        )
    } else {
        None
    }
}

/// The MTU of interface `idx`: that of its first row, whatever its value.
pub open spec fn mtu_lookup(rows: Seq<MibRow>, idx: u32) -> Result<usize, MtuError> {
    match row_index(rows, idx) {
        Some(i) => Ok(rows[i].mtu as usize),
        None => Err(MtuError::NotFound),
    }
}

/// Finds the MTU of interface `idx` in the interface table.
pub fn mtu_for_index(rows: &Vec<MibRow>, idx: u32) -> (r: Result<usize, MtuError>)
    ensures
        r == mtu_lookup(rows@, idx),
{
    let mut i: usize = 0;
    while i < rows.len()
        invariant
            i <= rows@.len(),
            forall|j: int| 0 <= j < i ==> (#[trigger] rows@[j]).index != idx,
        decreases rows@.len() - i,
    {
        if rows[i].index == idx {
            let ghost s = rows@;
            let ghost k = choose|k: int|
                0 <= k < s.len() && (#[trigger] s[k]).index == idx && forall|j: int|
                    0 <= j < k ==> (#[trigger] s[j]).index != idx;
            assert(exists|k: int|
                0 <= k < s.len() && (#[trigger] s[k]).index == idx && forall|j: int|
                    0 <= j < k ==> (#[trigger] s[j]).index != idx) by {
                assert(s[i as int].index == idx);
            }
            assert(k == i) by {
                if k < i {
                    assert(s[k].index != idx);
                } else if k > i {
                    assert(s[i as int].index != idx);
                }
            }
            return Ok(rows[i].mtu as usize);
        }
        i = i + 1;
    }
    Err(default_err())
}

/// An MTU of `u32::MAX`, which an interface without a practical limit
/// reports, is a result like any other and not an error.
pub proof fn lemma_max_mtu_is_success(rows: Seq<MibRow>, idx: u32)
    requires
        row_index(rows, idx) matches Some(i) && rows[i].mtu == u32::MAX,
    ensures
        mtu_lookup(rows, idx) == Ok::<usize, MtuError>(4294967295usize),
{
}

/// The interface name that `if_indextoname` wrote into `buf`, which must end
/// in a NUL.
pub fn interface_name(buf: &[u8]) -> (r: Result<String, MtuError>)
    ensures
        first_nul(buf@) is None ==> r == Err::<String, MtuError>(MtuError::NotFound),
        first_nul(buf@) is Some && !valid_utf8(until_nul(buf@)) ==> r == Err::<String, MtuError>(
            MtuError::InvalidName,
        ),
        first_nul(buf@) is Some && valid_utf8(until_nul(buf@)) ==> (r matches Ok(s) && s@
            == decode_utf8(until_nul(buf@))),
{
    if crate::text::find_nul(buf).is_none() {
        return Err(default_err());
    }
    let name = crate::text::strip_nul(buf);
    match name_string(name.as_slice()) {
        Some(s) => Ok(s),
        None => Err(MtuError::InvalidName),
    }
}

} // verus!
