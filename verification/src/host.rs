//! How a raw return value of the kernel is read, and how an error number
//! is put into words, which the library takes from the `syscalls` crate.

use vstd::prelude::*;

verus! {

/// Largest error number that a raw return value can carry.
pub const MAX_ERRNO: usize = 4095;

/// A raw return value read as the kernel means it: the topmost `MAX_ERRNO`
/// values of the word are the negated error numbers, every other value is
/// the result of a call that succeeded.
pub open spec fn decode_return_spec(raw: usize) -> Result<usize, i32> {
    if raw > usize::MAX - MAX_ERRNO {
        Err((usize::MAX - raw + 1) as i32)
    } else {
        Ok(raw)
    }
}

/// The words in which the `syscalls` crate displays the error number `code`.
pub uninterp spec fn errno_text(code: int) -> Seq<char>;

/// Reads the raw return value `raw` as the kernel means it, which is also
/// how `syscalls::Errno::from_ret` reads it: an error number or a result.
pub(crate) fn decode_return(raw: usize) -> (r: Result<usize, i32>)
    ensures
        r == decode_return_spec(raw),
{
    if raw > usize::MAX - MAX_ERRNO {
        Err((usize::MAX - raw + 1) as i32)
    } else {
        Ok(raw)
    }
}

/// `Display` of `syscalls::Errno::new(code)`: the number, and for a number
/// the crate knows also its name and description. The text depends on the
/// number alone. The crate negates the number to display it, so the one
/// number that has no negative is left out.
#[verifier::external_body]
pub(crate) fn describe_errno(code: i32) -> (s: String)
    requires
        code > i32::MIN,
    ensures
        s@ == errno_text(code as int),
{
    format!("{}", syscalls::Errno::new(code))
}

/// A raw value decodes to an error exactly when it lies in the topmost
/// `MAX_ERRNO` values, and the error number is then between 1 and
/// `MAX_ERRNO`.
pub proof fn lemma_decode_return(raw: usize)
    ensures
        decode_return_spec(raw) matches Err(code) ==> 1 <= code <= MAX_ERRNO && code
            == usize::MAX - raw + 1,
        decode_return_spec(raw) matches Ok(value) ==> value == raw && raw <= usize::MAX
            - MAX_ERRNO,
{
}

} // verus!
