//! Setting up the consumer group: creating it twice is no error.

use vstd::prelude::*;
use vstd::utf8::*;

verus! {

/// How group setup ended when it did not fail.
#[derive(Clone, Copy, Debug, PartialEq, Eq)]
pub enum GroupSetup {
    /// The group was created, reading from the beginning of the log.
    Created,
    /// The group was there already; nothing was changed.
    AlreadyExists,
}

/// Group setup failed for a reason other than the group being there
/// already. The consumer cannot start.
#[derive(Clone, Copy, Debug, PartialEq, Eq)]
pub struct GroupSetupFailed;

/// Whether `needle` lies in `hay` at position `i`.
pub open spec fn occurs_at(hay: Seq<u8>, needle: Seq<u8>, i: int) -> bool {
    0 <= i && i + needle.len() <= hay.len() && hay.subrange(i, i + needle.len()) == needle
}

/// Whether `needle` lies somewhere in `hay`.
pub open spec fn contains_bytes(hay: Seq<u8>, needle: Seq<u8>) -> bool {
    exists|i: int| occurs_at(hay, needle, i)
}

/// The marker by which the log says that a group exists already.
pub open spec fn busy_marker() -> Seq<u8> {
    encode_utf8("BUSYGROUP"@)
}

/// Whether the log's error text says that the group exists already.
pub open spec fn says_group_exists(error_text: Seq<char>) -> bool {
    contains_bytes(encode_utf8(error_text), busy_marker())
}

/// Whether `needle` lies somewhere in `hay`.
pub fn bytes_contain(hay: &[u8], needle: &[u8]) -> (r: bool)
    ensures
        r == contains_bytes(hay@, needle@),
{
    let n: usize = needle.len();
    let h: usize = hay.len();
    if n > h {
        return false;
    }
    let mut i: usize = 0;
    while i <= h - n
        invariant
            n <= h,
            n == needle@.len(),
            h == hay@.len(),
            i <= h - n + 1,
            forall|j: int| 0 <= j < i ==> !occurs_at(hay@, needle@, j),
        decreases h - n + 1 - i,
    {
        let mut k: usize = 0;
        while k < n && hay[i + k] == needle[k]
            invariant
                k <= n,
                i + n <= h,
                n == needle@.len(),
                h == hay@.len(),
                forall|t: int| 0 <= t < k ==> hay@[i + t] == needle@[t],
            decreases n - k,
        {
            k += 1;
        }
        if k == n {
            assert(hay@.subrange(i as int, i + n) =~= needle@);
            assert(occurs_at(hay@, needle@, i as int));
            return true;
        }
        assert(!occurs_at(hay@, needle@, i as int)) by {
            if occurs_at(hay@, needle@, i as int) {
                assert(hay@.subrange(i as int, i + n)[k as int] == hay@[i + k]);
            }
        }
        i += 1;
    }
    false
}

/// Decides how group setup ended from what the log answered: no error means
/// the group was created; an error that says the group exists already is a
/// success too; any other error is fatal.
pub fn group_setup_outcome(error_text: Option<&str>) -> (r: Result<GroupSetup, GroupSetupFailed>)
    ensures
        r == (match error_text {
            None => Ok::<GroupSetup, GroupSetupFailed>(GroupSetup::Created),
            Some(t) => if says_group_exists(t@) {
                Ok::<GroupSetup, GroupSetupFailed>(GroupSetup::AlreadyExists)
            } else {
                Err::<GroupSetup, GroupSetupFailed>(GroupSetupFailed)
            },
        }),
{
    match error_text {
        None => Ok(GroupSetup::Created),
        Some(t) => {
            if bytes_contain(t.as_bytes(), "BUSYGROUP".as_bytes()) {
                Ok(GroupSetup::AlreadyExists)
            } else {
                Err(GroupSetupFailed)
            }
        },
    }
}

/// Setting the group up again after it exists succeeds: whatever else the
/// log's answer says, the marker alone decides.
pub proof fn lemma_second_setup_succeeds(before: Seq<u8>, after: Seq<u8>)
    ensures
        contains_bytes(before + busy_marker() + after, busy_marker()),
{
    let hay = before + busy_marker() + after;
    let i = before.len() as int;
    assert(hay.subrange(i, i + busy_marker().len()) =~= busy_marker());
    assert(occurs_at(hay, busy_marker(), i));
}

} // verus!
