//! What the ledger stores and what it reports as applied.
use vstd::prelude::*;

use crate::engine::Status;
use crate::order::ids_of;

verus! {

pub open spec fn success_tag() -> Seq<char> {
    seq!['s', 'u', 'c', 'c', 'e', 's', 's']
}

pub open spec fn failed_tag() -> Seq<char> {
    seq!['f', 'a', 'i', 'l', 'e', 'd']
}

/// The text stored in the status column.
pub fn status_tag(s: Status) -> (r: String)
    ensures
        s == Status::Success ==> r@ == success_tag(),
        s == Status::Failed ==> r@ == failed_tag(),
{
    match s {
        Status::Success => {
            proof {
                reveal_strlit("success");
            }
            String::from_str("success")
        },
        Status::Failed => {
            proof {
                reveal_strlit("failed");
            }
            String::from_str("failed")
        },
    }
}

/// The identifiers of the rows `(id, status)` whose status is a success, in
/// the order of the rows.
pub open spec fn successful(rows: Seq<(String, String)>) -> Seq<Seq<char>>
    decreases rows.len(),
{
    if rows.len() == 0 {
        Seq::empty()
    } else if rows.last().1@ == success_tag() {
        successful(rows.drop_last()).push(rows.last().0@)
    } else {
        successful(rows.drop_last())
    }
}

/// The applied migrations: the rows whose latest status is a success; a
/// failed one counts as not applied and is tried again.
pub fn applied_ids(rows: &Vec<(String, String)>) -> (r: Vec<String>)
    ensures
        ids_of(r@) == successful(rows@),
{
    let ok = status_tag(Status::Success);
    let mut r: Vec<String> = Vec::new();
    let mut i: usize = 0;
    while i < rows.len()
        invariant
            i <= rows@.len(),
            ok@ == success_tag(),
            ids_of(r@) == successful(rows@.subrange(0, i as int)),
        decreases rows@.len() - i,
    {
        assert(rows@.subrange(0, i + 1).drop_last() =~= rows@.subrange(0, i as int));
        assert(rows@.subrange(0, i + 1).last() == rows@[i as int]);
        if rows[i].1 == ok {
            r.push(rows[i].0.clone());
        }
        assert(ids_of(r@) =~= successful(rows@.subrange(0, i + 1)));
        i = i + 1;
    }
    assert(rows@.subrange(0, i as int) =~= rows@);
    r
}

} // verus!
