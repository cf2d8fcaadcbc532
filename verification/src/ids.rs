//! Lists of player identifiers.

use crate::player::PlayerId;
use vstd::prelude::*;

verus! {

/// The test for an identifier that is none of `gone`.
pub open spec fn absent_from(gone: Seq<PlayerId>) -> spec_fn(PlayerId) -> bool {
    |id: PlayerId| !gone.contains(id)
}

/// The position of `id` in `list`, if it occurs there.
pub fn position_of(list: &Vec<PlayerId>, id: PlayerId) -> (found: Option<usize>)
    ensures
        match found {
            Some(i) => {
                &&& i < list@.len()
                &&& list@[i as int] == id
                &&& forall|k: int| 0 <= k < i ==> list@[k] != id
            },
            None => !list@.contains(id),
        },
{
    let mut i: usize = 0;
    while i < list.len()
        invariant
            i <= list@.len(),
            forall|k: int| 0 <= k < i ==> list@[k] != id,
        decreases list@.len() - i,
    {
        if list[i] == id {
            return Some(i);
        }
        i = i + 1;
    }
    None
}

/// In a sequence without repetitions, a value is found where it stands.
pub proof fn lemma_index_of_unique(list: Seq<PlayerId>, i: int)
    requires
        list.no_duplicates(),
        0 <= i < list.len(),
    ensures
        list.contains(list[i]),
        list.index_of(list[i]) == i,
{
    assert(list.contains(list[i]));
    let j = list.index_of(list[i]);
    assert(0 <= j < list.len() && list[j] == list[i]);
}

/// Taking one value out of a sequence without repetitions leaves such a
/// sequence, which holds what the first one held but for that value.
pub proof fn lemma_remove_unique(list: Seq<PlayerId>, i: int)
    requires
        list.no_duplicates(),
        0 <= i < list.len(),
    ensures
        list.remove(i).no_duplicates(),
        !list.remove(i).contains(list[i]),
        forall|id: PlayerId| list.remove(i).contains(id) <==> (list.contains(id) && id != list[i]),
{
    let rest = list.remove(i);
    assert forall|a: int, b: int| 0 <= a < rest.len() && 0 <= b < rest.len() && a != b implies rest[a]
        != rest[b] by {
        let a0 = if a < i { a } else { a + 1 };
        let b0 = if b < i { b } else { b + 1 };
        assert(rest[a] == list[a0] && rest[b] == list[b0]);
    }
    assert forall|id: PlayerId| rest.contains(id) <==> (list.contains(id) && id != list[i]) by {
        if rest.contains(id) {
            let k = choose|k: int| 0 <= k < rest.len() && rest[k] == id;
            let k0 = if k < i { k } else { k + 1 };
            assert(rest[k] == list[k0]);
        }
        if list.contains(id) && id != list[i] {
            let k0 = choose|k: int| 0 <= k < list.len() && list[k] == id;
            let k = if k0 < i { k0 } else { k0 - 1 };
            assert(rest[k] == list[k0]);
        }
    }
}

/// A copy of `ids`.
pub fn copy_ids(ids: &Vec<PlayerId>) -> (copy: Vec<PlayerId>)
    ensures
        copy@ == ids@,
{
    let mut copy: Vec<PlayerId> = Vec::new();
    let mut i: usize = 0;
    while i < ids.len()
        invariant
            i <= ids@.len(),
            copy@ == ids@.take(i as int),
        decreases ids@.len() - i,
    {
        copy.push(ids[i]);
        proof {
            assert(copy@ =~= ids@.take(i + 1));
        }
        i = i + 1;
    }
    proof {
        assert(ids@.take(i as int) =~= ids@);
    }
    copy
}

} // verus!
