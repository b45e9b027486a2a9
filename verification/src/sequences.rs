use vstd::prelude::*;

verus! {

/// Two sequences that end in parts of equal length and are equal as wholes
/// are equal part by part.
pub proof fn lemma_joined_parts<T>(
    front1: Seq<T>,
    back1: Seq<T>,
    front2: Seq<T>,
    back2: Seq<T>,
)
    requires
        front1 + back1 == front2 + back2,
        back1.len() == back2.len(),
    ensures
        front1 == front2,
        back1 == back2,
{
    let whole = front1 + back1;
    assert(whole.len() == front1.len() + back1.len());
    assert((front2 + back2).len() == front2.len() + back2.len());
    assert(front1 =~= whole.subrange(0, front1.len() as int));
    assert(front2 =~= whole.subrange(0, front2.len() as int));
    assert(back1 =~= whole.subrange(front1.len() as int, whole.len() as int));
    assert(back2 =~= whole.subrange(front2.len() as int, whole.len() as int));
}

} // verus!
