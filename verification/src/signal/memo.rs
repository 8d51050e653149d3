//! The constructor function for memos.

use crate::memo::Memo;
use crate::runtime::context::RuntimeInner;
use vstd::prelude::*;

verus! {

/// Makes a memo under the next id of `rt`: the same as `Memo::new`.
pub fn create_memo<T: Clone, F: Fn(&mut RuntimeInner<T>) -> T>(
    rt: &mut RuntimeInner<T>,
    compute: F,
) -> (memo: Memo<T, F>)
    ensures
        memo@ == old(rt)@.next_id,
        memo.computation() == compute,
        final(rt)@ == old(rt)@.allocate().register_memo(memo@),
{
    Memo::new(rt, compute)
}

} // verus!
