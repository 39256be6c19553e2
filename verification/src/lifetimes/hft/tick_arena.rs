//! Levels built for one tick in an arena that is dropped with the tick.
use vstd::prelude::*;
use bumpalo::Bump;
use bumpalo::collections::Vec as BumpVec;
use crate::lifetimes::hft::{Px, Qty};

verus! {

#[verifier::external_type_specification]
#[verifier::external_body]
pub struct ExBump<const MIN_ALIGN: usize>(bumpalo::Bump<MIN_ALIGN>);

#[verifier::external_type_specification]
#[verifier::external_body]
#[verifier::reject_recursive_types(T)]
pub struct ExBumpVec<'bump, T>(bumpalo::collections::Vec<'bump, T>);

/// A book level whose tag lives in the tick's arena.
#[derive(Debug)]
pub struct Level<'arena> {
    pub px: Px,
    pub qty: Qty,
    pub tag: &'arena str,
}

/// The price, quantity and tag text of each level in an arena vector, in order.
pub uninterp spec fn arena_levels(v: BumpVec<Level>) -> Seq<(i64, i64, Seq<char>)>;

/// `bumpalo::collections::Vec::new_in`: an empty vector in the arena.
#[verifier::external_body]
fn new_levels<'a>(bump: &'a Bump) -> (r: BumpVec<'a, Level<'a>>)
    ensures
        arena_levels(r) == Seq::<(i64, i64, Seq<char>)>::empty(),
{
    BumpVec::new_in(bump)
}

/// `bumpalo::collections::Vec::push`: appends the level at the end.
#[verifier::external_body]
fn push_level<'a>(v: &mut BumpVec<'a, Level<'a>>, lv: Level<'a>)
    ensures
        arena_levels(*final(v)) == arena_levels(*old(v)).push((lv.px, lv.qty, lv.tag@)),
{
    v.push(lv);
}

/// `Bump::alloc_str`: a copy of the text in the arena.
#[verifier::external_body]
pub(crate) fn arena_str<'a>(bump: &'a Bump, s: &str) -> (r: &'a str)
    ensures
        r@ == s@,
{
    bump.alloc_str(s)
}

/// The tick's deltas as levels in the arena, each tag copied into it.
pub fn process_tick<'arena>(bump: &'arena Bump, deltas: &[(Px, Qty, &str)]) -> (r: BumpVec<
    'arena,
    Level<'arena>,
>)
    ensures
        arena_levels(r) == deltas@.map_values(|d: (Px, Qty, &str)| (d.0, d.1, d.2@)),
{
    let mut levels = new_levels(bump);
    let mut i: usize = 0;
    while i < deltas.len()
        invariant
            i <= deltas@.len(),
            arena_levels(levels) == deltas@.subrange(0, i as int).map_values(
                |d: (Px, Qty, &str)| (d.0, d.1, d.2@),
            ),
        decreases deltas@.len() - i,
    {
        let (px, qty, tag) = deltas[i];
        let tag_in_arena = arena_str(bump, tag);
        push_level(&mut levels, Level { px, qty, tag: tag_in_arena });
        assert(deltas@.subrange(0, i + 1).map_values(|d: (Px, Qty, &str)| (d.0, d.1, d.2@))
            =~= deltas@.subrange(0, i as int).map_values(|d: (Px, Qty, &str)| (d.0, d.1, d.2@)).push(
            (px, qty, tag@),
        ));
        i = i + 1;
    }
    assert(deltas@.subrange(0, deltas@.len() as int) =~= deltas@);
    levels
}

} // verus!
