//! What a terminal can be told to do.
use vstd::prelude::*;

verus! {

/// One thing that the terminal is told.
#[derive(Debug)]
pub enum Op {
    /// Put the cursor into a column and a row.
    MoveTo(u16, u16),
    ClearAll,
    /// Write text at the cursor, escape sequences and all.
    Print(String),
}

/// What a terminal is told.
pub enum Mark {
    MoveTo(u16, u16),
    ClearAll,
    Print(Seq<char>),
}

impl View for Op {
    type V = Mark;

    open spec fn view(&self) -> Mark {
        match self {
            Op::MoveTo(x, y) => Mark::MoveTo(*x, *y),
            Op::ClearAll => Mark::ClearAll,
            Op::Print(s) => Mark::Print(s@),
        }
    }
}

/// What a terminal is told, one thing after the other.
pub open spec fn marks(ops: Seq<Op>) -> Seq<Mark> {
    ops.map_values(|o: Op| o@)
}

/// Tell the terminal one thing more.
pub fn push_op(ops: &mut Vec<Op>, op: Op)
    ensures
        marks(final(ops)@) == marks(old(ops)@).push(op@),
{
    let ghost before = ops@;
    ops.push(op);
    assert(marks(ops@) =~= marks(before).push(op@));
}

/// What is drawn is what was asked for, in the same order: a place stays its column and its row.
pub proof fn marks_follow_the_orders(ops: Seq<Op>, x: u16, y: u16, s: String)
    ensures
        marks(ops.push(Op::MoveTo(x, y))) == marks(ops).push(Mark::MoveTo(x, y)),
        marks(ops.push(Op::Print(s))) == marks(ops).push(Mark::Print(s@)),
        marks(ops.push(Op::ClearAll)) == marks(ops).push(Mark::ClearAll),
{
    assert(marks(ops.push(Op::MoveTo(x, y))) =~= marks(ops).push(Mark::MoveTo(x, y)));
    assert(marks(ops.push(Op::Print(s))) =~= marks(ops).push(Mark::Print(s@)));
    assert(marks(ops.push(Op::ClearAll)) =~= marks(ops).push(Mark::ClearAll));
}

} // verus!
