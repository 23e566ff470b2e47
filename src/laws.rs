use vstd::prelude::*;
use crate::pieces::{spliced, window};
use crate::session::{EditError, Session, Change, ChangeKind, Viewport, edited, delta, affected, saved};

verus! {

/// Every change moves the document's length by exactly its own delta: an
/// insert adds its length, an overwrite adds nothing, a delete takes its
/// length away.
pub proof fn lemma_length_delta(before: Session, after: Session, c: Change, del: int, ins: Seq<u8>)
    requires
        edited(before, after, c, del, ins),
    ensures
        after.doc().len() == before.doc().len() + delta(c),
{
}

/// Saving a session that was made from bytes `b` and never edited gives back
/// `b` exactly.
pub proof fn lemma_round_trip(b: Seq<u8>, s: Session)
    requires
        s.doc() == b,
        !s.is_closed(),
    ensures
        saved(s) == Ok::<Seq<u8>, EditError>(b),
{
}

/// A viewport that a change does not concern reads the same bytes after it
/// as before it, and those are still the bytes of its window.
pub proof fn lemma_read_stable(
    before: Session,
    after: Session,
    c: Change,
    del: int,
    ins: Seq<u8>,
    v: Viewport,
)
    requires
        before.wf(),
        edited(before, after, c, del, ins),
        before.is_open_viewport(v),
        !affected(c, before.slots()[v.id as int]),
    ensures
        after.is_open_viewport(v),
        after.slots()[v.id as int].cache@ == before.slots()[v.id as int].cache@,
{
    assert(after.slots()[v.id as int].live == before.slots()[v.id as int].live);
}

/// Inserting `ins` at `off` moves every window that starts at or after `off`
/// on by the inserted length, with the same bytes in it, and leaves the bytes
/// of every window that ends at or before `off` as they were.
pub proof fn lemma_insert_shift(doc: Seq<u8>, off: int, ins: Seq<u8>, vo: int, vl: int)
    requires
        0 <= off <= doc.len(),
        0 <= vo,
        0 <= vl,
    ensures
        off <= vo ==> window(spliced(doc, off, 0, ins), vo + ins.len(), vl) == window(doc, vo, vl),
        vo + vl <= off ==> window(spliced(doc, off, 0, ins), vo, vl) == window(doc, vo, vl),
{
    let d2 = spliced(doc, off, 0, ins);
    if off <= vo {
        assert(window(d2, vo + ins.len(), vl) =~= window(doc, vo, vl));
    }
    if vo + vl <= off {
        assert(window(d2, vo, vl) =~= window(doc, vo, vl));
    }
}

/// Deleting `n` bytes at an offset and then inserting those same bytes at
/// that offset gives back the document as it was.
pub proof fn lemma_delete_insert_inverse(
    s0: Session,
    s1: Session,
    s2: Session,
    c1: Change,
    c2: Change,
)
    requires
        c1.kind == ChangeKind::Delete,
        edited(s0, s1, c1, c1.length as int, Seq::empty()),
        c2.kind == ChangeKind::Insert,
        c2.offset == c1.offset,
        edited(
            s1,
            s2,
            c2,
            0,
            s0.doc().subrange(c1.offset as int, c1.offset + c1.length),
        ),
    ensures
        s2.doc() == s0.doc(),
{
    let d = s0.doc();
    let o = c1.offset as int;
    let n = c1.length as int;
    assert(spliced(spliced(d, o, n, Seq::empty()), o, 0, d.subrange(o, o + n)) =~= d);
}

} // verus!
