use vstd::prelude::*;
use vstd::string::StringSliceAdditionalSpecFns;
use crate::pieces::{PieceTable, spliced, window, fits, lemma_window_untouched};

verus! {

/// Why an operation was refused.
#[derive(Clone, Copy, Debug, PartialEq, Eq, Structural)]
pub enum EditError {
    /// An offset or a length outside its bounds.
    InvalidRange,
    /// The byte source or the destination could not be read or written.
    IoError,
    /// The session was destroyed.
    SessionClosed,
    /// An overwrite or a delete that reaches past the end of the document.
    ValidationError,
}

#[derive(Clone, Copy, Debug, PartialEq, Eq, Structural)]
pub enum ChangeKind {
    Insert,
    Overwrite,
    Delete,
}

/// One entry of the change log: its position in the log, its kind, where it
/// applied and how many bytes it inserted, overwrote or removed.
#[derive(Clone, Copy, Debug, PartialEq, Eq, Structural)]
pub struct Change {
    pub serial: u64,
    pub kind: ChangeKind,
    pub offset: i64,
    pub length: i64,
}

/// A handle on a viewport of a session.
#[derive(Clone, Copy, Debug, PartialEq, Eq, Structural)]
pub struct Viewport {
    pub id: usize,
}

/// A viewport with a callback was refreshed by a change.
#[derive(Clone, Copy, Debug, PartialEq, Eq, Structural)]
pub struct Notification {
    pub viewport: Viewport,
    pub change: Change,
}

/// The registry's record of one viewport.
pub struct ViewSlot {
    pub live: bool,
    pub offset: u64,
    pub length: u64,
    pub notify: bool,
    pub cache: Vec<u8>,
}

/// Whether a change can alter what a viewport shows: an overwrite must meet
/// its window; an insert or a delete moves every byte from its offset on, so
/// it concerns every window that ends after that offset.
pub open spec fn affected(c: Change, s: ViewSlot) -> bool {
    &&& s.live
    &&& c.length > 0
    &&& match c.kind {
        ChangeKind::Overwrite => c.offset < s.offset + s.length && s.offset < c.offset + c.length,
        _ => c.offset < s.offset + s.length,
    }
}

/// The notifications that a change raises among the first `n` viewports, in order.
pub open spec fn notices(slots: Seq<ViewSlot>, c: Change, n: int) -> Seq<Notification>
    decreases n,
{
    if n <= 0 {
        Seq::empty()
    } else {
        notices(slots, c, n - 1) + if slots[n - 1].notify && affected(c, slots[n - 1]) {
            seq![Notification { viewport: Viewport { id: (n - 1) as usize }, change: c }]
        } else {
            Seq::empty()
        }
    }
}

/// The registry after a change: the same viewports, and the cache of each one
/// that the change did not concern left as it was.
pub open spec fn refreshed(before: Seq<ViewSlot>, after: Seq<ViewSlot>, c: Change) -> bool {
    &&& after.len() == before.len()
    &&& forall|i: int|
        0 <= i < before.len() ==> {
            &&& #[trigger] after[i].live == before[i].live
            &&& after[i].offset == before[i].offset
            &&& after[i].length == before[i].length
            &&& after[i].notify == before[i].notify
            &&& !affected(c, before[i]) ==> after[i].cache@ == before[i].cache@
        }
}

/// A registered viewport's cache shows its window of `doc`.
pub open spec fn slot_ok(s: ViewSlot, doc: Seq<u8>) -> bool {
    &&& s.offset <= i64::MAX
    &&& s.length <= i64::MAX
    &&& s.live ==> s.cache@ == window(doc, s.offset as int, s.length as int)
}

/// Computes what a window of `len` bytes at `off` shows of the table's document.
fn materialize(table: &PieceTable, off: u64, len: u64) -> (r: Vec<u8>)
    requires
        table.wf(),
        off <= i64::MAX,
        len <= i64::MAX,
    ensures
        r@ == window(table.doc(), off as int, len as int),
{
    let n = table.len as u64;
    let lo = if off < n { off } else { n };
    let end = off + len;
    let hi = if end < n { end } else { n };
    table.read(lo as usize, hi as usize)
}

/// Whether a change concerns a viewport (see `affected`).
fn is_affected(c: &Change, s: &ViewSlot) -> (r: bool)
    ensures
        r == affected(*c, *s),
{
    let co = c.offset as i128;
    let cl = c.length as i128;
    let so = s.offset as i128;
    let sl = s.length as i128;
    if !s.live || cl <= 0 {
        return false;
    }
    match c.kind {
        ChangeKind::Overwrite => co < so + sl && so < co + cl,
        _ => co < so + sl,
    }
}


/// What saving a session gives: its whole document, unless it was destroyed.
pub open spec fn saved(s: Session) -> Result<Seq<u8>, EditError> {
    if s.is_closed() {
        Err(EditError::SessionClosed)
    } else {
        Ok(s.doc())
    }
}

/// A change's kind and length agree with the splice that made it.
pub open spec fn shaped(c: Change, del: int, ins: Seq<u8>) -> bool {
    &&& c.offset >= 0
    &&& c.length >= 0
    &&& match c.kind {
        ChangeKind::Insert => del == 0 && ins.len() == c.length,
        ChangeKind::Overwrite => del == ins.len() && ins.len() == c.length,
        ChangeKind::Delete => del == c.length && ins.len() == 0,
    }
}

/// How much a change adds to the document's length.
pub open spec fn delta(c: Change) -> int {
    match c.kind {
        ChangeKind::Insert => c.length as int,
        ChangeKind::Overwrite => 0,
        ChangeKind::Delete => -c.length,
    }
}

/// `after` is `before` with change `c` made: `ins` put in place of the `del`
/// bytes at the change's offset, the change logged, the viewports it concerns
/// refreshed and those of them with a callback queued for notification.
pub open spec fn edited(before: Session, after: Session, c: Change, del: int, ins: Seq<u8>) -> bool {
    &&& shaped(c, del, ins)
    &&& c.offset + del <= before.doc().len()
    &&& after.wf()
    &&& !after.is_closed()
    &&& after.doc() == spliced(before.doc(), c.offset as int, del, ins)
    &&& after.changes() == before.changes().push(c)
    &&& refreshed(before.slots(), after.slots(), c)
    &&& after.queued() == before.queued() + notices(before.slots(), c, before.slots().len() as int)
}


/// An editing session: a document held as a piece table over its original
/// bytes, the log of the changes made to it, and the viewports opened on it.
pub struct Session {
    table: PieceTable,
    log: Vec<Change>,
    views: Vec<ViewSlot>,
    pending: Vec<Notification>,
    closed: bool,
}

impl Session {
    /// The current logical document.
    pub closed spec fn doc(&self) -> Seq<u8> {
        self.table.doc()
    }

    pub closed spec fn changes(&self) -> Seq<Change> {
        self.log@
    }

    pub closed spec fn slots(&self) -> Seq<ViewSlot> {
        self.views@
    }

    /// Notifications raised and not yet taken.
    pub closed spec fn queued(&self) -> Seq<Notification> {
        self.pending@
    }

    pub closed spec fn is_closed(&self) -> bool {
        self.closed
    }

    pub closed spec fn wf(&self) -> bool {
        &&& self.table.wf()
        &&& forall|i: int| 0 <= i < self.views@.len() ==> #[trigger] slot_ok(self.views@[i], self.table.doc())
    }

    /// A session over an empty document.
    pub fn new() -> (r: Session)
        ensures
            r.wf(),
            r.doc() == Seq::<u8>::empty(),
            r.changes() == Seq::<Change>::empty(),
            r.slots() == Seq::<ViewSlot>::empty(),
            r.queued() == Seq::<Notification>::empty(),
            !r.is_closed(),
    {
        Session::from_bytes(Vec::new())
    }

    /// A session whose original bytes are `source`.
    pub fn from_bytes(source: Vec<u8>) -> (r: Session)
        requires
            fits(source@.len() as int),
        ensures
            r.wf(),
            r.doc() == source@,
            r.changes() == Seq::<Change>::empty(),
            r.slots() == Seq::<ViewSlot>::empty(),
            r.queued() == Seq::<Notification>::empty(),
            !r.is_closed(),
    {
        Session {
            table: PieceTable::from_source(source),
            log: Vec::new(),
            views: Vec::new(),
            pending: Vec::new(),
            closed: false,
        }
    }

    /// Applies a validated splice: edits the document, logs the change,
    /// refreshes the viewports that it concerns and queues their notifications.
    fn apply(&mut self, kind: ChangeKind, off: usize, del: usize, ins: &[u8]) -> (c: Change)
        requires
            old(self).wf(),
            !old(self).closed,
            off + del <= old(self).table.len,
            fits(old(self).table.len - del + ins@.len()),
            kind == ChangeKind::Insert ==> del == 0,
            kind == ChangeKind::Overwrite ==> del == ins@.len(),
            kind == ChangeKind::Delete ==> ins@.len() == 0,
        ensures
            final(self).wf(),
            !final(self).closed,
            c == (Change {
                serial: old(self).log@.len() as u64,
                kind,
                offset: off as i64,
                length: (if kind == ChangeKind::Delete { del } else { ins@.len() as usize }) as i64,
            }),
            final(self).doc() == spliced(old(self).doc(), off as int, del as int, ins@),
            final(self).log@ == old(self).log@.push(c),
            refreshed(old(self).views@, final(self).views@, c),
            final(self).pending@ == old(self).pending@ + notices(old(self).views@, c, old(self).views@.len() as int),
    {
        let ghost old_doc = self.table.doc();
        let ghost old_views = self.views@;
        let ghost old_pending = self.pending@;
        let length = if kind == ChangeKind::Delete { del } else { ins.len() };
        let c = Change {
            serial: self.log.len() as u64,
            kind,
            offset: off as i64,
            length: length as i64,
        };
        self.table.splice(off, del, ins);
        self.log.push(c);
        let ghost new_doc = self.table.doc();
        let ghost new_log = self.log@;
        let mut i: usize = 0;
        while i < self.views.len()
            invariant
                self.table.wf(),
                self.table.doc() == new_doc,
                self.log@ == new_log,
                !self.closed,
                new_doc == spliced(old_doc, off as int, del as int, ins@),
                off + del <= old_doc.len(),
                kind == ChangeKind::Insert ==> del == 0,
                kind == ChangeKind::Overwrite ==> del == ins@.len(),
                kind == ChangeKind::Delete ==> ins@.len() == 0,
                c.offset == off,
                c.kind == kind,
                c.length == (if kind == ChangeKind::Delete { del } else { ins@.len() as usize }),
                self.views@.len() == old_views.len(),
                i <= old_views.len(),
                forall|j: int| 0 <= j < old_views.len() ==> #[trigger] slot_ok(old_views[j], old_doc),
                forall|j: int| i <= j < old_views.len() ==> #[trigger] self.views@[j] == old_views[j],
                forall|j: int| 0 <= j < i ==> #[trigger] slot_ok(self.views@[j], new_doc),
                forall|j: int|
                    0 <= j < i ==> {
                        &&& #[trigger] self.views@[j].live == old_views[j].live
                        &&& self.views@[j].offset == old_views[j].offset
                        &&& self.views@[j].length == old_views[j].length
                        &&& self.views@[j].notify == old_views[j].notify
                        &&& !affected(c, old_views[j]) ==> self.views@[j].cache@ == old_views[j].cache@
                    },
                self.pending@ == old_pending + notices(old_views, c, i as int),
            decreases old_views.len() - i,
        {
            let ghost before = self.views@;
            assert(slot_ok(old_views[i as int], old_doc));
            if is_affected(&c, &self.views[i]) {
                let cache = materialize(&self.table, self.views[i].offset, self.views[i].length);
                self.views[i].cache = cache;
                if self.views[i].notify {
                    self.pending.push(Notification { viewport: Viewport { id: i }, change: c });
                }
            } else {
                proof {
                    let s = old_views[i as int];
                    if s.live {
                        lemma_window_untouched(
                            old_doc,
                            off as int,
                            del as int,
                            ins@,
                            s.offset as int,
                            s.length as int,
                        );
                    }
                }
            }
            proof {
                assert(self.pending@ =~= old_pending + notices(old_views, c, i + 1));
                assert forall|j: int| 0 <= j < i + 1 implies #[trigger] slot_ok(self.views@[j], new_doc) by {
                    if j < i {
                        assert(self.views@[j] == before[j]);
                    }
                }
            }
            i = i + 1;
        }
        c
    }

    /// Inserts `bytes` before the byte at `offset`; `offset` may be the
    /// document's length, which appends.
    pub fn insert_bytes(&mut self, bytes: &[u8], offset: i64) -> (r: Result<Change, EditError>)
        requires
            old(self).wf(),
            fits(old(self).doc().len() + bytes@.len() as int),
        ensures
            final(self).wf(),
            old(self).is_closed() ==> r == Err::<Change, EditError>(EditError::SessionClosed)
                && *final(self) == *old(self),
            !old(self).is_closed() && (offset < 0 || offset > old(self).doc().len()) ==> r == Err::<
                Change,
                EditError,
            >(EditError::InvalidRange) && *final(self) == *old(self),
            !old(self).is_closed() && 0 <= offset <= old(self).doc().len() ==> {
                let c = Change {
                    serial: old(self).changes().len() as u64,
                    kind: ChangeKind::Insert,
                    offset,
                    length: bytes@.len() as i64,
                };
                &&& r == Ok::<Change, EditError>(c)
                &&& edited(*old(self), *final(self), c, 0, bytes@)
            },
    {
        if self.closed {
            return Err(EditError::SessionClosed);
        }
        if offset < 0 || offset > self.table.len as i64 {
            return Err(EditError::InvalidRange);
        }
        Ok(self.apply(ChangeKind::Insert, offset as usize, 0, bytes))
    }

    /// Inserts the bytes of `s` before the byte at `offset`.
    pub fn insert(&mut self, s: &str, offset: i64) -> (r: Result<Change, EditError>)
        requires
            old(self).wf(),
            fits(old(self).doc().len() + s.spec_bytes().len() as int),
        ensures
            final(self).wf(),
            old(self).is_closed() ==> r == Err::<Change, EditError>(EditError::SessionClosed)
                && *final(self) == *old(self),
            !old(self).is_closed() && (offset < 0 || offset > old(self).doc().len()) ==> r == Err::<
                Change,
                EditError,
            >(EditError::InvalidRange) && *final(self) == *old(self),
            !old(self).is_closed() && 0 <= offset <= old(self).doc().len() ==> {
                let c = Change {
                    serial: old(self).changes().len() as u64,
                    kind: ChangeKind::Insert,
                    offset,
                    length: s.spec_bytes().len() as i64,
                };
                &&& r == Ok::<Change, EditError>(c)
                &&& edited(*old(self), *final(self), c, 0, s.spec_bytes())
            },
    {
        self.insert_bytes(s.as_bytes(), offset)
    }

    /// Inserts the bytes of `s` at the start of the document.
    pub fn push(&mut self, s: &str) -> (r: Result<Change, EditError>)
        requires
            old(self).wf(),
            fits(old(self).doc().len() + s.spec_bytes().len() as int),
        ensures
            final(self).wf(),
            old(self).is_closed() ==> r == Err::<Change, EditError>(EditError::SessionClosed)
                && *final(self) == *old(self),
            !old(self).is_closed() ==> {
                let c = Change {
                    serial: old(self).changes().len() as u64,
                    kind: ChangeKind::Insert,
                    offset: 0,
                    length: s.spec_bytes().len() as i64,
                };
                &&& r == Ok::<Change, EditError>(c)
                &&& edited(*old(self), *final(self), c, 0, s.spec_bytes())
            },
    {
        self.insert(s, 0)
    }

    /// Replaces the bytes from `offset` on with `bytes`; the document keeps
    /// its length, and an overwrite that would run past its end is refused.
    pub fn overwrite_bytes(&mut self, bytes: &[u8], offset: i64) -> (r: Result<Change, EditError>)
        requires
            old(self).wf(),
        ensures
            final(self).wf(),
            old(self).is_closed() ==> r == Err::<Change, EditError>(EditError::SessionClosed)
                && *final(self) == *old(self),
            !old(self).is_closed() && (offset < 0 || offset >= old(self).doc().len()) ==> r == Err::<
                Change,
                EditError,
            >(EditError::InvalidRange) && *final(self) == *old(self),
            !old(self).is_closed() && 0 <= offset < old(self).doc().len() && offset + bytes@.len()
                > old(self).doc().len() ==> r == Err::<Change, EditError>(
                EditError::ValidationError,
            ) && *final(self) == *old(self),
            !old(self).is_closed() && 0 <= offset && offset + bytes@.len() <= old(self).doc().len()
                && offset < old(self).doc().len() ==> {
                let c = Change {
                    serial: old(self).changes().len() as u64,
                    kind: ChangeKind::Overwrite,
                    offset,
                    length: bytes@.len() as i64,
                };
                &&& r == Ok::<Change, EditError>(c)
                &&& edited(*old(self), *final(self), c, bytes@.len() as int, bytes@)
            },
    {
        if self.closed {
            return Err(EditError::SessionClosed);
        }
        let n = self.table.len;
        if offset < 0 || offset >= n as i64 {
            return Err(EditError::InvalidRange);
        }
        let off = offset as usize;
        if bytes.len() > n - off {
            return Err(EditError::ValidationError);
        }
        Ok(self.apply(ChangeKind::Overwrite, off, bytes.len(), bytes))
    }

    /// Replaces the bytes from `offset` on with the bytes of `s`.
    pub fn overwrite(&mut self, s: &str, offset: i64) -> (r: Result<Change, EditError>)
        requires
            old(self).wf(),
        ensures
            final(self).wf(),
            old(self).is_closed() ==> r == Err::<Change, EditError>(EditError::SessionClosed)
                && *final(self) == *old(self),
            !old(self).is_closed() && (offset < 0 || offset >= old(self).doc().len()) ==> r == Err::<
                Change,
                EditError,
            >(EditError::InvalidRange) && *final(self) == *old(self),
            !old(self).is_closed() && 0 <= offset < old(self).doc().len() && offset
                + s.spec_bytes().len() > old(self).doc().len() ==> r == Err::<Change, EditError>(
                EditError::ValidationError,
            ) && *final(self) == *old(self),
            !old(self).is_closed() && 0 <= offset && offset + s.spec_bytes().len()
                <= old(self).doc().len() && offset < old(self).doc().len() ==> {
                let c = Change {
                    serial: old(self).changes().len() as u64,
                    kind: ChangeKind::Overwrite,
                    offset,
                    length: s.spec_bytes().len() as i64,
                };
                &&& r == Ok::<Change, EditError>(c)
                &&& edited(*old(self), *final(self), c, s.spec_bytes().len() as int, s.spec_bytes())
            },
    {
        self.overwrite_bytes(s.as_bytes(), offset)
    }

    /// Removes the `len` bytes from `offset` on; a delete that would run past
    /// the end of the document is refused.
    pub fn delete(&mut self, offset: i64, len: i64) -> (r: Result<Change, EditError>)
        requires
            old(self).wf(),
        ensures
            final(self).wf(),
            old(self).is_closed() ==> r == Err::<Change, EditError>(EditError::SessionClosed)
                && *final(self) == *old(self),
            !old(self).is_closed() && (offset < 0 || len < 0 || offset >= old(self).doc().len())
                ==> r == Err::<Change, EditError>(EditError::InvalidRange)
                && *final(self) == *old(self),
            !old(self).is_closed() && 0 <= offset < old(self).doc().len() && 0 <= len && offset
                + len > old(self).doc().len() ==> r == Err::<Change, EditError>(
                EditError::ValidationError,
            ) && *final(self) == *old(self),
            !old(self).is_closed() && 0 <= offset < old(self).doc().len() && 0 <= len && offset
                + len <= old(self).doc().len() ==> {
                let c = Change {
                    serial: old(self).changes().len() as u64,
                    kind: ChangeKind::Delete,
                    offset,
                    length: len,
                };
                &&& r == Ok::<Change, EditError>(c)
                &&& edited(*old(self), *final(self), c, len as int, Seq::empty())
            },
    {
        if self.closed {
            return Err(EditError::SessionClosed);
        }
        let n = self.table.len;
        if offset < 0 || len < 0 || offset >= n as i64 {
            return Err(EditError::InvalidRange);
        }
        let off = offset as usize;
        if len as u64 > (n - off) as u64 {
            return Err(EditError::ValidationError);
        }
        let empty: [u8; 0] = [];
        let c = self.apply(ChangeKind::Delete, off, len as usize, empty.as_slice());
        proof {
            assert(empty@ =~= Seq::<u8>::empty());
        }
        Ok(c)
    }

    /// The current length of the document.
    pub fn current_length(&self) -> (r: i64)
        requires
            self.wf(),
        ensures
            r == self.doc().len(),
    {
        self.table.len as i64
    }

    /// The number of changes logged.
    pub fn change_count(&self) -> (r: usize)
        ensures
            r == self.changes().len(),
    {
        self.log.len()
    }

    /// The change at position `i` of the log.
    pub fn change(&self, i: usize) -> (r: Option<Change>)
        ensures
            i < self.changes().len() ==> r == Some(self.changes()[i as int]),
            i >= self.changes().len() ==> r == None::<Change>,
    {
        if i < self.log.len() {
            Some(self.log[i])
        } else {
            None
        }
    }

    /// Opens a viewport of `size` bytes at `offset` and fills its cache; with
    /// `notify`, each change that refreshes it queues a notification.
    pub fn view(&mut self, offset: i64, size: i64, notify: bool) -> (r: Result<Viewport, EditError>)
        requires
            old(self).wf(),
        ensures
            final(self).wf(),
            old(self).is_closed() ==> r == Err::<Viewport, EditError>(EditError::SessionClosed)
                && *final(self) == *old(self),
            !old(self).is_closed() && (offset < 0 || size < 0) ==> r == Err::<Viewport, EditError>(
                EditError::InvalidRange,
            ) && *final(self) == *old(self),
            !old(self).is_closed() && offset >= 0 && size >= 0 ==> {
                let n = old(self).slots().len();
                let s = final(self).slots()[n as int];
                &&& r == Ok::<Viewport, EditError>(Viewport { id: n as usize })
                &&& final(self).slots().len() == n + 1
                &&& forall|i: int| 0 <= i < n ==> #[trigger] final(self).slots()[i] == old(self).slots()[i]
                &&& s.live && s.notify == notify
                &&& s.offset == offset && s.length == size
                &&& s.cache@ == window(old(self).doc(), offset as int, size as int)
                &&& final(self).doc() == old(self).doc()
                &&& final(self).changes() == old(self).changes()
                &&& final(self).queued() == old(self).queued()
                &&& !final(self).is_closed()
            },
    {
        if self.closed {
            return Err(EditError::SessionClosed);
        }
        if offset < 0 || size < 0 {
            return Err(EditError::InvalidRange);
        }
        let cache = materialize(&self.table, offset as u64, size as u64);
        let id = self.views.len();
        self.views.push(ViewSlot { live: true, offset: offset as u64, length: size as u64, notify, cache });
        proof {
            assert forall|i: int| 0 <= i < self.views@.len() implies #[trigger] slot_ok(
                self.views@[i],
                self.table.doc(),
            ) by {
                if i < id {
                    assert(self.views@[i] == old(self).views@[i]);
                }
            }
        }
        Ok(Viewport { id })
    }

    /// Whether `v` names a registered viewport of this open session.
    pub open spec fn is_open_viewport(&self, v: Viewport) -> bool {
        !self.is_closed() && v.id < self.slots().len() && self.slots()[v.id as int].live
    }

    /// The bytes that viewport `v` holds, as its last refresh left them.
    pub fn materialized_bytes(&self, v: Viewport) -> (r: Result<Vec<u8>, EditError>)
        requires
            self.wf(),
        ensures
            self.is_closed() ==> r == Err::<Vec<u8>, EditError>(EditError::SessionClosed),
            !self.is_closed() && !self.is_open_viewport(v) ==> r == Err::<Vec<u8>, EditError>(
                EditError::InvalidRange,
            ),
            self.is_open_viewport(v) ==> {
                let s = self.slots()[v.id as int];
                &&& r is Ok
                &&& r->Ok_0@ == s.cache@
                &&& r->Ok_0@ == window(self.doc(), s.offset as int, s.length as int)
            },
    {
        if self.closed {
            return Err(EditError::SessionClosed);
        }
        if v.id >= self.views.len() || !self.views[v.id].live {
            return Err(EditError::InvalidRange);
        }
        proof {
            assert(slot_ok(self.views@[v.id as int], self.table.doc()));
        }
        let slot = &self.views[v.id];
        let mut out: Vec<u8> = Vec::new();
        let mut i: usize = 0;
        while i < slot.cache.len()
            invariant
                i <= slot.cache@.len(),
                out@ == slot.cache@.subrange(0, i as int),
            decreases slot.cache@.len() - i,
        {
            out.push(slot.cache[i]);
            i = i + 1;
            proof {
                assert(out@ =~= slot.cache@.subrange(0, i as int));
            }
        }
        proof {
            assert(out@ =~= slot.cache@);
        }
        Ok(out)
    }

    /// Closes viewport `v`: it gets no more refreshes, and reading it fails.
    pub fn unregister(&mut self, v: Viewport) -> (r: Result<(), EditError>)
        requires
            old(self).wf(),
        ensures
            final(self).wf(),
            old(self).is_closed() ==> r == Err::<(), EditError>(EditError::SessionClosed)
                && *final(self) == *old(self),
            !old(self).is_closed() && !old(self).is_open_viewport(v) ==> r == Err::<(), EditError>(
                EditError::InvalidRange,
            ) && *final(self) == *old(self),
            old(self).is_open_viewport(v) ==> {
                &&& r == Ok::<(), EditError>(())
                &&& final(self).slots().len() == old(self).slots().len()
                &&& !final(self).slots()[v.id as int].live
                &&& forall|i: int|
                    0 <= i < old(self).slots().len() && i != v.id ==> #[trigger] final(self).slots()[i]
                        == old(self).slots()[i]
                &&& final(self).doc() == old(self).doc()
                &&& final(self).changes() == old(self).changes()
                &&& final(self).queued() == old(self).queued()
                &&& !final(self).is_closed()
            },
    {
        if self.closed {
            return Err(EditError::SessionClosed);
        }
        if v.id >= self.views.len() || !self.views[v.id].live {
            return Err(EditError::InvalidRange);
        }
        self.views[v.id].live = false;
        self.views[v.id].cache = Vec::new();
        proof {
            assert forall|i: int| 0 <= i < self.views@.len() implies #[trigger] slot_ok(
                self.views@[i],
                self.table.doc(),
            ) by {
                if i != v.id {
                    assert(self.views@[i] == old(self).views@[i]);
                }
            }
        }
        Ok(())
    }

    /// Hands out the notifications queued since the last call, oldest first.
    pub fn take_notifications(&mut self) -> (r: Vec<Notification>)
        requires
            old(self).wf(),
        ensures
            final(self).wf(),
            r@ == old(self).queued(),
            final(self).queued() == Seq::<Notification>::empty(),
            final(self).doc() == old(self).doc(),
            final(self).changes() == old(self).changes(),
            final(self).slots() == old(self).slots(),
            final(self).is_closed() == old(self).is_closed(),
    {
        let mut out: Vec<Notification> = Vec::new();
        std::mem::swap(&mut out, &mut self.pending);
        out
    }

    /// The document's bytes from `offset` on, at most `len` of them: fewer
    /// where the range runs past the end of the document.
    pub fn read_range(&self, offset: i64, len: i64) -> (r: Result<Vec<u8>, EditError>)
        requires
            self.wf(),
        ensures
            self.is_closed() ==> r == Err::<Vec<u8>, EditError>(EditError::SessionClosed),
            !self.is_closed() && (offset < 0 || len < 0) ==> r == Err::<Vec<u8>, EditError>(
                EditError::InvalidRange,
            ),
            !self.is_closed() && offset >= 0 && len >= 0 ==> r is Ok && r->Ok_0@ == window(
                self.doc(),
                offset as int,
                len as int,
            ),
    {
        if self.closed {
            return Err(EditError::SessionClosed);
        }
        if offset < 0 || len < 0 {
            return Err(EditError::InvalidRange);
        }
        Ok(materialize(&self.table, offset as u64, len as u64))
    }

    /// The whole document, as saving writes it.
    pub fn save(&self) -> (r: Result<Vec<u8>, EditError>)
        requires
            self.wf(),
        ensures
            self.is_closed() ==> r == Err::<Vec<u8>, EditError>(EditError::SessionClosed),
            !self.is_closed() ==> r is Ok && r->Ok_0@ == self.doc(),
            r is Ok ==> saved(*self) == Ok::<Seq<u8>, EditError>(r->Ok_0@),
            r is Err ==> saved(*self) == Err::<Seq<u8>, EditError>(r->Err_0),
    {
        if self.closed {
            return Err(EditError::SessionClosed);
        }
        Ok(self.table.read(0, self.table.len))
    }

    /// Ends the session: the document and the viewports are released, and
    /// every later operation fails with `SessionClosed`. Destroying twice is
    /// the same as destroying once.
    pub fn destroy(&mut self)
        requires
            old(self).wf(),
        ensures
            final(self).wf(),
            final(self).is_closed(),
            final(self).doc() == Seq::<u8>::empty(),
            final(self).slots() == Seq::<ViewSlot>::empty(),
            final(self).queued() == Seq::<Notification>::empty(),
            final(self).changes() == Seq::<Change>::empty(),
    {
        self.table = PieceTable::from_source(Vec::new());
        self.log = Vec::new();
        self.views = Vec::new();
        self.pending = Vec::new();
        self.closed = true;
    }
}

} // verus!
