use vstd::prelude::*;

use crate::canvas::CanvasBuffer;

verus! {

/// The entries after a commit of `b` at cursor `c`: those after the cursor
/// are dropped, then `b` is appended.
pub open spec fn committed(entries: Seq<CanvasBuffer>, c: int, b: CanvasBuffer) -> Seq<
    CanvasBuffer,
> {
    entries.take(c + 1).push(b)
}

/// The cursor after an undo.
pub open spec fn undone(c: int) -> int {
    if c > 0 {
        c - 1
    } else {
        0
    }
}

/// The cursor after a redo among `len` entries.
pub open spec fn redone(c: int, len: int) -> int {
    if c + 1 < len {
        c + 1
    } else {
        len - 1
    }
}

/// Snapshots of the working buffer with a cursor on the current one.
pub struct VersionHistory {
    versions: Vec<CanvasBuffer>,
    cursor: usize,
}

impl VersionHistory {
    /// The snapshots, oldest first.
    pub closed spec fn entries(&self) -> Seq<CanvasBuffer> {
        self.versions@
    }

    /// Position of the current snapshot.
    pub closed spec fn spec_cursor(&self) -> int {
        self.cursor as int
    }

    /// At least one snapshot, a cursor on one of them, and every snapshot
    /// well formed.
    pub open spec fn wf(&self) -> bool {
        &&& self.entries().len() >= 1
        &&& 0 <= self.spec_cursor() < self.entries().len()
        &&& forall|i: int| 0 <= i < self.entries().len() ==> (#[trigger] self.entries()[i]).wf()
    }

    /// A history holding `initial` alone.
    pub fn new(initial: CanvasBuffer) -> (r: Self)
        requires
            initial.wf(),
        ensures
            r.wf(),
            r.entries() == seq![initial],
            r.spec_cursor() == 0,
    {
        let mut versions = Vec::new();
        versions.push(initial);
        proof {
            assert(versions@ =~= seq![initial]);
        }
        VersionHistory { versions, cursor: 0 }
    }

    pub fn len(&self) -> (r: usize)
        ensures
            r == self.entries().len(),
    {
        self.versions.len()
    }

    pub fn cursor(&self) -> (r: usize)
        ensures
            r == self.spec_cursor(),
    {
        self.cursor
    }

    /// The snapshot under the cursor.
    pub fn current(&self) -> (r: &CanvasBuffer)
        requires
            self.wf(),
        ensures
            *r == self.entries()[self.spec_cursor()],
            r.wf(),
    {
        &self.versions[self.cursor]
    }

    /// Drops every snapshot after the cursor, appends `buffer` and moves the
    /// cursor onto it.
    pub fn commit(&mut self, buffer: CanvasBuffer)
        requires
            old(self).wf(),
            buffer.wf(),
        ensures
            final(self).wf(),
            final(self).entries() == committed(old(self).entries(), old(self).spec_cursor(), buffer),
            final(self).spec_cursor() == old(self).spec_cursor() + 1,
    {
        // the cursor lies below the length, a usize
        let _len = self.versions.len();
        let keep = self.cursor + 1;
        if keep < self.versions.len() {
            self.versions.truncate(keep);
        }
        self.versions.push(buffer);
        self.cursor = keep;
        proof {
            assert(self.versions@ =~= committed(old(self).entries(), old(self).spec_cursor(), buffer));
        }
    }

    /// Moves the cursor one snapshot back, stopping at the first.
    pub fn undo(&mut self)
        requires
            old(self).wf(),
        ensures
            final(self).wf(),
            final(self).entries() == old(self).entries(),
            final(self).spec_cursor() == undone(old(self).spec_cursor()),
    {
        if self.cursor > 0 {
            self.cursor = self.cursor - 1;
        }
    }

    /// Moves the cursor one snapshot forward, stopping at the last.
    pub fn redo(&mut self)
        requires
            old(self).wf(),
        ensures
            final(self).wf(),
            final(self).entries() == old(self).entries(),
            final(self).spec_cursor() == redone(old(self).spec_cursor(), old(self).entries().len() as int),
    {
        if self.cursor < self.versions.len() - 1 {
            self.cursor = self.cursor + 1;
        }
    }
}

/// Two undos from cursor `c >= 2` followed by a commit of `b` keep the
/// snapshots up to position `c - 2`, drop every later one, and end with `b`
/// under the cursor.
pub proof fn lemma_undo_twice_then_commit(entries: Seq<CanvasBuffer>, c: int, b: CanvasBuffer)
    requires
        2 <= c < entries.len(),
    ensures
        committed(entries, undone(undone(c)), b) == entries.take(c - 1).push(b),
        committed(entries, undone(undone(c)), b).len() == c,
        committed(entries, undone(undone(c)), b)[c - 1] == b,
        forall|i: int|
            0 <= i < c - 1 ==> #[trigger] committed(entries, undone(undone(c)), b)[i] == entries[i],
{
    assert(committed(entries, undone(undone(c)), b) =~= entries.take(c - 1).push(b));
}

} // verus!
