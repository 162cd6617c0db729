//! The open documents, each with its own buffer, and the edits applied to
//! them.

use vstd::prelude::*;

use crate::text::{offset_of, splice, Position, TextBuffer};

verus! {

/// A half-open span between two positions.
#[derive(Clone, Copy, Debug, PartialEq, Eq, Structural)]
pub struct Range {
    pub start: Position,
    pub end: Position,
}

/// One change to a document: the span it replaces, if any, and the new text.
#[derive(Debug)]
pub struct Edit {
    pub range: Option<Range>,
    pub text: String,
}

/// Faults of a request against the store.
#[derive(Clone, Copy, Debug, PartialEq, Eq, Structural)]
pub enum StoreError {
    /// No document with that identifier was opened.
    UnknownDocument,
    /// A position lies outside the text, or a range ends before it starts.
    MalformedPosition,
    /// An edit without a range carries text (a whole-text replacement).
    UnsupportedEdit,
}

/// The text after one edit, or the fault it raises.
pub open spec fn apply_edit(s: Seq<char>, e: Edit) -> Result<Seq<char>, StoreError> {
    match e.range {
        Some(r) => match (
            offset_of(s, r.start.line as nat, r.start.character as nat),
            offset_of(s, r.end.line as nat, r.end.character as nat),
        ) {
            (Some(a), Some(b)) => if a <= b {
                Ok(splice(s, a, b, e.text@))
            } else {
                Err(StoreError::MalformedPosition)
            },
            _ => Err(StoreError::MalformedPosition),
        },
        None => if e.text@.len() == 0 {
            Ok(s)
        } else {
            Err(StoreError::UnsupportedEdit)
        },
    }
}

/// The text after the first `k` edits, each placed against the text that the
/// ones before it left, together with the fault that stopped the run, if
/// any; edits after a fault are not applied.
pub open spec fn apply_edits(s: Seq<char>, edits: Seq<Edit>, k: int) -> (Seq<char>, Option<StoreError>)
    decreases k,
{
    if k <= 0 {
        (s, None)
    } else {
        let (t, e) = apply_edits(s, edits, k - 1);
        if e is Some {
            (t, e)
        } else {
            match apply_edit(t, edits[k - 1]) {
                Ok(u) => (u, None),
                Err(x) => (t, Some(x)),
            }
        }
    }
}

/// An open document.
pub struct Document {
    id: String,
    buffer: TextBuffer,
}

/// All open documents, by identifier.
pub struct DocumentStore {
    docs: Vec<Document>,
    contents: Ghost<Map<Seq<char>, Seq<char>>>,
}

impl View for DocumentStore {
    type V = Map<Seq<char>, Seq<char>>;

    closed spec fn view(&self) -> Map<Seq<char>, Seq<char>> {
        self.contents@
    }
}

impl DocumentStore {
    /// Each document is listed once, and the listing agrees with the view.
    pub closed spec fn wf(&self) -> bool {
        &&& forall|i: int|
            0 <= i < self.docs.len() ==> #[trigger] self.contents@.contains_key(self.docs[i].id@)
                && self.contents@[self.docs[i].id@] == self.docs[i].buffer@
        &&& forall|k: Seq<char>|
            #[trigger] self.contents@.contains_key(k) ==> exists|i: int|
                0 <= i < self.docs.len() && self.docs[i].id@ == k
        &&& forall|i: int, j: int|
            0 <= i < j < self.docs.len() ==> self.docs[i].id@ != self.docs[j].id@
    }

    /// A store with no documents.
    pub fn new() -> (r: DocumentStore)
        ensures
            r.wf(),
            r@ == Map::<Seq<char>, Seq<char>>::empty(),
    {
        DocumentStore { docs: Vec::new(), contents: Ghost(Map::empty()) }
    }

    fn find(&self, id: &String) -> (r: Option<usize>)
        requires
            self.wf(),
        ensures
            r matches Some(i) ==> i < self.docs.len() && self.docs[i as int].id@ == id@,
            r is None ==> !self@.contains_key(id@),
    {
        let mut i: usize = 0;
        while i < self.docs.len()
            invariant
                self.wf(),
                i <= self.docs.len(),
                forall|j: int| 0 <= j < i ==> self.docs[j].id@ != id@,
            decreases self.docs.len() - i,
        {
            if self.docs[i].id == *id {
                return Some(i);
            }
            i = i + 1;
        }
        None
    }

    /// Opens `id` with `text`, replacing any earlier buffer of that id.
    pub fn open(&mut self, id: String, text: &str)
        requires
            old(self).wf(),
        ensures
            final(self).wf(),
            final(self)@ == old(self)@.insert(id@, text@),
    {
        let buffer = TextBuffer::from_text(text);
        let ghost key = id@;
        let ghost mut at: int = 0;
        match self.find(&id) {
            Some(i) => {
                self.docs.set(i, Document { id, buffer });
                proof {
                    at = i as int;
                }
            },
            None => {
                proof {
                    at = self.docs.len() as int;
                }
                self.docs.push(Document { id, buffer });
            },
        }
        self.contents = Ghost(self.contents@.insert(key, text@));
        proof {
            let d = self.docs;
            let od = old(self).docs;
            assert(d[at].id@ == key && d[at].buffer@ == text@);
            assert forall|j: int| 0 <= j < d.len() && j != at implies d[j] == od[j]
                && d[j].id@ != key by {
                if od[j].id@ == key {
                    assert(old(self).contents@.contains_key(key));
                }
            }
            assert forall|i: int, j: int| 0 <= i < j < d.len() implies d[i].id@ != d[j].id@ by {
                if i != at && j != at {
                    assert(od[i].id@ != od[j].id@);
                }
            }
            assert forall|k: Seq<char>| #[trigger] self.contents@.contains_key(k) implies exists|
                i: int,
            | 0 <= i < d.len() && d[i].id@ == k by {
                if k != key {
                    let j = choose|j: int| 0 <= j < old(self).docs.len() && old(self).docs[j].id@ == k;
                    assert(d[j].id@ == k);
                } else {
                    assert(d[at].id@ == key);
                }
            }
        }
    }

    /// The text of `id`, if it is open.
    pub fn text(&self, id: &String) -> (r: Option<String>)
        requires
            self.wf(),
        ensures
            r is Some <==> self@.contains_key(id@),
            r matches Some(t) ==> t@ == self@[id@],
    {
        match self.find(id) {
            Some(i) => {
                assert(self.contents@.contains_key(self.docs[i as int].id@));
                Some(self.docs[i].buffer.to_text())
            },
            None => None,
        }
    }

    /// Applies `edits` to `id` in order, each against the text that the ones
    /// before it left. A fault stops the run and is returned; the edits before
    /// it stay applied.
    pub fn apply_edits(&mut self, id: &String, edits: &Vec<Edit>) -> (r: Result<(), StoreError>)
        requires
            old(self).wf(),
        ensures
            final(self).wf(),
            !old(self)@.contains_key(id@) ==> r == Err::<(), StoreError>(StoreError::UnknownDocument)
                && final(self)@ == old(self)@,
            old(self)@.contains_key(id@) ==> {
                let (t, e) = apply_edits(old(self)@[id@], edits@, edits@.len() as int);
                &&& final(self)@ == old(self)@.insert(id@, t)
                &&& r is Ok <==> e is None
                &&& e matches Some(x) ==> r == Err::<(), StoreError>(x)
            },
    {
        let idx = match self.find(id) {
            Some(i) => i,
            None => {
                return Err(StoreError::UnknownDocument);
            },
        };
        let ghost start = self.docs[idx as int].buffer@;
        assert(self.contents@.contains_key(self.docs[idx as int].id@));
        let mut doc = self.docs.remove(idx);
        let mut k: usize = 0;
        let mut result: Result<(), StoreError> = Ok(());
        while k < edits.len()
            invariant_except_break
                apply_edits(start, edits@, k as int) == (doc.buffer@, None::<StoreError>),
                result is Ok,
            invariant
                k <= edits.len(),
                idx < old(self).docs.len(),
                doc.id@ == old(self).docs[idx as int].id@,
                self.docs@ == old(self).docs@.remove(idx as int),
                self.contents == old(self).contents,
                start == old(self)@[id@],
                old(self)@.contains_key(id@),
            ensures
                result is Ok ==> k == edits.len() && apply_edits(start, edits@, k as int) == (
                    doc.buffer@,
                    None::<StoreError>,
                ),
                result matches Err(x) ==> k < edits.len() && apply_edits(start, edits@, k + 1) == (
                    doc.buffer@,
                    Some(x),
                ),
            decreases edits.len() - k,
        {
            let e = &edits[k];
            match e.range {
                Some(r) => {
                    match (doc.buffer.offset_of(r.start), doc.buffer.offset_of(r.end)) {
                        (Some(a), Some(b)) => {
                            if a <= b {
                                doc.buffer.replace(a, b, e.text.as_str());
                            } else {
                                result = Err(StoreError::MalformedPosition);
                                break;
                            }
                        },
                        _ => {
                            result = Err(StoreError::MalformedPosition);
                            break;
                        },
                    }
                },
                None => {
                    if e.text.as_str().unicode_len() != 0 {
                        result = Err(StoreError::UnsupportedEdit);
                        break;
                    }
                },
            }
            k = k + 1;
        }
        proof {
            if result is Err {
                lemma_fault_persists(start, edits@, k + 1, edits@.len() as int);
            }
        }
        let ghost edited = doc.buffer@;
        self.docs.insert(idx, doc);
        assert(self.docs[idx as int].buffer@ == edited);
        assert(self.docs@ =~= old(self).docs@.update(idx as int, self.docs[idx as int]));
        self.contents = Ghost(self.contents@.insert(id@, self.docs[idx as int].buffer@));
        proof {
            let d = self.docs;
            let key = id@;
            let od = old(self).docs;
            assert forall|j: int| 0 <= j < d.len() && j != idx implies d[j] == od[j]
                && d[j].id@ != key by {
                assert(od[j].id@ != od[idx as int].id@);
            }
            assert forall|i: int, j: int| 0 <= i < j < d.len() implies d[i].id@ != d[j].id@ by {
                assert(od[i].id@ != od[j].id@);
            }
            assert forall|k: Seq<char>| #[trigger] self.contents@.contains_key(k) implies exists|
                i: int,
            | 0 <= i < d.len() && d[i].id@ == k by {
                let j = choose|j: int| 0 <= j < old(self).docs.len() && old(self).docs[j].id@ == k;
                assert(d[j].id@ == k);
            }
        }
        result
    }

    /// The text of the cursor's line from the line's start up to the cursor.
    pub fn line_until_cursor(&self, id: &String, pos: Position) -> (r: Result<Vec<char>, StoreError>)
        requires
            self.wf(),
        ensures
            !self@.contains_key(id@) ==> r == Err::<Vec<char>, StoreError>(StoreError::UnknownDocument),
            self@.contains_key(id@) ==> match offset_of(self@[id@], pos.line as nat, pos.character as nat) {
                Some(o) => r matches Ok(v) && v@ == self@[id@].subrange(
                    crate::text::line_start(self@[id@], pos.line as nat),
                    o,
                ),
                None => r == Err::<Vec<char>, StoreError>(StoreError::MalformedPosition),
            },
    {
        match self.find(id) {
            None => Err(StoreError::UnknownDocument),
            Some(i) => match self.docs[i].buffer.line_prefix(pos) {
                Some(v) => Ok(v),
                None => Err(StoreError::MalformedPosition),
            },
        }
    }
}

proof fn lemma_fault_persists(s: Seq<char>, edits: Seq<Edit>, k: int, n: int)
    requires
        0 <= k <= n,
        apply_edits(s, edits, k).1 is Some,
    ensures
        apply_edits(s, edits, n) == apply_edits(s, edits, k),
    decreases n - k,
{
    if k < n {
        lemma_fault_persists(s, edits, k, n - 1);
    }
}

} // verus!
