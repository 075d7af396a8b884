//! In-memory document storage used to exercise the wire layer end to end:
//! the plain keyed store, and the decision core of its asynchronous variant,
//! which defers each operation's completion until a release is asked for.
//! The channels, locks and tasks around these live outside; what is here is
//! every decision they make.

use vstd::prelude::*;

use crate::message::DocumentId;

verus! {

/// A storage backend with no behaviour of its own: every operation falls
/// back to its default. The trait impl wiring it to the repository layer
/// lives outside the verified library.
pub struct SimpleStorage;

/// The first value stored under `key`, front to back.
pub open spec fn spec_find(entries: Seq<(Seq<char>, Seq<u8>)>, key: Seq<char>) -> Option<Seq<u8>>
    decreases entries.len(),
{
    if entries.len() == 0 {
        None
    } else if entries[0].0 == key {
        Some(entries[0].1)
    } else {
        spec_find(entries.drop_first(), key)
    }
}

/// An in-memory keyed store of document bytes.
pub struct InMemoryStorage {
    documents: Vec<(DocumentId, Vec<u8>)>,
}

impl View for InMemoryStorage {
    type V = Seq<(Seq<char>, Seq<u8>)>;

    closed spec fn view(&self) -> Seq<(Seq<char>, Seq<u8>)> {
        self.documents@.map_values(|p: (DocumentId, Vec<u8>)| (p.0@, p.1@))
    }
}

/// Appending an entry whose key is absent makes it the one `spec_find`
/// yields for that key, and changes no other key's answer.
proof fn lemma_find_push(entries: Seq<(Seq<char>, Seq<u8>)>, e: (Seq<char>, Seq<u8>))
    ensures
        spec_find(entries, e.0) is None ==> spec_find(entries.push(e), e.0) == Some(e.1),
        forall|k: Seq<char>|
            k != e.0 ==> spec_find(entries.push(e), k) == spec_find(entries, k),
        spec_find(entries, e.0) is Some ==> spec_find(entries.push(e), e.0) == spec_find(
            entries,
            e.0,
        ),
    decreases entries.len(),
{
    if entries.len() == 0 {
        assert forall|k: Seq<char>| k != e.0 implies spec_find(entries.push(e), k) == spec_find(
            entries,
            k,
        ) by {
            assert(entries.push(e)[0] == e);
            assert(entries.push(e).drop_first() =~= entries);
        }
        assert(entries.push(e)[0] == e);
        assert(entries.push(e).drop_first() =~= entries);
    } else {
        lemma_find_push(entries.drop_first(), e);
        assert(entries.push(e)[0] == entries[0]);
        assert(entries.push(e).drop_first() =~= entries.drop_first().push(e));
        assert forall|k: Seq<char>| k != e.0 implies spec_find(entries.push(e), k) == spec_find(
            entries,
            k,
        ) by {
            assert(spec_find(entries.push(e).drop_first(), k) == spec_find(
                entries.drop_first(),
                k,
            ));
        }
    }
}

/// Removing an entry whose key is not `k` does not change what `spec_find`
/// yields for `k`, provided `k` occurs at most once among the rest.
proof fn lemma_find_remove(entries: Seq<(Seq<char>, Seq<u8>)>, i: int, k: Seq<char>)
    requires
        0 <= i < entries.len(),
        entries[i].0 != k,
    ensures
        spec_find(entries.remove(i), k) == spec_find(entries, k),
    decreases entries.len(),
{
    if i == 0 {
        assert(entries.remove(0) =~= entries.drop_first());
    } else {
        lemma_find_remove(entries.drop_first(), i - 1, k);
        assert(entries.remove(i).drop_first() =~= entries.drop_first().remove(i - 1));
        assert(entries.remove(i)[0] == entries[0]);
    }
}

/// With `k` stored only at index `i`, removing that entry leaves no answer
/// for `k`.
proof fn lemma_find_remove_only(entries: Seq<(Seq<char>, Seq<u8>)>, i: int)
    requires
        0 <= i < entries.len(),
        forall|j: int| 0 <= j < entries.len() && j != i ==> entries[j].0 != entries[i].0,
    ensures
        spec_find(entries.remove(i), entries[i].0) is None,
    decreases entries.len(),
{
    let k = entries[i].0;
    if i == 0 {
        assert(entries.remove(0) =~= entries.drop_first());
        lemma_find_none(entries.drop_first(), k);
    } else {
        assert(entries.remove(i)[0] == entries[0]);
        assert(entries.remove(i).drop_first() =~= entries.drop_first().remove(i - 1));
        lemma_find_remove_only(entries.drop_first(), i - 1);
    }
}

/// A key stored nowhere has no answer.
proof fn lemma_find_none(entries: Seq<(Seq<char>, Seq<u8>)>, k: Seq<char>)
    requires
        forall|j: int| 0 <= j < entries.len() ==> entries[j].0 != k,
    ensures
        spec_find(entries, k) is None,
    decreases entries.len(),
{
    if entries.len() > 0 {
        lemma_find_none(entries.drop_first(), k);
    }
}

impl InMemoryStorage {
    /// Keys are unique: what scanning finds first is the only entry.
    pub closed spec fn wf(&self) -> bool {
        forall|i: int, j: int|
            0 <= i < j < self@.len() ==> self@[i].0 != self@[j].0
    }

    /// An empty store.
    pub fn new() -> (r: InMemoryStorage)
        ensures
            r.wf(),
            r@.len() == 0,
    {
        InMemoryStorage { documents: Vec::new() }
    }

    /// The index of the entry holding `key`, if any.
    fn position(&self, key: &DocumentId) -> (r: Option<usize>)
        ensures
            match r {
                Some(i) => i < self@.len() && self@[i as int].0 == key@ && forall|j: int|
                    0 <= j < i ==> self@[j].0 != key@,
                None => forall|j: int| 0 <= j < self@.len() ==> self@[j].0 != key@,
            },
    {
        let n = self.documents.len();
        let mut i: usize = 0;
        while i < n
            invariant
                i <= n,
                n == self@.len(),
                forall|j: int| 0 <= j < i ==> self@[j].0 != key@,
            decreases n - i,
        {
            if self.documents[i].0.0 == key.0 {
                return Some(i);
            }
            i = i + 1;
        }
        None
    }

    /// Whether a document is stored under this identifier.
    pub fn contains_document(&self, doc_id: DocumentId) -> (r: bool)
        ensures
            r == (spec_find(self@, doc_id@) is Some),
    {
        let p = self.position(&doc_id);
        proof {
            match p {
                Some(i) => {
                    lemma_find_present(self@, i as int);
                },
                None => {
                    lemma_find_none(self@, doc_id@);
                },
            }
        }
        match p {
            Some(_) => true,
            None => false,
        }
    }

    /// The bytes stored under this identifier, if any.
    pub fn get(&self, id: DocumentId) -> (r: Option<Vec<u8>>)
        requires
            self.wf(),
        ensures
            match r {
                Some(v) => spec_find(self@, id@) == Some(v@),
                None => spec_find(self@, id@) is None,
            },
    {
        match self.position(&id) {
            Some(i) => {
                proof {
                    lemma_find_present(self@, i as int);
                }
                Some(self.documents[i].1.clone())
            },
            None => {
                proof {
                    lemma_find_none(self@, id@);
                }
                None
            },
        }
    }

    /// Every stored identifier, in storage order.
    pub fn list_all(&self) -> (r: Vec<DocumentId>)
        ensures
            r@.len() == self@.len(),
            forall|i: int| 0 <= i < r@.len() ==> r@[i]@ == self@[i].0,
    {
        let n = self.documents.len();
        let mut out: Vec<DocumentId> = Vec::new();
        let mut i: usize = 0;
        while i < n
            invariant
                i <= n,
                n == self@.len(),
                out@.len() == i,
                forall|j: int| 0 <= j < i ==> out@[j]@ == self@[j].0,
            decreases n - i,
        {
            out.push(DocumentId(self.documents[i].0.0.clone()));
            i = i + 1;
        }
        out
    }

    /// Accumulates bytes under an identifier: what was stored (or nothing)
    /// with `changes` appended; every other identifier keeps its answer.
    pub fn append(&mut self, id: DocumentId, changes: Vec<u8>)
        requires
            old(self).wf(),
        ensures
            final(self).wf(),
            spec_find(final(self)@, id@) == Some(
                match spec_find(old(self)@, id@) {
                    Some(v) => v + changes@,
                    None => changes@,
                },
            ),
            forall|k: Seq<char>|
                k != id@ ==> spec_find(final(self)@, k) == spec_find(old(self)@, k),
    {
        let ghost pre = self@;
        match self.position(&id) {
            Some(i) => {
                proof {
                    lemma_find_present(pre, i as int);
                }
                let (key, mut v) = self.documents.remove(i);
                let mut rest = changes;
                v.append(&mut rest);
                self.documents.push((key, v));
                proof {
                    let mid = pre.remove(i as int);
                    assert(self@ =~= mid.push((pre[i as int].0, pre[i as int].1 + changes@)));
                    lemma_find_remove_only(pre, i as int);
                    lemma_find_push(mid, (pre[i as int].0, pre[i as int].1 + changes@));
                    assert forall|k: Seq<char>| k != id@ implies spec_find(self@, k) == spec_find(
                        pre,
                        k,
                    ) by {
                        lemma_find_remove(pre, i as int, k);
                    }
                }
            },
            None => {
                proof {
                    lemma_find_none(pre, id@);
                }
                self.documents.push((id, changes));
                proof {
                    assert(self@ =~= pre.push(self@[pre.len() as int]));
                    lemma_find_push(pre, self@[pre.len() as int]);
                }
            },
        }
    }

    /// Accumulates bytes under an identifier, creating it when absent; the
    /// same operation [`Self::append`] performs.
    pub fn add_document(&mut self, doc_id: DocumentId, doc: Vec<u8>)
        requires
            old(self).wf(),
        ensures
            final(self).wf(),
            spec_find(final(self)@, doc_id@) == Some(
                match spec_find(old(self)@, doc_id@) {
                    Some(v) => v + doc@,
                    None => doc@,
                },
            ),
            forall|k: Seq<char>|
                k != doc_id@ ==> spec_find(final(self)@, k) == spec_find(old(self)@, k),
    {
        self.append(doc_id, doc);
    }

    /// Replaces whatever accumulated under an identifier with one
    /// consolidated blob; every other identifier keeps its answer.
    pub fn compact(&mut self, id: DocumentId, full_doc: Vec<u8>)
        requires
            old(self).wf(),
        ensures
            final(self).wf(),
            spec_find(final(self)@, id@) == Some(full_doc@),
            forall|k: Seq<char>|
                k != id@ ==> spec_find(final(self)@, k) == spec_find(old(self)@, k),
    {
        let ghost pre = self@;
        match self.position(&id) {
            Some(i) => {
                let _ = self.documents.remove(i);
                self.documents.push((id, full_doc));
                proof {
                    let mid = pre.remove(i as int);
                    assert(self@ =~= mid.push((pre[i as int].0, full_doc@)));
                    lemma_find_remove_only(pre, i as int);
                    lemma_find_push(mid, (pre[i as int].0, full_doc@));
                    assert forall|k: Seq<char>| k != id@ implies spec_find(self@, k) == spec_find(
                        pre,
                        k,
                    ) by {
                        lemma_find_remove(pre, i as int, k);
                    }
                }
            },
            None => {
                proof {
                    lemma_find_none(pre, id@);
                }
                self.documents.push((id, full_doc));
                proof {
                    assert(self@ =~= pre.push(self@[pre.len() as int]));
                    lemma_find_push(pre, self@[pre.len() as int]);
                }
            },
        }
    }
}

/// One request handed to the deferred store's worker.
pub enum StorageRequest {
    Load(DocumentId),
    Append(DocumentId, Vec<u8>),
    Compact(DocumentId, Vec<u8>),
    ListAll,
    ProcessNextResult,
}

/// The answer a data request computes. It is queued, and delivered to the
/// requester only when the driver releases it.
pub enum StorageResponse {
    Data(Option<Vec<u8>>),
    Done,
    List(Vec<DocumentId>),
}

/// The decision core of the deferred in-memory store: a worker owns the
/// documents and a queue of completions. Each data request computes its
/// answer at once and queues its completion; in stepped mode a completion is
/// released only when one is asked for, otherwise right away. The channels
/// and tasks that carry requests and completions live outside; every choice
/// the worker makes is here.
pub struct StorageDriver {
    store: InMemoryStorage,
    pending: usize,
    can_send: bool,
    with_step: bool,
}

impl StorageDriver {
    /// The documents the worker holds.
    pub closed spec fn store_entries(&self) -> Seq<(Seq<char>, Seq<u8>)> {
        self.store@
    }

    /// How many queued completions have not been released yet.
    pub closed spec fn pending(&self) -> nat {
        self.pending as nat
    }

    /// Whether a release was asked for while nothing was queued.
    pub closed spec fn can_send(&self) -> bool {
        self.can_send
    }

    /// Whether completions wait for an explicit release.
    pub closed spec fn stepped(&self) -> bool {
        self.with_step
    }

    pub closed spec fn wf(&self) -> bool {
        self.store.wf()
    }

    pub fn new(store: InMemoryStorage, with_step: bool) -> (r: StorageDriver)
        requires
            store.wf(),
        ensures
            r.wf(),
            r.store_entries() == store@,
            r.pending() == 0,
            !r.can_send(),
            r.stepped() == with_step,
    {
        StorageDriver { store, pending: 0, can_send: false, with_step }
    }

    /// Whether the worker survives this request: asking for a release needs
    /// a stepped store with a completion queued (one more when a release is
    /// already owed), and the queue must have room for one more completion.
    pub open spec fn accepts(&self, request: StorageRequest) -> bool {
        match request {
            StorageRequest::ProcessNextResult => self.stepped() && self.pending() >= (
            if self.can_send() {
                2nat
            } else {
                1nat
            }),
            _ => self.pending() < usize::MAX,
        }
    }

    /// Handles one request: the answer to queue, if the request was a data
    /// request, and how many queued completions to release now, oldest
    /// first.
    pub fn handle(&mut self, request: StorageRequest) -> (r: (Option<StorageResponse>, usize))
        requires
            old(self).wf(),
            old(self).accepts(request),
        ensures
            final(self).wf(),
            final(self).stepped() == old(self).stepped(),
            final(self).can_send() == old(self).can_send(),
            match request {
                StorageRequest::ProcessNextResult => {
                    &&& r.0 is None
                    &&& r.1 == if old(self).can_send() {
                        2int
                    } else {
                        1int
                    }
                    &&& final(self).pending() == old(self).pending() - r.1
                    &&& final(self).store_entries() == old(self).store_entries()
                },
                _ => {
                    &&& r.1 == if !old(self).stepped() || old(self).can_send() {
                        1int
                    } else {
                        0int
                    }
                    &&& final(self).pending() == old(self).pending() + 1 - r.1
                    &&& match request {
                        StorageRequest::Load(id) => {
                            &&& final(self).store_entries() == old(self).store_entries()
                            &&& r.0 matches Some(StorageResponse::Data(v)) && (match v {
                                Some(b) => spec_find(old(self).store_entries(), id@) == Some(b@),
                                None => spec_find(old(self).store_entries(), id@) is None,
                            })
                        },
                        StorageRequest::Append(id, data) => {
                            &&& r.0 matches Some(StorageResponse::Done)
                            &&& spec_find(final(self).store_entries(), id@) == Some(
                                match spec_find(old(self).store_entries(), id@) {
                                    Some(v) => v + data@,
                                    None => data@,
                                },
                            )
                            &&& forall|k: Seq<char>|
                                k != id@ ==> spec_find(final(self).store_entries(), k) == spec_find(
                                    old(self).store_entries(),
                                    k,
                                )
                        },
                        StorageRequest::Compact(id, data) => {
                            &&& r.0 matches Some(StorageResponse::Done)
                            &&& spec_find(final(self).store_entries(), id@) == Some(data@)
                            &&& forall|k: Seq<char>|
                                k != id@ ==> spec_find(final(self).store_entries(), k) == spec_find(
                                    old(self).store_entries(),
                                    k,
                                )
                        },
                        StorageRequest::ListAll => {
                            &&& final(self).store_entries() == old(self).store_entries()
                            &&& r.0 matches Some(StorageResponse::List(ids)) && ids@.len() == old(
                                self,
                            ).store_entries().len() && (forall|i: int|
                                0 <= i < ids@.len() ==> ids@[i]@ == old(self).store_entries()[i].0)
                        },
                        StorageRequest::ProcessNextResult => false,
                    }
                },
            },
    {
        match request {
            StorageRequest::ProcessNextResult => {
                // A completion is owed: release the oldest; when a release
                // was already owed, the trailing step releases one more.
                if self.can_send {
                    self.pending = self.pending - 2;
                    (None, 2)
                } else {
                    self.pending = self.pending - 1;
                    (None, 1)
                }
            },
            _ => {
                let resp = match request {
                    StorageRequest::Load(id) => StorageResponse::Data(self.store.get(id)),
                    StorageRequest::Append(id, data) => {
                        self.store.append(id, data);
                        StorageResponse::Done
                    },
                    StorageRequest::Compact(id, data) => {
                        self.store.compact(id, data);
                        StorageResponse::Done
                    },
                    StorageRequest::ListAll => StorageResponse::List(self.store.list_all()),
                    StorageRequest::ProcessNextResult => StorageResponse::Done,
                };
                self.pending = self.pending + 1;
                if !self.with_step || self.can_send {
                    self.pending = self.pending - 1;
                    (Some(resp), 1)
                } else {
                    (Some(resp), 0)
                }
            },
        }
    }
}

/// What scanning finds at the first index holding a key.
proof fn lemma_find_present(entries: Seq<(Seq<char>, Seq<u8>)>, i: int)
    requires
        0 <= i < entries.len(),
        forall|j: int| 0 <= j < i ==> entries[j].0 != entries[i].0,
    ensures
        spec_find(entries, entries[i].0) == Some(entries[i].1),
    decreases i,
{
    if i == 0 {
    } else {
        lemma_find_present(entries.drop_first(), i - 1);
    }
}

} // verus!
