//! Building the blame index from a walk of the blame history.
//!
//! The walk visits every commit reachable from the blame repository's head
//! exactly once, newest first.  Each visited commit's message is decoded;
//! on success the entry `original_id -> blame_commit_id` goes into the
//! forward table and, when an external revision is present,
//! `original_id -> external_revision` goes into the revision table.  When
//! two blame commits name the same original commit, the one visited first
//! (the most recent one) wins.  A commit whose message fails to decode is
//! skipped and counted; it never aborts the walk.

use vstd::prelude::*;

use crate::assoc::IdMap;
use crate::codec::{decode_message, spec_decode, BlameEntry};
use crate::ids::CommitId;

verus! {

/// One visited blame commit: its own id and its message text.
pub struct LogEntry {
    pub blame_id: CommitId,
    pub message: String,
}

/// The spec-level picture of a walked history: for each visited commit, its
/// id bytes and its message, newest first.
pub open spec fn log_view(entries: Seq<LogEntry>) -> Seq<(Seq<u8>, Seq<char>)> {
    entries.map_values(|e: LogEntry| (e.blame_id@, e.message@))
}

/// The mathematical model of a build result: the two lookup tables and the
/// count of skipped commits.
pub struct IndexModel {
    pub forward: Map<Seq<u8>, Seq<u8>>,
    pub revisions: Map<Seq<u8>, Seq<char>>,
    pub skipped: nat,
}

/// The model of an index built from nothing.
pub open spec fn empty_model() -> IndexModel {
    IndexModel { forward: Map::empty(), revisions: Map::empty(), skipped: 0 }
}

/// How a single visited commit updates the model.  Each table keeps the
/// binding made by the earliest visited commit; a failed decode only bumps
/// the skip count.
pub open spec fn step_model(acc: IndexModel, entry: (Seq<u8>, Seq<char>)) -> IndexModel {
    match spec_decode(entry.1) {
        Err(_) => IndexModel {
            forward: acc.forward,
            revisions: acc.revisions,
            skipped: acc.skipped + 1,
        },
        Ok(dec) => IndexModel {
            forward: if acc.forward.contains_key(dec.0) {
                acc.forward
            } else {
                acc.forward.insert(dec.0, entry.0)
            },
            revisions: match dec.1 {
                Some(rev) => if acc.revisions.contains_key(dec.0) {
                    acc.revisions
                } else {
                    acc.revisions.insert(dec.0, rev)
                },
                None => acc.revisions,
            },
            skipped: acc.skipped,
        },
    }
}

/// The model after walking `log`, starting from `acc`.
pub open spec fn index_from(log: Seq<(Seq<u8>, Seq<char>)>, acc: IndexModel) -> IndexModel
    decreases log.len(),
{
    if log.len() == 0 {
        acc
    } else {
        index_from(log.drop_first(), step_model(acc, log[0]))
    }
}

/// The model built from a newest-first log of blame commits.
pub open spec fn index_of_log(log: Seq<(Seq<u8>, Seq<char>)>) -> IndexModel {
    index_from(log, empty_model())
}

/// The two lookup tables built from a blame history.
pub struct BlameIndex {
    forward: IdMap<CommitId>,
    revisions: IdMap<String>,
}

impl BlameIndex {
    /// The table from primary commit id to blame commit id.
    pub closed spec fn forward_view(&self) -> Map<Seq<u8>, Seq<u8>> {
        self.forward.view_map()
    }

    /// The table from primary commit id to external revision.
    pub closed spec fn revision_view(&self) -> Map<Seq<u8>, Seq<char>> {
        self.revisions.view_map()
    }

    pub closed spec fn wf(&self) -> bool {
        self.forward.wf() && self.revisions.wf()
    }

    /// An empty index: the index of a tree with no blame history.
    pub fn new() -> (r: BlameIndex)
        ensures
            r.wf(),
            r.forward_view() == Map::<Seq<u8>, Seq<u8>>::empty(),
            r.revision_view() == Map::<Seq<u8>, Seq<char>>::empty(),
    {
        BlameIndex { forward: IdMap::new(), revisions: IdMap::new() }
    }

    /// Records one decoded blame commit.  Each table keeps its first binding
    /// of a key, so a commit recorded earlier is never displaced.
    pub fn record(&mut self, entry: BlameEntry)
        requires
            old(self).wf(),
        ensures
            final(self).wf(),
            final(self).forward_view() == if old(self).forward_view().contains_key(
                entry.original_id@,
            ) {
                old(self).forward_view()
            } else {
                old(self).forward_view().insert(entry.original_id@, entry.blame_id@)
            },
            final(self).revision_view() == match entry.external_revision {
                Some(rev) => if old(self).revision_view().contains_key(entry.original_id@) {
                    old(self).revision_view()
                } else {
                    old(self).revision_view().insert(entry.original_id@, rev@)
                },
                None => old(self).revision_view(),
            },
    {
        let BlameEntry { original_id, blame_id, external_revision } = entry;
        match external_revision {
            Some(rev) => {
                let rev_key = original_id.duplicate();
                self.forward.try_insert(original_id, blame_id);
                self.revisions.try_insert(rev_key, rev);
            },
            None => {
                self.forward.try_insert(original_id, blame_id);
            },
        }
    }

    /// The blame commit that annotates `original_id`, if any.
    pub fn blame_commit_for<'a>(&'a self, original_id: &CommitId) -> (r: Option<&'a CommitId>)
        requires
            self.wf(),
        ensures
            r is Some <==> self.forward_view().contains_key(original_id@),
            r is Some ==> r->0@ == self.forward_view()[original_id@],
    {
        self.forward.get(original_id)
    }

    /// The external revision recorded for `original_id`, if any.
    pub fn external_revision_for<'a>(&'a self, original_id: &CommitId) -> (r: Option<&'a String>)
        requires
            self.wf(),
        ensures
            r is Some <==> self.revision_view().contains_key(original_id@),
            r is Some ==> r->0@ == self.revision_view()[original_id@],
    {
        self.revisions.get(original_id)
    }

    /// How many primary commits have a blame commit recorded.
    pub fn forward_len(&self) -> (r: usize)
        requires
            self.wf(),
        ensures
            r as nat == self.forward_view().dom().len(),
    {
        self.forward.len()
    }

    /// How many primary commits have an external revision recorded.
    pub fn revision_len(&self) -> (r: usize)
        requires
            self.wf(),
        ensures
            r as nat == self.revision_view().dom().len(),
    {
        self.revisions.len()
    }
}

/// The result of one index build: the tables, and how many commits were
/// skipped because their message failed to decode.
pub struct IndexOutcome {
    pub index: BlameIndex,
    pub skipped: usize,
}

/// The model an outcome realises.
pub open spec fn outcome_model(o: IndexOutcome) -> IndexModel {
    IndexModel {
        forward: o.index.forward_view(),
        revisions: o.index.revision_view(),
        skipped: o.skipped as nat,
    }
}

/// Builds the blame index from a newest-first log of blame commits: a single
/// linear pass that decodes each message and accumulates the two tables.
pub fn build_index_from_log(entries: &Vec<LogEntry>) -> (r: IndexOutcome)
    ensures
        r.index.wf(),
        outcome_model(r) == index_of_log(log_view(entries@)),
{
    let ghost full = log_view(entries@);
    let mut index = BlameIndex::new();
    let mut skipped: usize = 0;
    let mut i: usize = 0;
    proof {
        assert(full.subrange(0, full.len() as int) =~= full);
    }
    while i < entries.len()
        invariant
            i <= entries@.len(),
            full == log_view(entries@),
            full.len() == entries@.len(),
            index.wf(),
            skipped <= i,
            index_from(
                full.subrange(i as int, full.len() as int),
                IndexModel {
                    forward: index.forward_view(),
                    revisions: index.revision_view(),
                    skipped: skipped as nat,
                },
            ) == index_of_log(full),
        decreases entries@.len() - i,
    {
        let ghost pre = IndexModel {
            forward: index.forward_view(),
            revisions: index.revision_view(),
            skipped: skipped as nat,
        };
        let entry = &entries[i];
        let bid = entry.blame_id.duplicate();
        match decode_message(bid, entry.message.as_str()) {
            Ok(be) => {
                index.record(be);
            },
            Err(_) => {
                skipped += 1;
            },
        }
        proof {
            let post = IndexModel {
                forward: index.forward_view(),
                revisions: index.revision_view(),
                skipped: (skipped as nat),
            };
            assert(full[i as int] == (entries@[i as int].blame_id@, entries@[i as int].message@));
            assert(post == step_model(pre, full[i as int]));
            assert(full.subrange(i as int, full.len() as int).drop_first() =~= full.subrange(
                i + 1,
                full.len() as int,
            ));
            assert(full.subrange(i as int, full.len() as int)[0] == full[i as int]);
        }
        i += 1;
    }
    proof {
        assert(full.subrange(i as int, full.len() as int) =~= Seq::<(Seq<u8>, Seq<char>)>::empty());
    }
    IndexOutcome { index, skipped }
}

/// The original commit a log entry's message names, when it decodes.
pub open spec fn decoded_original(entry: (Seq<u8>, Seq<char>)) -> Seq<u8> {
    spec_decode(entry.1)->Ok_0.0
}

/// Law: an empty blame history builds empty tables and skips nothing.
pub proof fn lemma_empty_history_empty_index()
    ensures
        index_of_log(Seq::empty()) == empty_model(),
{
}

/// Law: the index is a function of the walked log alone, so building twice
/// from the same unchanged history yields identical tables.
pub proof fn lemma_index_idempotent(log1: Seq<(Seq<u8>, Seq<char>)>, log2: Seq<(Seq<u8>, Seq<char>)>)
    requires
        log1 == log2,
    ensures
        index_of_log(log1) == index_of_log(log2),
{
}

proof fn lemma_index_from_preserves(log: Seq<(Seq<u8>, Seq<char>)>, acc: IndexModel, o: Seq<u8>)
    requires
        acc.forward.contains_key(o),
    ensures
        index_from(log, acc).forward.contains_key(o),
        index_from(log, acc).forward[o] == acc.forward[o],
    decreases log.len(),
{
    if log.len() == 0 {
    } else {
        lemma_index_from_preserves(log.drop_first(), step_model(acc, log[0]), o);
    }
}

proof fn lemma_index_from_first_wins(log: Seq<(Seq<u8>, Seq<char>)>, acc: IndexModel, i: int)
    requires
        0 <= i < log.len(),
        spec_decode(log[i].1) is Ok,
        !acc.forward.contains_key(decoded_original(log[i])),
        forall|k: int|
            0 <= k < i ==> !(spec_decode((#[trigger] log[k]).1) is Ok && decoded_original(log[k])
                == decoded_original(log[i])),
    ensures
        index_from(log, acc).forward.contains_key(decoded_original(log[i])),
        index_from(log, acc).forward[decoded_original(log[i])] == log[i].0,
    decreases log.len(),
{
    let o = decoded_original(log[i]);
    let acc2 = step_model(acc, log[0]);
    if i == 0 {
        assert(acc2.forward.contains_key(o) && acc2.forward[o] == log[0].0);
        lemma_index_from_preserves(log.drop_first(), acc2, o);
    } else {
        assert(!(spec_decode(log[0].1) is Ok && decoded_original(log[0]) == o));
        assert(!acc2.forward.contains_key(o));
        assert(forall|k: int|
            0 <= k < i - 1 ==> log.drop_first()[k] == log[k + 1]);
        assert(log.drop_first()[i - 1] == log[i]);
        lemma_index_from_first_wins(log.drop_first(), acc2, i - 1);
    }
}

/// Law: when several blame commits name the same original commit, the
/// forward table keeps the one visited first in the newest-first walk — the
/// most recent blame commit, not the oldest.
pub proof fn lemma_duplicate_keeps_newest(log: Seq<(Seq<u8>, Seq<char>)>, i: int)
    requires
        0 <= i < log.len(),
        spec_decode(log[i].1) is Ok,
        forall|k: int|
            0 <= k < i ==> !(spec_decode((#[trigger] log[k]).1) is Ok && decoded_original(log[k])
                == decoded_original(log[i])),
    ensures
        index_of_log(log).forward.contains_key(decoded_original(log[i])),
        index_of_log(log).forward[decoded_original(log[i])] == log[i].0,
{
    lemma_index_from_first_wins(log, empty_model(), i);
}

/// Whether a log entry decodes successfully and carries an external
/// revision.
pub open spec fn carries_revision(entry: (Seq<u8>, Seq<char>)) -> bool {
    spec_decode(entry.1) is Ok && spec_decode(entry.1)->Ok_0.1 is Some
}

/// The external revision a log entry carries, when it carries one.
pub open spec fn decoded_revision(entry: (Seq<u8>, Seq<char>)) -> Seq<char> {
    spec_decode(entry.1)->Ok_0.1->0
}

proof fn lemma_index_from_preserves_revision(
    log: Seq<(Seq<u8>, Seq<char>)>,
    acc: IndexModel,
    o: Seq<u8>,
)
    requires
        acc.revisions.contains_key(o),
    ensures
        index_from(log, acc).revisions.contains_key(o),
        index_from(log, acc).revisions[o] == acc.revisions[o],
    decreases log.len(),
{
    if log.len() == 0 {
    } else {
        lemma_index_from_preserves_revision(log.drop_first(), step_model(acc, log[0]), o);
    }
}

proof fn lemma_index_from_first_revision_wins(
    log: Seq<(Seq<u8>, Seq<char>)>,
    acc: IndexModel,
    i: int,
)
    requires
        0 <= i < log.len(),
        carries_revision(log[i]),
        !acc.revisions.contains_key(decoded_original(log[i])),
        forall|k: int|
            0 <= k < i ==> !(carries_revision(#[trigger] log[k]) && decoded_original(log[k])
                == decoded_original(log[i])),
    ensures
        index_from(log, acc).revisions.contains_key(decoded_original(log[i])),
        index_from(log, acc).revisions[decoded_original(log[i])] == decoded_revision(log[i]),
    decreases log.len(),
{
    let o = decoded_original(log[i]);
    let acc2 = step_model(acc, log[0]);
    if i == 0 {
        assert(acc2.revisions.contains_key(o) && acc2.revisions[o] == decoded_revision(log[0]));
        lemma_index_from_preserves_revision(log.drop_first(), acc2, o);
    } else {
        assert(!(carries_revision(log[0]) && decoded_original(log[0]) == o));
        assert(!acc2.revisions.contains_key(o));
        assert(forall|k: int| 0 <= k < i - 1 ==> log.drop_first()[k] == log[k + 1]);
        assert(log.drop_first()[i - 1] == log[i]);
        lemma_index_from_first_revision_wins(log.drop_first(), acc2, i - 1);
    }
}

/// Law: the revision table, too, keeps the binding of the first visited
/// commit that names the original commit and carries a revision; a newer
/// mention without a revision does not erase an older one's revision.
pub proof fn lemma_first_revision_wins(log: Seq<(Seq<u8>, Seq<char>)>, i: int)
    requires
        0 <= i < log.len(),
        carries_revision(log[i]),
        forall|k: int|
            0 <= k < i ==> !(carries_revision(#[trigger] log[k]) && decoded_original(log[k])
                == decoded_original(log[i])),
    ensures
        index_of_log(log).revisions.contains_key(decoded_original(log[i])),
        index_of_log(log).revisions[decoded_original(log[i])] == decoded_revision(log[i]),
{
    lemma_index_from_first_revision_wins(log, empty_model(), i);
}

proof fn lemma_index_from_forward_domain(log: Seq<(Seq<u8>, Seq<char>)>, acc: IndexModel, o: Seq<u8>)
    ensures
        index_from(log, acc).forward.contains_key(o) <==> (acc.forward.contains_key(o)
            || exists|i: int|
            0 <= i < log.len() && spec_decode((#[trigger] log[i]).1) is Ok && decoded_original(
                log[i],
            ) == o),
    decreases log.len(),
{
    if log.len() == 0 {
    } else {
        let acc2 = step_model(acc, log[0]);
        lemma_index_from_forward_domain(log.drop_first(), acc2, o);
        assert(forall|k: int| 0 <= k < log.len() - 1 ==> (#[trigger] log.drop_first()[k]) == log[k
            + 1]);
        if exists|i: int|
            0 <= i < log.drop_first().len() && spec_decode(
                (#[trigger] log.drop_first()[i]).1,
            ) is Ok && decoded_original(log.drop_first()[i]) == o {
            let i = choose|i: int|
                0 <= i < log.drop_first().len() && spec_decode(
                    (#[trigger] log.drop_first()[i]).1,
                ) is Ok && decoded_original(log.drop_first()[i]) == o;
            assert(spec_decode(log[i + 1].1) is Ok && decoded_original(log[i + 1]) == o);
        }
        if exists|i: int|
            0 <= i < log.len() && spec_decode((#[trigger] log[i]).1) is Ok && decoded_original(
                log[i],
            ) == o {
            let i = choose|i: int|
                0 <= i < log.len() && spec_decode((#[trigger] log[i]).1) is Ok
                    && decoded_original(log[i]) == o;
            if i == 0 {
                assert(acc2.forward.contains_key(o));
            } else {
                assert(spec_decode(log.drop_first()[i - 1].1) is Ok && decoded_original(
                    log.drop_first()[i - 1],
                ) == o);
            }
        }
    }
}

/// Law: the forward table holds a key exactly when some visited commit's
/// message decodes and names that original commit.
pub proof fn lemma_forward_domain(log: Seq<(Seq<u8>, Seq<char>)>, o: Seq<u8>)
    ensures
        index_of_log(log).forward.contains_key(o) <==> exists|i: int|
            0 <= i < log.len() && spec_decode((#[trigger] log[i]).1) is Ok && decoded_original(
                log[i],
            ) == o,
{
    lemma_index_from_forward_domain(log, empty_model(), o);
}

proof fn lemma_index_from_revision_domain(
    log: Seq<(Seq<u8>, Seq<char>)>,
    acc: IndexModel,
    o: Seq<u8>,
)
    ensures
        index_from(log, acc).revisions.contains_key(o) <==> (acc.revisions.contains_key(o)
            || exists|i: int|
            0 <= i < log.len() && carries_revision(#[trigger] log[i]) && decoded_original(log[i])
                == o),
    decreases log.len(),
{
    if log.len() == 0 {
    } else {
        let acc2 = step_model(acc, log[0]);
        lemma_index_from_revision_domain(log.drop_first(), acc2, o);
        assert(forall|k: int| 0 <= k < log.len() - 1 ==> (#[trigger] log.drop_first()[k]) == log[k
            + 1]);
        if exists|i: int|
            0 <= i < log.drop_first().len() && carries_revision(#[trigger] log.drop_first()[i])
                && decoded_original(log.drop_first()[i]) == o {
            let i = choose|i: int|
                0 <= i < log.drop_first().len() && carries_revision(
                    #[trigger] log.drop_first()[i],
                ) && decoded_original(log.drop_first()[i]) == o;
            assert(carries_revision(log[i + 1]) && decoded_original(log[i + 1]) == o);
        }
        if exists|i: int|
            0 <= i < log.len() && carries_revision(#[trigger] log[i]) && decoded_original(log[i])
                == o {
            let i = choose|i: int|
                0 <= i < log.len() && carries_revision(#[trigger] log[i]) && decoded_original(
                    log[i],
                ) == o;
            if i == 0 {
                assert(acc2.revisions.contains_key(o));
            } else {
                assert(carries_revision(log.drop_first()[i - 1]) && decoded_original(
                    log.drop_first()[i - 1],
                ) == o);
            }
        }
    }
}

/// Law: the revision table holds a key exactly when some visited commit's
/// message decodes, names that original commit, and carries a revision.
pub proof fn lemma_revision_domain(log: Seq<(Seq<u8>, Seq<char>)>, o: Seq<u8>)
    ensures
        index_of_log(log).revisions.contains_key(o) <==> exists|i: int|
            0 <= i < log.len() && carries_revision(#[trigger] log[i]) && decoded_original(log[i])
                == o,
{
    lemma_index_from_revision_domain(log, empty_model(), o);
}

/// How many log entries fail to decode.
pub open spec fn failed_count(log: Seq<(Seq<u8>, Seq<char>)>) -> nat
    decreases log.len(),
{
    if log.len() == 0 {
        0
    } else {
        (if spec_decode(log[0].1) is Ok {
            0nat
        } else {
            1nat
        }) + failed_count(log.drop_first())
    }
}

proof fn lemma_index_from_skipped(log: Seq<(Seq<u8>, Seq<char>)>, acc: IndexModel)
    ensures
        index_from(log, acc).skipped == acc.skipped + failed_count(log),
    decreases log.len(),
{
    if log.len() == 0 {
    } else {
        lemma_index_from_skipped(log.drop_first(), step_model(acc, log[0]));
    }
}

/// Law: the skip count of a build is exactly the number of commits whose
/// message fails to decode; per-entry failures are counted, never fatal.
pub proof fn lemma_skipped_counts_failures(log: Seq<(Seq<u8>, Seq<char>)>)
    ensures
        index_of_log(log).skipped == failed_count(log),
{
    lemma_index_from_skipped(log, empty_model());
}

} // verus!
