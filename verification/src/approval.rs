//! Approval gate: the bridge between an agent that waits for the user and
//! the user interface that answers.

use vstd::prelude::*;

use crate::text::{copy_of, str_eq};

verus! {

/// The requests that wait for an answer, each with the channel `S` through
/// which it is answered.
#[derive(Debug)]
pub struct ApprovalGate<S> {
    pending: Vec<(String, S)>,
}

/// Whether no id occurs twice.
pub open spec fn distinct<S>(s: Seq<(String, S)>) -> bool {
    forall|i: int, j: int|
        0 <= i < j < s.len() ==> (#[trigger] s[i]).0@ != (#[trigger] s[j]).0@
}

/// Whether the request `id` waits at the position `i`.
pub open spec fn waits_at<S>(s: Seq<(String, S)>, id: Seq<char>, i: int) -> bool {
    0 <= i < s.len() && s[i].0@ == id
}

/// The requests by their ids.
pub open spec fn by_id<S>(s: Seq<(String, S)>) -> Map<Seq<char>, S> {
    Map::new(
        |id: Seq<char>| exists|i: int| waits_at(s, id, i),
        |id: Seq<char>| s[choose|i: int| waits_at(s, id, i)].1,
    )
}

impl<S> View for ApprovalGate<S> {
    type V = Map<Seq<char>, S>;

    closed spec fn view(&self) -> Map<Seq<char>, S> {
        by_id(self.pending@)
    }
}

proof fn lemma_by_id<S>(s: Seq<(String, S)>, i: int)
    requires
        distinct(s),
        0 <= i < s.len(),
    ensures
        by_id(s).dom().contains(s[i].0@),
        by_id(s)[s[i].0@] == s[i].1,
{
    assert(waits_at(s, s[i].0@, i));
    let k = choose|k: int| waits_at(s, s[i].0@, k);
    if k < i {
        assert(s[k].0@ != s[i].0@);
    } else if i < k {
        assert(s[i].0@ != s[k].0@);
    }
}

proof fn lemma_by_id_push<S>(s: Seq<(String, S)>, x: (String, S))
    requires
        distinct(s),
        !by_id(s).dom().contains(x.0@),
    ensures
        distinct(s.push(x)),
        by_id(s.push(x)) == by_id(s).insert(x.0@, x.1),
{
    let t = s.push(x);
    assert forall|i: int| 0 <= i < s.len() implies (#[trigger] s[i]).0@ != x.0@ by {
        lemma_by_id(s, i);
    }
    assert(distinct(t));
    assert forall|id: Seq<char>| by_id(t).dom().contains(id) == by_id(s).insert(
        x.0@,
        x.1,
    ).dom().contains(id) by {
        if by_id(t).dom().contains(id) {
            let i = choose|i: int| waits_at(t, id, i);
            if i < s.len() {
                assert(waits_at(s, id, i));
            }
        }
        if by_id(s).dom().contains(id) {
            let i = choose|i: int| waits_at(s, id, i);
            assert(waits_at(t, id, i));
        }
        if id == x.0@ {
            assert(waits_at(t, id, s.len() as int));
        }
    }
    assert forall|id: Seq<char>| by_id(t).dom().contains(id) implies by_id(t)[id] == by_id(
        s,
    ).insert(x.0@, x.1)[id] by {
        let i = choose|i: int| waits_at(t, id, i);
        lemma_by_id(t, i);
        if i < s.len() {
            assert(t[i] == s[i]);
            lemma_by_id(s, i);
        }
    }
    assert(by_id(t) =~= by_id(s).insert(x.0@, x.1));
}

/// There are as many requests as there are ids.
proof fn lemma_by_id_len<S>(s: Seq<(String, S)>)
    requires
        distinct(s),
    ensures
        by_id(s).dom().finite(),
        by_id(s).len() == s.len(),
    decreases s.len(),
{
    if s.len() == 0 {
        assert(by_id(s) =~= Map::empty());
    } else {
        let head = s.drop_last();
        lemma_by_id_len(head);
        assert(!by_id(head).dom().contains(s.last().0@)) by {
            if by_id(head).dom().contains(s.last().0@) {
                let i = choose|i: int| waits_at(head, s.last().0@, i);
                assert(s[i].0@ != s[s.len() - 1].0@);
            }
        }
        lemma_by_id_push(head, s.last());
        assert(head.push(s.last()) =~= s);
    }
}

proof fn lemma_by_id_remove<S>(s: Seq<(String, S)>, k: int)
    requires
        distinct(s),
        0 <= k < s.len(),
    ensures
        distinct(s.remove(k)),
        by_id(s.remove(k)) == by_id(s).remove(s[k].0@),
{
    let t = s.remove(k);
    assert forall|i: int| 0 <= i < t.len() implies #[trigger] t[i] == s[if i < k {
        i
    } else {
        i + 1
    }] by {}
    assert(distinct(t)) by {
        assert forall|i: int, j: int| 0 <= i < j < t.len() implies (#[trigger] t[i]).0@ != (
        #[trigger] t[j]).0@ by {
            let a = if i < k {
                i
            } else {
                i + 1
            };
            let b = if j < k {
                j
            } else {
                j + 1
            };
            assert(s[a].0@ != s[b].0@);
        }
    }
    assert forall|id: Seq<char>| by_id(t).dom().contains(id) == by_id(s).remove(
        s[k].0@,
    ).dom().contains(id) by {
        if by_id(t).dom().contains(id) {
            let i = choose|i: int| waits_at(t, id, i);
            let a = if i < k {
                i
            } else {
                i + 1
            };
            assert(waits_at(s, id, a));
            if a < k {
                assert(s[a].0@ != s[k].0@);
            } else {
                assert(s[k].0@ != s[a].0@);
            }
        }
        if by_id(s).remove(s[k].0@).dom().contains(id) {
            let i = choose|i: int| waits_at(s, id, i);
            let b = if i < k {
                i
            } else {
                i - 1
            };
            assert(t[b] == s[i]);
            assert(waits_at(t, id, b));
        }
    }
    assert forall|id: Seq<char>| by_id(t).dom().contains(id) implies by_id(t)[id] == by_id(
        s,
    ).remove(s[k].0@)[id] by {
        let i = choose|i: int| waits_at(t, id, i);
        lemma_by_id(t, i);
        let a = if i < k {
            i
        } else {
            i + 1
        };
        lemma_by_id(s, a);
    }
    assert(by_id(t) =~= by_id(s).remove(s[k].0@));
}

impl<S> ApprovalGate<S> {
    /// Whether every request has an id of its own.
    pub closed spec fn well_formed(&self) -> bool {
        distinct(self.pending@)
    }

    /// A gate at which nothing waits.
    pub fn new() -> (r: ApprovalGate<S>)
        ensures
            r.well_formed(),
            r@ == Map::<Seq<char>, S>::empty(),
    {
        let r = ApprovalGate { pending: Vec::new() };
        assert(by_id(r.pending@) =~= Map::<Seq<char>, S>::empty());
        r
    }

    fn position(&self, id: &str) -> (r: Option<usize>)
        ensures
            match r {
                Some(i) => i < self.pending@.len() && self.pending@[i as int].0@ == id@,
                None => forall|i: int|
                    0 <= i < self.pending@.len() ==> (#[trigger] self.pending@[i]).0@ != id@,
            },
    {
        let n: usize = self.pending.len();
        for i in 0..n
            invariant
                n == self.pending@.len(),
                forall|j: int| 0 <= j < i ==> (#[trigger] self.pending@[j]).0@ != id@,
        {
            if str_eq(&self.pending[i].0, id) {
                return Some(i);
            }
        }
        None
    }

    /// Answers the request `id`: it no longer waits, and its channel is
    /// handed out. Nothing where no such request waits.
    pub fn respond(&mut self, id: &str) -> (r: Option<S>)
        requires
            old(self).well_formed(),
        ensures
            final(self).well_formed(),
            final(self)@ == old(self)@.remove(id@),
            r == if old(self)@.dom().contains(id@) {
                Some(old(self)@[id@])
            } else {
                None
            },
    {
        match self.position(id) {
            Some(i) => {
                proof {
                    lemma_by_id(self.pending@, i as int);
                    lemma_by_id_remove(self.pending@, i as int);
                }
                let (_, s) = self.pending.remove(i);
                Some(s)
            },
            None => {
                assert(!self@.dom().contains(id@)) by {
                    if self@.dom().contains(id@) {
                        let i = choose|i: int| waits_at(self.pending@, id@, i);
                        assert(self.pending@[i].0@ != id@);
                    }
                }
                assert(self@.remove(id@) =~= self@);
                None
            },
        }
    }

    /// Parks the request `id` with its channel. A request that waited under
    /// the same id gives way, and its channel is handed out.
    pub fn request(&mut self, id: &str, channel: S) -> (r: Option<S>)
        requires
            old(self).well_formed(),
        ensures
            final(self).well_formed(),
            final(self)@ == old(self)@.insert(id@, channel),
            r == if old(self)@.dom().contains(id@) {
                Some(old(self)@[id@])
            } else {
                None
            },
    {
        let ghost before = self@;
        let displaced = self.respond(id);
        let key = copy_of(id);
        proof {
            assert(!self@.dom().contains(id@));
            lemma_by_id_push(self.pending@, (key, channel));
        }
        self.pending.push((key, channel));
        assert(self@ =~= before.insert(id@, channel));
        displaced
    }

    /// How many requests wait.
    pub fn pending_count(&self) -> (n: usize)
        requires
            self.well_formed(),
        ensures
            self@.dom().finite(),
            n == self@.len(),
    {
        proof {
            lemma_by_id_len(self.pending@);
        }
        self.pending.len()
    }
}

/// What an answer means: a channel that is dropped without an answer (the
/// user interface is gone) counts as a denial.
pub fn is_approved(answer: Option<bool>) -> (r: bool)
    ensures
        r == (answer == Some(true)),
{
    match answer {
        Some(yes) => yes,
        None => false,
    }
}

} // verus!
