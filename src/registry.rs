//! The registration channel's state: byte sources parked under path keys until
//! one request takes them. The task that owns it applies the messages it
//! receives, in arrival order, through `Registry::handle`.
use vstd::prelude::*;
use crate::table::PathTable;

verus! {

/// What a lookup for `p` hands out from the parked sources `m`.
pub open spec fn found<S>(m: Map<Seq<char>, S>, p: Seq<char>) -> Option<S> {
    if m.contains_key(p) {
        Some(m[p])
    } else {
        None
    }
}

/// The replies to `n` lookups for `p`, served one after the other from `m`.
pub open spec fn find_replies<S>(m: Map<Seq<char>, S>, p: Seq<char>, n: nat) -> Seq<Option<S>>
    decreases n,
{
    if n == 0 {
        Seq::empty()
    } else {
        seq![found(m, p)] + find_replies(m.remove(p), p, (n - 1) as nat)
    }
}

/// A message to the owning task.
pub enum InMsg<S, R> {
    /// Park `S` under the path, replacing what was parked there.
    Register(String, S),
    /// Take what is parked under the path and answer on `R`.
    Find(String, R),
}

/// Sources parked under path keys, each to be handed out at most once.
pub struct Registry<S> {
    sources: PathTable<S>,
}

impl<S> View for Registry<S> {
    type V = Map<Seq<char>, S>;

    closed spec fn view(&self) -> Map<Seq<char>, S> {
        self.sources@
    }
}

impl<S> Registry<S> {
    /// The registry's internal invariant.
    pub closed spec fn wf(&self) -> bool {
        self.sources.wf()
    }

    /// A registry with nothing parked.
    pub fn new() -> (r: Registry<S>)
        ensures
            r.wf(),
            r@ == Map::<Seq<char>, S>::empty(),
    {
        Registry { sources: PathTable::new() }
    }

    /// Parks `source` under `path`; a source parked there before and not yet
    /// taken is dropped.
    pub fn register(&mut self, path: String, source: S)
        requires
            old(self).wf(),
        ensures
            final(self).wf(),
            final(self)@ == old(self)@.insert(path@, source),
    {
        self.sources.insert(path, source);
    }

    /// Takes the source parked under `path`: the first lookup after a
    /// registration gets it, the next ones get `None`.
    pub fn find(&mut self, path: &str) -> (r: Option<S>)
        requires
            old(self).wf(),
        ensures
            final(self).wf(),
            r == found(old(self)@, path@),
            final(self)@ == old(self)@.remove(path@),
    {
        let key = String::from_str(path);
        let r = self.sources.remove(&key);
        proof {
            if !old(self)@.contains_key(path@) {
                assert(old(self)@.remove(path@) =~= old(self)@);
            }
        }
        r
    }

    /// Applies one message: a registration is taken in and needs no answer; a
    /// lookup takes the source and gives back the answer for its reply handle.
    pub fn handle<R>(&mut self, msg: InMsg<S, R>) -> (r: Option<(R, Option<S>)>)
        requires
            old(self).wf(),
        ensures
            final(self).wf(),
            match msg {
                InMsg::Register(p, s) => r is None && final(self)@ == old(self)@.insert(p@, s),
                InMsg::Find(p, reply) => r == Some((reply, found(old(self)@, p@))) && final(self)@
                    == old(self)@.remove(p@),
            },
    {
        match msg {
            InMsg::Register(path, source) => {
                self.register(path, source);
                None
            },
            InMsg::Find(path, reply) => {
                let answer = self.find(path.as_str());
                Some((reply, answer))
            },
        }
    }
}

/// A source registered under `p` is handed to the first lookup for `p` and
/// not to a second one made before it is registered again.
pub proof fn lemma_register_then_find_once<S>(m: Map<Seq<char>, S>, p: Seq<char>, s: S)
    ensures
        found(m.insert(p, s), p) == Some(s),
        found(m.insert(p, s).remove(p), p) is None,
{
}

/// Of `n` lookups for a registered `p`, served in any arrival order, exactly
/// one gets the source: the one served first. All the others get `None`.
pub proof fn lemma_single_flight<S>(m: Map<Seq<char>, S>, p: Seq<char>, n: nat)
    requires
        m.contains_key(p),
        n >= 1,
    ensures
        find_replies(m, p, n).len() == n,
        find_replies(m, p, n)[0] == Some(m[p]),
        forall|i: int| 1 <= i < n ==> find_replies(m, p, n)[i] is None,
{
    lemma_replies_when_absent(m.remove(p), p, (n - 1) as nat);
}

/// Lookups for a key that is not parked all get `None`.
pub proof fn lemma_replies_when_absent<S>(m: Map<Seq<char>, S>, p: Seq<char>, n: nat)
    requires
        !m.contains_key(p),
    ensures
        find_replies(m, p, n).len() == n,
        forall|i: int| 0 <= i < n ==> find_replies(m, p, n)[i] is None,
    decreases n,
{
    if n > 0 {
        assert(m.remove(p) =~= m);
        lemma_replies_when_absent(m.remove(p), p, (n - 1) as nat);
    }
}

} // verus!
