//! The registry of running game loops, one per map.
//!
//! A request for a map returns the loop already registered for it, or builds
//! one, registers it and returns it. A failed build registers nothing, so a
//! later request builds again. Entries are never removed.
use std::sync::Arc;
use vstd::prelude::*;
use vstd::hash_map::StringHashMap;

verus! {

/// Relies on `Arc::clone`: the new handle points at the same value.
#[verifier::external_body]
fn share<L>(h: &Arc<L>) -> (r: Arc<L>)
    ensures
        r == *h,
{
    Arc::clone(h)
}

/// The loops registered after one request for `name`, where `made` is what a
/// build would give if the request needs one.
pub open spec fn loops_after<L>(
    loops: Map<Seq<char>, Arc<L>>,
    name: Seq<char>,
    made: Option<Arc<L>>,
) -> Map<Seq<char>, Arc<L>> {
    if loops.contains_key(name) {
        loops
    } else {
        match made {
            Some(h) => loops.insert(name, h),
            None => loops,
        }
    }
}

/// The handle that one request for `name` returns.
pub open spec fn handle_after<L>(
    loops: Map<Seq<char>, Arc<L>>,
    name: Seq<char>,
    made: Option<Arc<L>>,
) -> Option<Arc<L>> {
    if loops.contains_key(name) {
        Some(loops[name])
    } else {
        made
    }
}

/// The names that builds were run for, after one request for `name`: a build
/// runs exactly when no loop is registered for it.
pub open spec fn attempts_after<L>(
    loops: Map<Seq<char>, Arc<L>>,
    attempts: Seq<Seq<char>>,
    name: Seq<char>,
) -> Seq<Seq<char>> {
    if loops.contains_key(name) {
        attempts
    } else {
        attempts.push(name)
    }
}

/// The value a build gave, without its handle.
pub open spec fn unshared<L>(made: Option<Arc<L>>) -> Option<L> {
    match made {
        Some(h) => Some(*h),
        None => None,
    }
}

/// What `n` requests for `name`, served one after another, lead to: the
/// registered loops, the names built for, and the handle each request got.
/// The `i`-th request's build, if it runs, gives `mades[i]`.
pub open spec fn serve<L>(
    loops: Map<Seq<char>, Arc<L>>,
    attempts: Seq<Seq<char>>,
    name: Seq<char>,
    mades: Seq<Option<Arc<L>>>,
) -> (Map<Seq<char>, Arc<L>>, Seq<Seq<char>>, Seq<Option<Arc<L>>>)
    decreases mades.len(),
{
    if mades.len() == 0 {
        (loops, attempts, Seq::empty())
    } else {
        let (l, a, got) = serve(loops, attempts, name, mades.drop_last());
        (
            loops_after(l, name, mades.last()),
            attempts_after(l, a, name),
            got.push(handle_after(l, name, mades.last())),
        )
    }
}

/// Once a loop is registered for a map, a request for it returns that loop,
/// leaves the registry as it was and builds nothing.
pub proof fn lemma_registered_loop_is_returned<L>(
    loops: Map<Seq<char>, Arc<L>>,
    attempts: Seq<Seq<char>>,
    name: Seq<char>,
    made: Option<Arc<L>>,
)
    requires
        loops.contains_key(name),
    ensures
        handle_after(loops, name, made) == Some(loops[name]),
        loops_after(loops, name, made) == loops,
        attempts_after(loops, attempts, name) == attempts,
{
}

/// Requests for one map, served one after another: every request that gets a
/// handle gets the same one, and while builds succeed at most one build runs.
pub proof fn lemma_one_loop_per_map<L>(
    loops: Map<Seq<char>, Arc<L>>,
    attempts: Seq<Seq<char>>,
    name: Seq<char>,
    mades: Seq<Option<Arc<L>>>,
)
    ensures
        forall|i: int, j: int|
            0 <= i < mades.len() && 0 <= j < mades.len() && (#[trigger] serve(
                loops,
                attempts,
                name,
                mades,
            ).2[i]).is_some() && (#[trigger] serve(loops, attempts, name, mades).2[j]).is_some()
                ==> serve(loops, attempts, name, mades).2[i] == serve(loops, attempts, name, mades).2[j],
        (forall|i: int| 0 <= i < mades.len() ==> (#[trigger] mades[i]).is_some()) ==> serve(
            loops,
            attempts,
            name,
            mades,
        ).1.len() <= attempts.len() + 1,
    decreases mades.len(),
{
    if mades.len() > 0 {
        let prev = mades.drop_last();
        lemma_one_loop_per_map(loops, attempts, name, prev);
        lemma_serve_facts(loops, attempts, name, prev);
        lemma_serve_facts(loops, attempts, name, mades);
        if forall|i: int| 0 <= i < mades.len() ==> (#[trigger] mades[i]).is_some() {
            assert forall|i: int| 0 <= i < prev.len() implies (#[trigger] prev[i]).is_some() by {
                assert(prev[i] == mades[i]);
            }
        }
    }
}

/// Facts about `serve` that the laws above use: the lengths, and that once a
/// request gets a handle, the map stays registered to it.
proof fn lemma_serve_facts<L>(
    loops: Map<Seq<char>, Arc<L>>,
    attempts: Seq<Seq<char>>,
    name: Seq<char>,
    mades: Seq<Option<Arc<L>>>,
)
    ensures
        serve(loops, attempts, name, mades).2.len() == mades.len(),
        serve(loops, attempts, name, mades).1.len() >= attempts.len(),
        forall|i: int|
            0 <= i < mades.len() && (#[trigger] serve(loops, attempts, name, mades).2[i]).is_some()
                ==> serve(loops, attempts, name, mades).0.contains_key(name) && Some(
                serve(loops, attempts, name, mades).0[name],
            ) == serve(loops, attempts, name, mades).2[i],
    decreases mades.len(),
{
    if mades.len() > 0 {
        lemma_serve_facts(loops, attempts, name, mades.drop_last());
        let prev = mades.drop_last();
        let got = serve(loops, attempts, name, mades).2;
        let got_prev = serve(loops, attempts, name, prev).2;
        assert forall|i: int| 0 <= i < mades.len() - 1 implies got[i] == got_prev[i] by {}
    }
}

/// A request for one map never adds, removes or changes the entry of another.
pub proof fn lemma_maps_independent<L>(
    loops: Map<Seq<char>, Arc<L>>,
    name: Seq<char>,
    other: Seq<char>,
    made: Option<Arc<L>>,
)
    requires
        name != other,
    ensures
        loops_after(loops, name, made).contains_key(other) == loops.contains_key(other),
        loops.contains_key(other) ==> loops_after(loops, name, made)[other] == loops[other],
{
}

/// A failed build registers nothing, so the next request for that map builds
/// again and returns what the new build gives.
pub proof fn lemma_failure_not_cached<L>(
    loops: Map<Seq<char>, Arc<L>>,
    attempts: Seq<Seq<char>>,
    name: Seq<char>,
    made: Option<Arc<L>>,
)
    requires
        !loops.contains_key(name),
    ensures
        handle_after(loops, name, None) == None::<Arc<L>>,
        loops_after(loops, name, None) == loops,
        attempts_after(loops_after(loops, name, None), attempts_after(loops, attempts, name), name)
            == attempts.push(name).push(name),
        handle_after(loops_after(loops, name, None), name, made) == made,
{
}

/// Running game loops by map name.
#[verifier::reject_recursive_types(L)]
pub struct GameLoopRegistry<L> {
    loops: StringHashMap<Arc<L>>,
    attempts: Ghost<Seq<Seq<char>>>,
}

impl<L> View for GameLoopRegistry<L> {
    type V = Map<Seq<char>, Arc<L>>;

    closed spec fn view(&self) -> Map<Seq<char>, Arc<L>> {
        self.loops@
    }
}

impl<L> GameLoopRegistry<L> {
    /// The names that builds were run for, in order.
    pub closed spec fn attempts(&self) -> Seq<Seq<char>> {
        self.attempts@
    }

    /// An empty registry.
    pub fn new() -> (r: Self)
        ensures
            r@ == Map::<Seq<char>, Arc<L>>::empty(),
            r.attempts() == Seq::<Seq<char>>::empty(),
    {
        GameLoopRegistry { loops: StringHashMap::new(), attempts: Ghost(Seq::empty()) }
    }

    /// Whether a loop is registered for `name`.
    pub fn contains(&self, name: &str) -> (r: bool)
        ensures
            r == self@.contains_key(name@),
    {
        self.loops.contains_key(name)
    }

    /// Returns the loop registered for `name`, or builds one with `create`,
    /// handing it `name` and `outbound`. A built loop is registered and
    /// returned; a failed build registers nothing and returns `None`. The
    /// build runs only when no loop is registered for `name`.
    pub fn get_or_create<S, F>(&mut self, name: &str, outbound: &S, create: F) -> (r: Option<
        Arc<L>,
    >) where F: FnOnce(&str, &S) -> Option<L>
        requires
            !old(self)@.contains_key(name@) ==> create.requires((name, outbound)),
        ensures
            exists|made: Option<Arc<L>>|
                {
                    &&& !old(self)@.contains_key(name@) ==> create.ensures(
                        (name, outbound),
                        unshared(made),
                    )
                    &&& r == handle_after(old(self)@, name@, made)
                    &&& final(self)@ == loops_after(old(self)@, name@, made)
                },
            final(self).attempts() == attempts_after(old(self)@, old(self).attempts(), name@),
    {
        match self.loops.get(name) {
            Some(h) => {
                let r = share(h);
                proof {
                    assert(handle_after(self@, name@, None) == Some(r));
                }
                Some(r)
            },
            None => {
                let ghost before = self@;
                self.attempts = Ghost(self.attempts@.push(name@));
                let made = create(name, outbound);
                match made {
                    Some(l) => {
                        let h = Arc::new(l);
                        let kept = share(&h);
                        let key = name.to_string();
                        assert(key@ == name@);
                        self.loops.insert(key, kept);
                        proof {
                            assert(self@ == loops_after(before, name@, Some(h)));
                        }
                        Some(h)
                    },
                    None => {
                        proof {
                            assert(unshared(None::<Arc<L>>) == made);
                            assert(self@ == loops_after(before, name@, None));
                        }
                        None
                    },
                }
            },
        }
    }
}

} // verus!
