use vstd::prelude::*;

verus! {

/// The per-chain value store that transformed code keeps its saved state in:
/// erased values, appended by pushes, read by index, and drained by one pop.
pub struct ChiikaEnv {
    stack: Vec<i64>,
}

impl View for ChiikaEnv {
    type V = Seq<i64>;

    closed spec fn view(&self) -> Seq<i64> {
        self.stack@
    }
}

/// The store after popping `count` entries: the ones pushed before them.
pub open spec fn popped(s: Seq<i64>, count: nat) -> Seq<i64> {
    s.subrange(0, s.len() - count)
}

/// The value that popping `count` entries returns: the deepest of them.
pub open spec fn pop_value(s: Seq<i64>, count: nat) -> i64 {
    s[s.len() - count]
}

impl ChiikaEnv {
    /// A store with nothing in it.
    pub fn new() -> (r: ChiikaEnv)
        ensures
            r@ == Seq::<i64>::empty(),
    {
        ChiikaEnv { stack: Vec::new() }
    }

    /// Appends `item` on top of the store.
    pub fn push(&mut self, item: i64)
        ensures
            final(self)@ == old(self)@.push(item),
    {
        self.stack.push(item);
    }

    /// Removes the top `count` entries and returns the deepest of them, so
    /// that the store is as it was before the pushes that are undone.
    pub fn pop(&mut self, count: usize) -> (r: i64)
        requires
            1 <= count <= old(self)@.len(),
        ensures
            r == pop_value(old(self)@, count as nat),
            final(self)@ == popped(old(self)@, count as nat),
    {
        let at = self.stack.len() - count;
        let r = self.stack[at];
        self.stack.truncate(at);
        r
    }

    /// The entry at push-index `index`; the store is left as it is.
    pub fn get(&self, index: usize) -> (r: i64)
        requires
            index < self@.len(),
        ensures
            r == self@[index as int],
    {
        self.stack[index]
    }

    /// The number of entries.
    pub fn len(&self) -> (r: usize)
        ensures
            r == self@.len(),
    {
        self.stack.len()
    }
}

/// The stores of all chains, each reached through the id that created it.
pub struct EnvRegistry {
    envs: Vec<ChiikaEnv>,
}

impl View for EnvRegistry {
    type V = Seq<Seq<i64>>;

    closed spec fn view(&self) -> Seq<Seq<i64>> {
        self.envs@.map_values(|e: ChiikaEnv| e@)
    }
}

impl EnvRegistry {
    pub fn new() -> (r: EnvRegistry)
        ensures
            r@ == Seq::<Seq<i64>>::empty(),
    {
        let r = EnvRegistry { envs: Vec::new() };
        assert(r@ =~= Seq::<Seq<i64>>::empty());
        r
    }

    /// Starts a chain with an empty store; its id.
    pub fn create(&mut self) -> (id: usize)
        ensures
            id == old(self)@.len(),
            final(self)@ == old(self)@.push(Seq::<i64>::empty()),
    {
        let id = self.envs.len();
        self.envs.push(ChiikaEnv::new());
        assert(self@ =~= old(self)@.push(Seq::<i64>::empty()));
        id
    }

    /// Pushes `item` onto the store of chain `id`.
    pub fn push(&mut self, id: usize, item: i64)
        requires
            id < old(self)@.len(),
        ensures
            final(self)@ == old(self)@.update(id as int, old(self)@[id as int].push(item)),
    {
        let mut e = self.envs.remove(id);
        e.push(item);
        self.envs.insert(id, e);
        assert(self@ =~= old(self)@.update(id as int, old(self)@[id as int].push(item)));
    }

    /// Pops `count` entries of the store of chain `id`.
    pub fn pop(&mut self, id: usize, count: usize) -> (r: i64)
        requires
            id < old(self)@.len(),
            1 <= count <= old(self)@[id as int].len(),
        ensures
            r == pop_value(old(self)@[id as int], count as nat),
            final(self)@ == old(self)@.update(id as int, popped(old(self)@[id as int], count as nat)),
    {
        let mut e = self.envs.remove(id);
        let r = e.pop(count);
        self.envs.insert(id, e);
        assert(self@ =~= old(self)@.update(id as int, popped(old(self)@[id as int], count as nat)));
        r
    }

    /// Reads entry `index` of the store of chain `id`.
    pub fn get(&self, id: usize, index: usize) -> (r: i64)
        requires
            id < self@.len(),
            index < self@[id as int].len(),
        ensures
            r == self@[id as int][index as int],
    {
        self.envs[id].get(index)
    }
}

/// After a chain's first chapter has pushed `saved` (the continuation, then
/// the parameters) on top of `s`, reading index `s.len() + k` gives the k-th
/// saved value, and popping `saved.len()` entries returns the continuation
/// and leaves the store exactly as it was.
pub proof fn law_pop_drains_pushes(s: Seq<i64>, saved: Seq<i64>)
    requires
        saved.len() >= 1,
    ensures
        pop_value(s + saved, saved.len()) == saved[0],
        popped(s + saved, saved.len()) == s,
        forall|k: int| 0 <= k < saved.len() ==> #[trigger] (s + saved)[s.len() + k] == saved[k],
{
    assert(popped(s + saved, saved.len()) =~= s);
}

} // verus!
