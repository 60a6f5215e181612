use vstd::prelude::*;

verus! {

/// `s` as a `String`.
fn owned(s: &str) -> (r: String)
    ensures
        r@ == s@,
{
    s.to_owned()
}

/// The message for an adapter name that is not registered.
pub open spec fn not_found_message(name: Seq<char>) -> Seq<char> {
    "Adapter '"@ + name + "' not found"@
}

fn not_found(name: &str) -> (r: String)
    ensures
        r@ == not_found_message(name@),
{
    let mut msg = owned("Adapter '");
    vstd::string::StringExecFns::append(&mut msg, name);
    vstd::string::StringExecFns::append(&mut msg, "' not found");
    msg
}

proof fn lemma_map_ext<A>(m1: Map<Seq<char>, A>, m2: Map<Seq<char>, A>)
    requires
        m1.dom() == m2.dom(),
        forall|n: Seq<char>| m1.dom().contains(n) ==> #[trigger] m1[n] == m2[n],
    ensures
        m1 == m2,
{
    assert(m1 =~= m2);
}

/// Named adapters, at most `max_adapters` of them, one of which may be active.
pub struct LoRAManager<A> {
    names: Vec<String>,
    adapters: Vec<A>,
    active_adapter: Option<String>,
    max_adapters: usize,
}

impl<A> LoRAManager<A> {
    /// The registered names, in the order they were first added.
    pub closed spec fn names(&self) -> Seq<Seq<char>> {
        self.names@.map_values(|s: String| s@)
    }

    /// The adapter registered under each name.
    pub closed spec fn adapter_map(&self) -> Map<Seq<char>, A> {
        Map::new(
            |n: Seq<char>| self.names().contains(n),
            |n: Seq<char>| self.adapters@[self.names().index_of(n)],
        )
    }

    /// The name of the active adapter, if one was chosen.
    pub closed spec fn active(&self) -> Option<Seq<char>> {
        match self.active_adapter {
            Some(s) => Some(s@),
            None => None,
        }
    }

    /// The most adapters held.
    pub closed spec fn limit(&self) -> usize {
        self.max_adapters
    }

    /// Names are distinct and each has its adapter.
    pub closed spec fn wf(&self) -> bool {
        &&& self.names@.len() == self.adapters@.len()
        &&& self.names().no_duplicates()
    }

    /// A manager with no adapter.
    pub fn new(max_adapters: usize) -> (m: Self)
        ensures
            m.wf(),
            m.names().len() == 0,
            m.active() is None,
            m.limit() == max_adapters,
    {
        let m = LoRAManager { names: Vec::new(), adapters: Vec::new(), active_adapter: None, max_adapters };
        proof {
            assert(m.names() =~= Seq::<Seq<char>>::empty());
        }
        m
    }

    /// The position of `name` among the names.
    fn position(&self, name: &str) -> (r: Option<usize>)
        requires
            self.wf(),
        ensures
            match r {
                Some(i) => i < self.names().len() && self.names()[i as int] == name@ && self.names().index_of(
                    name@,
                ) == i,
                None => !self.names().contains(name@),
            },
    {
        let key = owned(name);
        let mut i: usize = 0;
        while i < self.names.len()
            invariant
                self.wf(),
                i <= self.names@.len(),
                key@ == name@,
                forall|k: int| 0 <= k < i ==> self.names()[k] != name@,
            decreases self.names@.len() - i,
        {
            if self.names[i] == key {
                proof {
                    assert(self.names()[i as int] == name@);
                    assert(self.names().contains(name@));
                    let j = self.names().index_of(name@);
                    assert(self.names()[j] == name@);
                    assert(self.names()[j] == self.names()[i as int]);
                }
                return Some(i);
            }
            i += 1;
        }
        proof {
            if self.names().contains(name@) {
                let k = choose|k: int| 0 <= k < self.names().len() && self.names()[k] == name@;
            }
        }
        None
    }

    /// Registers `adapter` under `name` (replacing one of that name); fails when the limit is
    /// reached, even for a replacement.
    pub fn add_adapter(&mut self, name: String, adapter: A) -> (r: Result<(), String>)
        requires
            old(self).wf(),
        ensures
            final(self).wf(),
            final(self).limit() == old(self).limit(),
            final(self).active() == old(self).active(),
            old(self).names().len() >= old(self).limit() ==> r is Err && final(self).names() == old(
                self,
            ).names() && final(self).adapter_map() == old(self).adapter_map(),
            old(self).names().len() < old(self).limit() ==> r is Ok && final(self).adapter_map() == old(
                self,
            ).adapter_map().insert(name@, adapter),
            r matches Err(e) ==> e@ == "Maximum number of adapters reached"@,
    {
        if self.names.len() >= self.max_adapters {
            return Err(owned("Maximum number of adapters reached"));
        }
        let ghost nv = name@;
        match self.position(name.as_str()) {
            Some(i) => {
                let ghost before = self.adapters@;
                self.adapters.set(i, adapter);
                proof {
                    assert forall|n: Seq<char>| #[trigger] self.names().contains(n) && n != nv implies self.adapters@[self.names().index_of(n)]
                        == before[self.names().index_of(n)] by {
                        let j = self.names().index_of(n);
                        assert(self.names()[j] == n);
                        assert(j != i);
                    }
                    assert(self.names() == old(self).names());
                    assert(self.names().index_of(nv) == i as int);
                    assert(self.adapters@[i as int] == adapter);
                    assert(before == old(self).adapters@);
                    assert(self.adapter_map().dom() =~= old(self).adapter_map().insert(nv, adapter).dom());
                    assert forall|n: Seq<char>| self.adapter_map().dom().contains(n) implies #[trigger] self.adapter_map()[n]
                        == old(self).adapter_map().insert(nv, adapter)[n] by {
                        if n != nv {
                            assert(self.names().contains(n));
                            assert(self.adapters@[self.names().index_of(n)] == before[self.names().index_of(n)]);
                        }
                    }
                    lemma_map_ext(self.adapter_map(), old(self).adapter_map().insert(nv, adapter));
                }
            },
            None => {
                let ghost n0 = self.names();
                self.names.push(name);
                self.adapters.push(adapter);
                proof {
                    assert(self.names() =~= n0.push(nv));
                    assert forall|n: Seq<char>| #[trigger] self.names().contains(n) && n != nv implies
                        self.names().index_of(n) == n0.index_of(n) by {
                        let j = self.names().index_of(n);
                        let j0 = n0.index_of(n);
                        assert(n0.contains(n)) by {
                            let k = choose|k: int| 0 <= k < self.names().len() && self.names()[k] == n;
                            assert(k < n0.len());
                            assert(n0[k] == n);
                        }
                        assert(self.names()[j0] == n);
                    }
                    assert(self.names().index_of(nv) == n0.len()) by {
                        assert(self.names()[n0.len() as int] == nv);
                        let j = self.names().index_of(nv);
                        if j < n0.len() {
                            assert(n0[j] == nv);
                        }
                    }
                    assert forall|n: Seq<char>| #[trigger] self.names().contains(n) <==> (n0.contains(n) || n == nv) by {
                        if self.names().contains(n) && n != nv {
                            let k = choose|k: int| 0 <= k < self.names().len() && self.names()[k] == n;
                            assert(k < n0.len());
                            assert(n0[k] == n);
                        }
                        if n0.contains(n) {
                            let k = choose|k: int| 0 <= k < n0.len() && n0[k] == n;
                            assert(self.names()[k] == n);
                        }
                        if n == nv {
                            assert(self.names()[n0.len() as int] == nv);
                        }
                    }
                    assert(old(self).names() == n0);
                    assert forall|n: Seq<char>| #[trigger] self.names().contains(n) <==> (n0.contains(n) || n == nv) by {
                        if self.names().contains(n) && n != nv {
                            let k = choose|k: int| 0 <= k < self.names().len() && self.names()[k] == n;
                            assert(k < n0.len());
                            assert(n0[k] == n);
                        }
                        if n0.contains(n) {
                            let k = choose|k: int| 0 <= k < n0.len() && n0[k] == n;
                            assert(self.names()[k] == n);
                        }
                        if n == nv {
                            assert(self.names()[n0.len() as int] == nv);
                        }
                    }
                    assert(old(self).names() == n0);
                    assert(self.adapter_map().dom() =~= old(self).adapter_map().insert(nv, adapter).dom());
                    assert forall|n: Seq<char>| self.adapter_map().dom().contains(n) implies #[trigger] self.adapter_map()[n]
                        == old(self).adapter_map().insert(nv, adapter)[n] by {
                        if n != nv {
                            assert(self.names().contains(n));
                            let j0 = n0.index_of(n);
                            assert(self.names().index_of(n) == j0);
                            assert(n0.contains(n)) by {
                                let k = choose|k: int| 0 <= k < self.names().len() && self.names()[k] == n;
                                assert(k < n0.len());
                                assert(n0[k] == n);
                            }
                            assert(0 <= j0 < n0.len());
                            assert(self.adapters@[j0] == old(self).adapters@[j0]);
                        } else {
                            assert(self.adapters@[n0.len() as int] == adapter);
                        }
                    }
                    lemma_map_ext(self.adapter_map(), old(self).adapter_map().insert(nv, adapter));
                }
            },
        }
        Ok(())
    }

    /// Makes `name` the active adapter; fails when no adapter has that name.
    pub fn set_active(&mut self, name: &str) -> (r: Result<(), String>)
        requires
            old(self).wf(),
        ensures
            final(self).wf(),
            final(self).names() == old(self).names(),
            final(self).adapter_map() == old(self).adapter_map(),
            final(self).limit() == old(self).limit(),
            old(self).names().contains(name@) ==> r is Ok && final(self).active() == Some(name@),
            !old(self).names().contains(name@) ==> final(self).active() == old(self).active() && (r matches Err(
                e,
            ) && e@ == not_found_message(name@)),
    {
        match self.position(name) {
            Some(_) => {
                self.active_adapter = Some(owned(name));
                Ok(())
            },
            None => Err(not_found(name)),
        }
    }

    /// The active adapter, if one is chosen and still registered.
    pub fn get_active_adapter(&self) -> (r: Option<&A>)
        requires
            self.wf(),
        ensures
            match self.active() {
                Some(n) => match r {
                    Some(a) => self.adapter_map().contains_key(n) && *a == self.adapter_map()[n],
                    None => !self.adapter_map().contains_key(n),
                },
                None => r is None,
            },
    {
        match &self.active_adapter {
            Some(n) => match self.position(n.as_str()) {
                Some(i) => Some(&self.adapters[i]),
                None => None,
            },
            None => None,
        }
    }

    /// Unregisters `name` (clearing the active choice if it was that one); fails when no
    /// adapter has that name.
    pub fn remove_adapter(&mut self, name: &str) -> (r: Result<(), String>)
        requires
            old(self).wf(),
        ensures
            final(self).wf(),
            final(self).limit() == old(self).limit(),
            old(self).names().contains(name@) ==> r is Ok && final(self).adapter_map() == old(
                self,
            ).adapter_map().remove(name@) && final(self).active() == (if old(self).active() == Some(
                name@,
            ) {
                None
            } else {
                old(self).active()
            }),
            !old(self).names().contains(name@) ==> (r matches Err(e) && e@ == not_found_message(name@))
                && final(self).adapter_map() == old(self).adapter_map() && final(self).active() == old(
                self,
            ).active(),
    {
        match self.position(name) {
            None => Err(not_found(name)),
            Some(i) => {
                let ghost n0 = self.names();
                let ghost a0 = self.adapters@;
                self.names.remove(i);
                self.adapters.remove(i);
                proof {
                    assert(self.names() =~= n0.remove(i as int));
                    assert forall|a: int, b: int| 0 <= a < b < self.names().len() implies self.names()[a]
                        != self.names()[b] by {
                        let a1 = if a < i { a } else { a + 1 };
                        let b1 = if b < i { b } else { b + 1 };
                        assert(self.names()[a] == n0[a1]);
                        assert(self.names()[b] == n0[b1]);
                    }
                    assert forall|n: Seq<char>| #[trigger] self.names().contains(n) <==> (n0.contains(n) && n
                        != name@) by {
                        if self.names().contains(n) {
                            let k = choose|k: int| 0 <= k < self.names().len() && self.names()[k] == n;
                            let k1 = if k < i { k } else { k + 1 };
                            assert(n0[k1] == n);
                            assert(k1 != i);
                        }
                        if n0.contains(n) && n != name@ {
                            let k = choose|k: int| 0 <= k < n0.len() && n0[k] == n;
                            assert(k != i);
                            if k < i {
                                assert(self.names()[k] == n);
                            } else {
                                assert(self.names()[k - 1] == n);
                            }
                        }
                    }
                    assert forall|n: Seq<char>| #[trigger] self.names().contains(n) implies self.adapters@[self.names().index_of(n)]
                        == a0[n0.index_of(n)] by {
                        let j = self.names().index_of(n);
                        let j1 = if j < i { j } else { j + 1 };
                        assert(self.names()[j] == n);
                        assert(n0[j1] == n);
                        assert(n0.index_of(n) == j1) by {
                            let j0 = n0.index_of(n);
                            assert(n0[j0] == n);
                        }
                    }
                    assert(self.adapter_map() =~= old(self).adapter_map().remove(name@));
                }
                let is_active = match &self.active_adapter {
                    Some(a) => *a == owned(name),
                    None => false,
                };
                if is_active {
                    self.active_adapter = None;
                }
                Ok(())
            },
        }
    }

    /// The registered names.
    pub fn list_adapters(&self) -> (r: Vec<String>)
        ensures
            r@.map_values(|s: String| s@) == self.names(),
    {
        let mut out: Vec<String> = Vec::new();
        let mut i: usize = 0;
        while i < self.names.len()
            invariant
                i <= self.names@.len(),
                out@.map_values(|s: String| s@) == self.names().take(i as int),
            decreases self.names@.len() - i,
        {
            let ghost before = out@;
            let c = self.names[i].clone();
            out.push(c);
            proof {
                assert(out@ == before.push(c));
                assert(c@ == self.names()[i as int]);
                assert(before.push(c).map_values(|s: String| s@) =~= before.map_values(|s: String| s@).push(c@));
                assert(self.names().take(i + 1) =~= self.names().take(i as int).push(self.names()[i as int]));
            }
            i += 1;
        }
        proof {
            assert(self.names().take(i as int) =~= self.names());
        }
        out
    }
}

} // verus!
