use vstd::prelude::*;

use crate::value::{Value, ValueModel};

verus! {

/// The map that a list of bindings stands for: a later binding of a name
/// replaces an earlier one.
pub open spec fn bindings_map(s: Seq<(Seq<char>, ValueModel)>) -> Map<Seq<char>, ValueModel>
    decreases s.len(),
{
    if s.len() == 0 {
        Map::empty()
    } else {
        bindings_map(s.drop_last()).insert(s.last().0, s.last().1)
    }
}

/// A name bound at index `i` and at no later index has the value bound there.
proof fn lemma_bindings_last(s: Seq<(Seq<char>, ValueModel)>, k: Seq<char>, i: int)
    requires
        0 <= i < s.len(),
        s[i].0 == k,
        forall|j: int| i < j < s.len() ==> (#[trigger] s[j]).0 != k,
    ensures
        bindings_map(s).contains_key(k),
        bindings_map(s)[k] == s[i].1,
    decreases s.len(),
{
    if i < s.len() - 1 {
        let t = s.drop_last();
        assert forall|j: int| i < j < t.len() implies (#[trigger] t[j]).0 != k by {
            assert(t[j] == s[j]);
        }
        lemma_bindings_last(t, k, i);
        assert(s[s.len() - 1].0 != k);
    }
}

/// A name bound nowhere is not in the map.
proof fn lemma_bindings_absent(s: Seq<(Seq<char>, ValueModel)>, k: Seq<char>)
    requires
        forall|j: int| 0 <= j < s.len() ==> (#[trigger] s[j]).0 != k,
    ensures
        !bindings_map(s).contains_key(k),
    decreases s.len(),
{
    if s.len() > 0 {
        let t = s.drop_last();
        assert forall|j: int| 0 <= j < t.len() implies (#[trigger] t[j]).0 != k by {
            assert(t[j] == s[j]);
        }
        lemma_bindings_absent(t, k);
        assert(s[s.len() - 1].0 != k);
    }
}

/// Rebinding a name at its last binding updates the map.
proof fn lemma_bindings_update(s: Seq<(Seq<char>, ValueModel)>, k: Seq<char>, v: ValueModel, i: int)
    requires
        0 <= i < s.len(),
        s[i].0 == k,
        forall|j: int| i < j < s.len() ==> (#[trigger] s[j]).0 != k,
    ensures
        bindings_map(s.update(i, (k, v))) == bindings_map(s).insert(k, v),
    decreases s.len(),
{
    let u = s.update(i, (k, v));
    assert(u.drop_last().len() == s.len() - 1);
    if i == s.len() - 1 {
        assert(u.drop_last() =~= s.drop_last());
        assert(bindings_map(u) =~= bindings_map(s).insert(k, v));
    } else {
        let t = s.drop_last();
        assert forall|j: int| i < j < t.len() implies (#[trigger] t[j]).0 != k by {
            assert(t[j] == s[j]);
        }
        lemma_bindings_update(t, k, v, i);
        assert(u.drop_last() =~= t.update(i, (k, v)));
        assert(s.last().0 != k);
        assert(bindings_map(u) =~= bindings_map(s).insert(k, v));
    }
}

/// One scope: a mapping from names to values.
pub struct Environment {
    variables: Vec<(String, Value)>,
}

impl Environment {
    /// The bindings in order, as models.
    pub closed spec fn entries(&self) -> Seq<(Seq<char>, ValueModel)> {
        self.variables@.map_values(|e: (String, Value)| (e.0@, e.1@))
    }
}

impl View for Environment {
    type V = Map<Seq<char>, ValueModel>;

    closed spec fn view(&self) -> Map<Seq<char>, ValueModel> {
        bindings_map(self.entries())
    }
}

impl Environment {
    /// An environment that binds nothing.
    pub fn new() -> (r: Self)
        ensures
            r@ == Map::<Seq<char>, ValueModel>::empty(),
    {
        let r = Environment { variables: Vec::new() };
        assert(r.entries() =~= Seq::<(Seq<char>, ValueModel)>::empty());
        r
    }

    /// The index of the last binding of `key`, if any.
    fn find(&self, key: &String) -> (r: Option<usize>)
        ensures
            r matches Some(i) ==> i < self.entries().len() && self.entries()[i as int].0 == key@
                && forall|j: int| i < j < self.entries().len() ==> (#[trigger] self.entries()[j]).0 != key@,
            r is None ==> forall|j: int|
                0 <= j < self.entries().len() ==> (#[trigger] self.entries()[j]).0 != key@,
    {
        let mut i: usize = self.variables.len();
        while i > 0
            invariant
                i <= self.variables@.len(),
                self.entries().len() == self.variables@.len(),
                forall|j: int| i <= j < self.entries().len() ==> (#[trigger] self.entries()[j]).0 != key@,
            decreases i,
        {
            i = i - 1;
            if self.variables[i].0 == *key {
                return Some(i);
            }
        }
        None
    }

    /// Whether `name` is bound here.
    pub fn contains(&self, name: &str) -> (r: bool)
        ensures
            r == self@.contains_key(name@),
    {
        let key = name.to_owned();
        match self.find(&key) {
            Some(i) => {
                proof {
                    lemma_bindings_last(self.entries(), key@, i as int);
                }
                true
            },
            None => {
                proof {
                    lemma_bindings_absent(self.entries(), key@);
                }
                false
            },
        }
    }

    /// Binds `name` to `value`, replacing any earlier binding of it.
    pub fn set(&mut self, name: &str, value: Value)
        ensures
            final(self)@ == old(self)@.insert(name@, value@),
    {
        let key = name.to_owned();
        let ghost old_entries = self.entries();
        let ghost vm = value@;
        match self.find(&key) {
            Some(i) => {
                proof {
                    lemma_bindings_update(old_entries, key@, vm, i as int);
                }
                self.variables.set(i, (key, value));
                assert(self.entries() =~= old_entries.update(i as int, (name@, vm)));
            },
            None => {
                self.variables.push((key, value));
                assert(self.entries().drop_last() =~= old_entries);
            },
        }
    }

    /// A copy of the value bound to `name`, if any.
    pub fn get(&self, name: &str) -> (r: Option<Value>)
        ensures
            r is Some <==> self@.contains_key(name@),
            r matches Some(v) ==> v@ == self@[name@],
    {
        let key = name.to_owned();
        match self.find(&key) {
            Some(i) => {
                proof {
                    lemma_bindings_last(self.entries(), key@, i as int);
                }
                Some(self.variables[i].1.clone())
            },
            None => {
                proof {
                    lemma_bindings_absent(self.entries(), key@);
                }
                None
            },
        }
    }
}

/// The model of the scope stack: the global scope and the call-local scopes, oldest first.
pub struct Scopes {
    pub global: Map<Seq<char>, ValueModel>,
    pub frames: Seq<Map<Seq<char>, ValueModel>>,
}

/// Looks `k` up in call-local scopes from the most recent to the oldest.
pub open spec fn frames_lookup(frames: Seq<Map<Seq<char>, ValueModel>>, k: Seq<char>) -> Option<ValueModel>
    decreases frames.len(),
{
    if frames.len() == 0 {
        None
    } else if frames.last().contains_key(k) {
        Some(frames.last()[k])
    } else {
        frames_lookup(frames.drop_last(), k)
    }
}

impl Scopes {
    /// No bindings and no call-local scope.
    pub open spec fn empty() -> Scopes {
        Scopes { global: Map::empty(), frames: Seq::empty() }
    }

    /// The value of `k`: the most recent call-local binding, else the global one.
    pub open spec fn lookup(self, k: Seq<char>) -> Option<ValueModel> {
        match frames_lookup(self.frames, k) {
            Some(v) => Some(v),
            None => if self.global.contains_key(k) {
                Some(self.global[k])
            } else {
                None
            },
        }
    }

    /// Binds `k` in the most recent call-local scope, or globally when there is none.
    pub open spec fn assign(self, k: Seq<char>, v: ValueModel) -> Scopes {
        if self.frames.len() > 0 {
            Scopes {
                global: self.global,
                frames: self.frames.update(self.frames.len() - 1, self.frames.last().insert(k, v)),
            }
        } else {
            Scopes { global: self.global.insert(k, v), frames: self.frames }
        }
    }

    /// Enters a call-local scope with the given bindings.
    pub open spec fn push(self, m: Map<Seq<char>, ValueModel>) -> Scopes {
        Scopes { global: self.global, frames: self.frames.push(m) }
    }

    /// Leaves the most recent call-local scope; the global scope is never left.
    pub open spec fn pop(self) -> Scopes {
        if self.frames.len() > 0 {
            Scopes { global: self.global, frames: self.frames.drop_last() }
        } else {
            self
        }
    }
}

/// The global environment and a stack of call-local environments.
pub struct EnvironmentStack {
    global_environment: Environment,
    environments: Vec<Environment>,
}

/// The views of a sequence of environments.
pub open spec fn environments_view(s: Seq<Environment>) -> Seq<Map<Seq<char>, ValueModel>> {
    s.map_values(|e: Environment| e@)
}

impl View for EnvironmentStack {
    type V = Scopes;

    closed spec fn view(&self) -> Scopes {
        Scopes { global: self.global_environment@, frames: environments_view(self.environments@) }
    }
}

impl EnvironmentStack {
    /// An empty global environment and no call-local one.
    pub fn new() -> (r: Self)
        ensures
            r@ == Scopes::empty(),
    {
        let r = EnvironmentStack { global_environment: Environment::new(), environments: Vec::new() };
        assert(r@.frames =~= Seq::<Map<Seq<char>, ValueModel>>::empty());
        r
    }

    /// Binds `name` in the most recent call-local environment, or globally when there is none.
    pub fn set(&mut self, name: &str, value: Value)
        ensures
            final(self)@ == old(self)@.assign(name@, value@),
    {
        let ghost before = self@;
        match self.environments.pop() {
            Some(mut top) => {
                top.set(name, value);
                self.environments.push(top);
                assert(self@.frames =~= before.frames.update(before.frames.len() - 1, before.frames.last().insert(name@, value@)));
            },
            None => {
                self.global_environment.set(name, value);
            },
        }
    }

    /// A copy of the value of `name`: the most recent call-local binding, else the global one.
    pub fn get(&self, name: &str) -> (r: Option<Value>)
        ensures
            r is Some <==> self@.lookup(name@) is Some,
            r matches Some(v) ==> self@.lookup(name@) == Some(v@),
    {
        let ghost frames = self@.frames;
        let mut i: usize = self.environments.len();
        assert(frames.take(i as int) =~= frames);
        while i > 0
            invariant
                i <= self.environments@.len(),
                frames == self@.frames,
                frames.len() == self.environments@.len(),
                frames_lookup(frames, name@) == frames_lookup(frames.take(i as int), name@),
            decreases i,
        {
            let ghost prefix = frames.take(i as int);
            assert(prefix.drop_last() =~= frames.take(i - 1));
            assert(prefix.last() == self.environments@[i - 1]@);
            if self.environments[i - 1].contains(name) {
                return self.environments[i - 1].get(name);
            }
            i = i - 1;
        }
        assert(frames.take(0) =~= Seq::<Map<Seq<char>, ValueModel>>::empty());
        self.global_environment.get(name)
    }

    /// Enters a call-local environment.
    pub fn push_environment(&mut self, variables: Environment)
        ensures
            final(self)@ == old(self)@.push(variables@),
    {
        self.environments.push(variables);
        assert(final(self)@.frames =~= old(self)@.frames.push(variables@));
    }

    /// Leaves the most recent call-local environment; with none, nothing changes.
    pub fn pop_environment(&mut self)
        ensures
            final(self)@ == old(self)@.pop(),
    {
        let ghost before = self@;
        let _ = self.environments.pop();
        assert(self@.frames =~= before.pop().frames);
    }
}

} // verus!
