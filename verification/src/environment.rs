//! Variable scoping for KelpyShark.
//!
//! An environment is a stack of scopes; the last scope is the innermost one.
//! Each scope maps variable names to values. Its abstract view is a sequence
//! of maps, innermost last.

use vstd::prelude::*;

verus! {

/// The map that a list of bindings denotes: a later binding of a name hides
/// an earlier one.
pub open spec fn scope_map<V: View>(entries: Seq<(String, V)>) -> Map<Seq<char>, V::V>
    decreases entries.len(),
{
    if entries.len() == 0 {
        Map::empty()
    } else {
        scope_map(entries.drop_last()).insert(entries.last().0@, entries.last().1@)
    }
}

/// Index of the innermost scope that binds `name`, or -1 when none does.
pub open spec fn holder<W>(scopes: Seq<Map<Seq<char>, W>>, name: Seq<char>) -> int
    decreases scopes.len(),
{
    if scopes.len() == 0 {
        -1
    } else if scopes.last().contains_key(name) {
        scopes.len() - 1
    } else {
        holder(scopes.drop_last(), name)
    }
}

/// What reading `name` gives: the binding of the innermost scope that has one.
pub open spec fn lookup<W>(scopes: Seq<Map<Seq<char>, W>>, name: Seq<char>) -> Option<W> {
    let h = holder(scopes, name);
    if h >= 0 {
        Some(scopes[h][name])
    } else {
        None
    }
}

/// Binding `name` in the innermost scope (no effect when there is no scope).
pub open spec fn bind<W>(scopes: Seq<Map<Seq<char>, W>>, name: Seq<char>, value: W) -> Seq<
    Map<Seq<char>, W>,
> {
    if scopes.len() == 0 {
        scopes
    } else {
        scopes.update(scopes.len() - 1, scopes.last().insert(name, value))
    }
}

/// Assigning `name`: the innermost scope that binds it is changed, and when
/// no scope binds it the innermost scope gets the binding.
pub open spec fn assign<W>(scopes: Seq<Map<Seq<char>, W>>, name: Seq<char>, value: W) -> Seq<
    Map<Seq<char>, W>,
> {
    let h = holder(scopes, name);
    if h >= 0 {
        scopes.update(h, scopes[h].insert(name, value))
    } else {
        bind(scopes, name, value)
    }
}

/// Entering a scope.
pub open spec fn enter<W>(scopes: Seq<Map<Seq<char>, W>>) -> Seq<Map<Seq<char>, W>> {
    scopes.push(Map::empty())
}

/// Leaving a scope: the outermost scope is never removed.
pub open spec fn leave<W>(scopes: Seq<Map<Seq<char>, W>>) -> Seq<Map<Seq<char>, W>> {
    if scopes.len() > 1 {
        scopes.drop_last()
    } else {
        scopes
    }
}

/// A chain of scopes, innermost last.
pub struct Environment<V> {
    scopes: Vec<Vec<(String, V)>>,
}

impl<V: View> View for Environment<V> {
    type V = Seq<Map<Seq<char>, V::V>>;

    closed spec fn view(&self) -> Seq<Map<Seq<char>, V::V>> {
        self.scopes@.map_values(|s: Vec<(String, V)>| scope_map(s@))
    }
}

/// The scopes of a caller that a called function does not see, set aside
/// while it runs, with the number of scopes it does see.
pub struct CallerScopes<V> {
    scopes: Vec<Vec<(String, V)>>,
    kept: usize,
}

impl<V: View> View for CallerScopes<V> {
    type V = Seq<Map<Seq<char>, V::V>>;

    closed spec fn view(&self) -> Seq<Map<Seq<char>, V::V>> {
        self.scopes@.map_values(|s: Vec<(String, V)>| scope_map(s@))
    }
}

impl<V> CallerScopes<V> {
    /// How many of the caller's scopes the call sees.
    pub closed spec fn kept(&self) -> nat {
        self.kept as nat
    }
}

/// How many of `len` scopes a function defined when there were `depth`
/// scopes sees: the scopes that enclosed its definition, and at least the
/// global one.
pub open spec fn visible_depth(depth: usize, len: nat) -> nat {
    if depth < 1 {
        1
    } else if depth > len {
        len
    } else {
        depth as nat
    }
}

/// The scopes a called function starts on: the scopes that enclosed its
/// definition (of a function defined when there were `depth` scopes), then a
/// new one for its parameters.
pub open spec fn call_scopes<W>(scopes: Seq<Map<Seq<char>, W>>, depth: usize) -> Seq<
    Map<Seq<char>, W>,
> {
    scopes.take(visible_depth(depth, scopes.len()) as int).push(Map::empty())
}

/// The caller's scopes after a call: the scopes the call saw, as the call
/// left them, then the caller's scopes that the call did not see.
pub open spec fn return_scopes<W>(
    caller: Seq<Map<Seq<char>, W>>,
    callee: Seq<Map<Seq<char>, W>>,
    depth: usize,
) -> Seq<Map<Seq<char>, W>> {
    let v = visible_depth(depth, caller.len());
    callee.take(if v <= callee.len() { v as int } else { callee.len() as int }) + caller.skip(
        v as int,
    )
}

/// Index of the last binding of `name` in `entries`, or -1.
pub open spec fn last_binding<V>(entries: Seq<(String, V)>, name: Seq<char>) -> int
    decreases entries.len(),
{
    if entries.len() == 0 {
        -1
    } else if entries.last().0@ == name {
        entries.len() - 1
    } else {
        last_binding(entries.drop_last(), name)
    }
}

proof fn lemma_last_binding<V: View>(entries: Seq<(String, V)>, name: Seq<char>)
    ensures
        -1 <= last_binding(entries, name) < entries.len(),
        last_binding(entries, name) == -1 <==> !scope_map(entries).contains_key(name),
        last_binding(entries, name) >= 0 ==> {
            let i = last_binding(entries, name);
            &&& entries[i].0@ == name
            &&& scope_map(entries)[name] == entries[i].1@
            &&& forall|j: int| i < j < entries.len() ==> entries[j].0@ != name
        },
    decreases entries.len(),
{
    if entries.len() > 0 {
        lemma_last_binding(entries.drop_last(), name);
        let i = last_binding(entries, name);
        if i >= 0 && i < entries.len() - 1 {
            assert forall|j: int| i < j < entries.len() implies entries[j].0@ != name by {
                if j < entries.len() - 1 {
                    assert(entries.drop_last()[j] == entries[j]);
                }
            }
            assert(entries.drop_last()[i] == entries[i]);
        }
    }
}

proof fn lemma_replace_binding<V: View>(entries: Seq<(String, V)>, name: String, value: V)
    requires
        last_binding(entries, name@) >= 0,
    ensures
        scope_map(entries.update(last_binding(entries, name@), (name, value))) == scope_map(
            entries,
        ).insert(name@, value@),
    decreases entries.len(),
{
    lemma_last_binding(entries, name@);
    let i = last_binding(entries, name@);
    let upd = entries.update(i, (name, value));
    if i == entries.len() - 1 {
        assert(upd.drop_last() =~= entries.drop_last());
        assert(scope_map(upd) =~= scope_map(entries).insert(name@, value@));
    } else {
        lemma_replace_binding(entries.drop_last(), name, value);
        assert(upd.drop_last() =~= entries.drop_last().update(i, (name, value)));
        assert(scope_map(upd) =~= scope_map(entries).insert(name@, value@));
    }
}

proof fn lemma_add_binding<V: View>(entries: Seq<(String, V)>, name: String, value: V)
    ensures
        scope_map(entries.push((name, value))) == scope_map(entries).insert(name@, value@),
{
    assert(entries.push((name, value)).drop_last() =~= entries);
}

proof fn lemma_holder<W>(scopes: Seq<Map<Seq<char>, W>>, name: Seq<char>)
    ensures
        -1 <= holder(scopes, name) < scopes.len(),
        holder(scopes, name) >= 0 ==> scopes[holder(scopes, name)].contains_key(name),
        forall|j: int|
            holder(scopes, name) < j < scopes.len() ==> !(#[trigger] scopes[j]).contains_key(name),
    decreases scopes.len(),
{
    if scopes.len() > 0 {
        lemma_holder(scopes.drop_last(), name);
        assert forall|j: int| holder(scopes, name) < j < scopes.len() implies !(
        #[trigger] scopes[j]).contains_key(name) by {
            if j < scopes.len() - 1 {
                assert(scopes.drop_last()[j] == scopes[j]);
            }
        }
    }
}

/// Adds `value` under `name` to a list of bindings: the last binding of the
/// name is replaced, or a binding is appended when there is none.
fn bind_in_scope<V: View>(scope: &mut Vec<(String, V)>, name: &str, value: V)
    ensures
        scope_map(final(scope)@) == scope_map(old(scope)@).insert(name@, value@),
{
    let key = name.to_owned();
    let n = scope.len();
    let mut i: usize = n;
    while i > 0
        invariant
            i <= n == scope.len(),
            key@ == name@,
            *scope == *old(scope),
            forall|j: int| i <= j < n ==> scope@[j].0@ != name@,
        decreases i,
    {
        if scope[i - 1].0 == key {
            proof {
                lemma_last_binding(scope@, name@);
                assert(last_binding(scope@, name@) == i - 1) by {
                    lemma_last_binding_is(scope@, name@, i - 1);
                }
            }
            proof {
                lemma_replace_binding(scope@, key, value);
            }
            scope.set(i - 1, (key, value));
            return ;
        }
        i = i - 1;
    }
    proof {
        lemma_add_binding(scope@, key, value);
    }
    scope.push((key, value));
}

proof fn lemma_last_binding_is<V>(entries: Seq<(String, V)>, name: Seq<char>, i: int)
    requires
        0 <= i < entries.len(),
        entries[i].0@ == name,
        forall|j: int| i < j < entries.len() ==> entries[j].0@ != name,
    ensures
        last_binding(entries, name) == i,
    decreases entries.len(),
{
    if i < entries.len() - 1 {
        lemma_last_binding_is(entries.drop_last(), name, i);
    }
}

/// Finds the last binding of `name` in a list of bindings.
fn find_in_scope<'a, V: View>(scope: &'a Vec<(String, V)>, name: &str) -> (r: Option<&'a V>)
    ensures
        match r {
            Some(v) => scope_map(scope@).contains_key(name@) && scope_map(scope@)[name@] == v@,
            None => !scope_map(scope@).contains_key(name@),
        },
{
    let key = name.to_owned();
    let n = scope.len();
    let mut i: usize = n;
    while i > 0
        invariant
            i <= n == scope.len(),
            key@ == name@,
            forall|j: int| i <= j < n ==> scope@[j].0@ != name@,
        decreases i,
    {
        if scope[i - 1].0 == key {
            proof {
                lemma_last_binding(scope@, name@);
                lemma_last_binding_is(scope@, name@, i - 1);
            }
            return Some(&scope[i - 1].1);
        }
        i = i - 1;
    }
    proof {
        lemma_last_binding(scope@, name@);
        if last_binding(scope@, name@) >= 0 {
            assert(scope@[last_binding(scope@, name@)].0@ == name@);
        }
    }
    None
}

impl<V> Environment<V> {
    /// There is always a global scope.
    #[verifier::type_invariant]
    pub closed spec fn well_formed(self) -> bool {
        self.scopes.len() >= 1
    }
}

impl<V: View> Environment<V> {
    /// A well-formed environment has a scope.
    pub proof fn lemma_well_formed(&self)
        requires
            self.well_formed(),
        ensures
            self@.len() >= 1,
    {
    }

    /// Creates an environment with one (global) scope.
    pub fn new() -> (env: Self)
        ensures
            env@ == seq![Map::<Seq<char>, V::V>::empty()],
    {
        let mut scopes: Vec<Vec<(String, V)>> = Vec::new();
        scopes.push(Vec::new());
        let env = Environment { scopes };
        assert(env@ =~= seq![Map::<Seq<char>, V::V>::empty()]) by {
            assert(scope_map(env.scopes@[0]@) =~= Map::<Seq<char>, V::V>::empty());
        }
        env
    }

    /// Number of scopes.
    pub fn depth(&self) -> (n: usize)
        ensures
            n == self@.len(),
            n >= 1,
    {
        proof {
            use_type_invariant(self);
        }
        self.scopes.len()
    }

    /// Takes the scopes out, leaving a single empty scope in their place.
    fn take_scopes(&mut self) -> (r: Vec<Vec<(String, V)>>)
        ensures
            r@ == old(self).scopes@,
            r@.len() >= 1,
    {
        proof {
            use_type_invariant(&*self);
        }
        let mut scopes: Vec<Vec<(String, V)>> = Vec::new();
        scopes.push(Vec::new());
        std::mem::swap(&mut scopes, &mut self.scopes);
        scopes
    }

    /// Enters a call of a function defined when there were `depth` scopes:
    /// the scopes it does not see are set aside, and a new scope is entered.
    pub fn enter_call(&mut self, depth: usize) -> (saved: CallerScopes<V>)
        ensures
            final(self)@ == call_scopes(old(self)@, depth),
            saved@ == old(self)@.skip(visible_depth(depth, old(self)@.len()) as int),
            saved.kept() == visible_depth(depth, old(self)@.len()),
            saved.kept() >= 1,
    {
        let mut scopes = self.take_scopes();
        let kept = if depth < 1 {
            1
        } else if depth > scopes.len() {
            scopes.len()
        } else {
            depth
        };
        let rest = scopes.split_off(kept);
        scopes.push(Vec::new());
        self.scopes = scopes;
        let saved = CallerScopes { scopes: rest, kept };
        assert(saved@ =~= old(self)@.skip(kept as int));
        assert(self@ =~= call_scopes(old(self)@, depth)) by {
            assert(scope_map(Seq::<(String, V)>::empty()) =~= Map::<Seq<char>, V::V>::empty());
            assert(scope_map(self.scopes@.last()@) =~= Map::<Seq<char>, V::V>::empty());
        }
        saved
    }

    /// Ends a call: the scopes the call entered are left, the scopes it saw
    /// stay as it left them, and the caller's other scopes come back.
    pub fn leave_call(&mut self, saved: CallerScopes<V>)
        requires
            saved.kept() >= 1,
        ensures
            final(self)@ == old(self)@.take(
                if saved.kept() <= old(self)@.len() {
                    saved.kept() as int
                } else {
                    old(self)@.len() as int
                },
            ) + saved@,
    {
        let mut scopes = self.take_scopes();
        let CallerScopes { scopes: mut rest, kept } = saved;
        let k = if kept <= scopes.len() {
            kept
        } else {
            scopes.len()
        };
        let ghost tail = rest@;
        scopes.truncate(k);
        let ghost head = scopes@;
        assert(head =~= old(self).scopes@.subrange(0, k as int));
        scopes.append(&mut rest);
        assert(scopes@ =~= head + tail);
        self.scopes = scopes;
        assert(self@ =~= old(self)@.take(k as int) + saved@);
    }

    /// Enters a new, empty innermost scope.
    pub fn push_scope(&mut self)
        ensures
            final(self)@ == enter(old(self)@),
    {
        let mut scopes = self.take_scopes();
        let empty: Vec<(String, V)> = Vec::new();
        scopes.push(empty);
        self.scopes = scopes;
        assert(self@ =~= enter(old(self)@)) by {
            assert(scope_map(Seq::<(String, V)>::empty()) =~= Map::<Seq<char>, V::V>::empty());
            assert(scope_map(self.scopes@.last()@) =~= Map::<Seq<char>, V::V>::empty());
        }
    }

    /// Leaves the innermost scope; the global scope is never left.
    pub fn pop_scope(&mut self)
        ensures
            final(self)@ == leave(old(self)@),
    {
        let mut scopes = self.take_scopes();
        if scopes.len() > 1 {
            scopes.pop();
        }
        self.scopes = scopes;
        assert(self@ =~= leave(old(self)@));
    }

    /// Binds `name` to `value` in the innermost scope.
    pub fn set(&mut self, name: &str, value: V)
        ensures
            final(self)@ == bind(old(self)@, name@, value@),
    {
        proof {
            use_type_invariant(&*self);
        }
        let n = self.scopes.len();
        self.set_at(n - 1, name, value);
        assert(self@ =~= bind(old(self)@, name@, value@));
    }

    fn set_at(&mut self, k: usize, name: &str, value: V)
        requires
            k < old(self)@.len(),
        ensures
            final(self)@ == old(self)@.update(k as int, old(self)@[k as int].insert(name@, value@)),
    {
        let mut scopes = self.take_scopes();
        let mut scope: Vec<(String, V)> = Vec::new();
        scopes.set_and_swap(k, &mut scope);
        bind_in_scope(&mut scope, name, value);
        scopes.set(k, scope);
        self.scopes = scopes;
        assert(self@ =~= old(self)@.update(k as int, old(self)@[k as int].insert(name@, value@)));
    }

    /// Assigns `name`: the binding in the innermost scope that has one is
    /// changed; when no scope binds `name`, it is bound in the innermost scope.
    pub fn update(&mut self, name: &str, value: V)
        ensures
            final(self)@ == assign(old(self)@, name@, value@),
    {
        let n = self.scopes.len();
        let mut i: usize = n;
        while i > 0
            invariant
                i <= n == self.scopes.len(),
                *self == *old(self),
                forall|j: int| i <= j < n ==> !(#[trigger] self@[j]).contains_key(name@),
            decreases i,
        {
            let found = find_in_scope(&self.scopes[i - 1], name);
            if found.is_some() {
                proof {
                    lemma_holder_is(self@, name@, i - 1);
                }
                self.set_at(i - 1, name, value);
                return ;
            }
            i = i - 1;
        }
        proof {
            lemma_holder(self@, name@);
        }
        self.set(name, value);
    }

    /// Reads `name`, searching from the innermost scope outwards.
    pub fn get(&self, name: &str) -> (r: Option<&V>)
        ensures
            match r {
                Some(v) => lookup(self@, name@) == Some(v@),
                None => lookup(self@, name@) is None,
            },
    {
        let n = self.scopes.len();
        let mut i: usize = n;
        while i > 0
            invariant
                i <= n == self.scopes.len(),
                forall|j: int| i <= j < n ==> !(#[trigger] self@[j]).contains_key(name@),
            decreases i,
        {
            let found = find_in_scope(&self.scopes[i - 1], name);
            if found.is_some() {
                proof {
                    lemma_holder_is(self@, name@, i - 1);
                }
                return found;
            }
            i = i - 1;
        }
        proof {
            lemma_holder(self@, name@);
        }
        None
    }
}

impl<V: View> Default for Environment<V> {
    fn default() -> (env: Self)
        ensures
            env@ == seq![Map::<Seq<char>, V::V>::empty()],
    {
        Environment::new()
    }
}

proof fn lemma_holder_is<W>(scopes: Seq<Map<Seq<char>, W>>, name: Seq<char>, i: int)
    requires
        0 <= i < scopes.len(),
        scopes[i].contains_key(name),
        forall|j: int| i < j < scopes.len() ==> !(#[trigger] scopes[j]).contains_key(name),
    ensures
        holder(scopes, name) == i,
    decreases scopes.len(),
{
    if i < scopes.len() - 1 {
        assert(!scopes[scopes.len() - 1].contains_key(name));
        lemma_holder_is(scopes.drop_last(), name, i);
    }
}

} // verus!
