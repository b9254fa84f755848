use vstd::prelude::*;
use crate::ast::{Literal, Val};
use crate::error::RuntimeError;
use crate::text::{chars_to_string, lit_chars, push_all, string_to_chars};

verus! {

/// The value of `name` in the innermost scope that binds it; scopes run from the
/// outermost (global) to the innermost (current).
pub open spec fn lookup(scopes: Seq<Map<Seq<char>, Val>>, name: Seq<char>) -> Option<Val>
    decreases scopes.len(),
{
    if scopes.len() == 0 {
        None
    } else if scopes.last().contains_key(name) {
        Some(scopes.last()[name])
    } else {
        lookup(scopes.drop_last(), name)
    }
}

/// The scopes after `name` is set to `v` in the innermost scope that binds it;
/// `None` when no scope does.
pub open spec fn assign_in(scopes: Seq<Map<Seq<char>, Val>>, name: Seq<char>, v: Val) -> Option<
    Seq<Map<Seq<char>, Val>>,
>
    decreases scopes.len(),
{
    if scopes.len() == 0 {
        None
    } else if scopes.last().contains_key(name) {
        Some(scopes.update(scopes.len() - 1, scopes.last().insert(name, v)))
    } else {
        match assign_in(scopes.drop_last(), name, v) {
            Some(s) => Some(s.push(scopes.last())),
            None => None,
        }
    }
}

/// The scopes after `name` is bound to `v` in the innermost scope.
pub open spec fn define_in(scopes: Seq<Map<Seq<char>, Val>>, name: Seq<char>, v: Val) -> Seq<
    Map<Seq<char>, Val>,
> {
    scopes.update(scopes.len() - 1, scopes.last().insert(name, v))
}

/// The message of a failed lookup or assignment.
pub open spec fn undefined_message(name: Seq<char>) -> Seq<char> {
    "Undefined variable "@ + name
}

struct Binding {
    name: String,
    value: Literal,
}

spec fn scope_map(s: Seq<Binding>) -> Map<Seq<char>, Val>
    decreases s.len(),
{
    if s.len() == 0 {
        Map::empty()
    } else {
        scope_map(s.drop_last()).insert(s.last().name@, s.last().value@)
    }
}

spec fn unique_names(s: Seq<Binding>) -> bool {
    forall|i: int, j: int| 0 <= i < j < s.len() ==> s[i].name@ != s[j].name@
}

proof fn lemma_scope_find(s: Seq<Binding>, i: int)
    requires
        unique_names(s),
        0 <= i < s.len(),
    ensures
        scope_map(s).contains_key(s[i].name@),
        scope_map(s)[s[i].name@] == s[i].value@,
    decreases s.len(),
{
    if i < s.len() - 1 {
        lemma_scope_find(s.drop_last(), i);
    }
}

proof fn lemma_scope_absent(s: Seq<Binding>, k: Seq<char>)
    requires
        forall|i: int| 0 <= i < s.len() ==> s[i].name@ != k,
    ensures
        !scope_map(s).contains_key(k),
    decreases s.len(),
{
    if s.len() > 0 {
        lemma_scope_absent(s.drop_last(), k);
    }
}

proof fn lemma_scope_set(s: Seq<Binding>, i: int, b: Binding)
    requires
        unique_names(s),
        0 <= i < s.len(),
        b.name@ == s[i].name@,
    ensures
        scope_map(s.update(i, b)) == scope_map(s).insert(b.name@, b.value@),
        unique_names(s.update(i, b)),
    decreases s.len(),
{
    let t = s.update(i, b);
    if i == s.len() - 1 {
        assert(t.drop_last() =~= s.drop_last());
        lemma_scope_absent(s.drop_last(), b.name@);
    } else {
        assert(t.drop_last() =~= s.drop_last().update(i, b));
        lemma_scope_set(s.drop_last(), i, b);
    }
    assert(scope_map(t) =~= scope_map(s).insert(b.name@, b.value@));
}

proof fn lemma_assign_len(s: Seq<Map<Seq<char>, Val>>, name: Seq<char>, v: Val)
    ensures
        assign_in(s, name, v) matches Some(t) ==> t.len() == s.len(),
    decreases s.len(),
{
    if s.len() > 0 {
        lemma_assign_len(s.drop_last(), name, v);
    }
}

proof fn lemma_lookup_suffix(s: Seq<Map<Seq<char>, Val>>, i: int, name: Seq<char>)
    requires
        0 <= i <= s.len(),
        forall|j: int| i <= j < s.len() ==> !(#[trigger] s[j]).contains_key(name),
    ensures
        lookup(s, name) == lookup(s.subrange(0, i), name),
    decreases s.len(),
{
    if i < s.len() {
        lemma_lookup_suffix(s.drop_last(), i, name);
        assert(s.drop_last().subrange(0, i) =~= s.subrange(0, i));
    } else {
        assert(s.subrange(0, i) =~= s);
    }
}

proof fn lemma_assign_suffix(s: Seq<Map<Seq<char>, Val>>, i: int, name: Seq<char>, v: Val)
    requires
        0 <= i <= s.len(),
        forall|j: int| i <= j < s.len() ==> !(#[trigger] s[j]).contains_key(name),
    ensures
        assign_in(s, name, v) == (match assign_in(s.subrange(0, i), name, v) {
            Some(t) => Some(t + s.subrange(i, s.len() as int)),
            None => None,
        }),
    decreases s.len(),
{
    if i < s.len() {
        lemma_assign_suffix(s.drop_last(), i, name, v);
        assert(s.drop_last().subrange(0, i) =~= s.subrange(0, i));
        match assign_in(s.subrange(0, i), name, v) {
            Some(t) => {
                assert(t + s.drop_last().subrange(i, s.len() - 1) + seq![s.last()] =~= t
                    + s.subrange(i, s.len() as int));
            },
            None => {},
        }
    } else {
        assert(s.subrange(0, i) =~= s);
        match assign_in(s, name, v) {
            Some(t) => {
                assert(t + s.subrange(i, s.len() as int) =~= t);
            },
            None => {},
        }
    }
}

/// The variables of a running program: a stack of scopes, the global one first.
pub struct Environment {
    scopes: Vec<Vec<Binding>>,
}

impl View for Environment {
    type V = Seq<Map<Seq<char>, Val>>;

    closed spec fn view(&self) -> Seq<Map<Seq<char>, Val>> {
        Seq::new(self.scopes@.len(), |i: int| scope_map(self.scopes@[i]@))
    }
}

impl Environment {
    /// Every scope binds a name at most once, and the global scope is always there.
    pub closed spec fn wf(&self) -> bool {
        &&& self.scopes@.len() >= 1
        &&& forall|i: int| 0 <= i < self.scopes@.len() ==> unique_names(#[trigger] self.scopes@[i]@)
    }

    /// A well-formed environment always has its global scope.
    pub proof fn lemma_has_scope(&self)
        requires
            self.wf(),
        ensures
            self@.len() >= 1,
    {
    }

    /// An environment holding one empty global scope.
    pub fn new() -> (r: Self)
        ensures
            r.wf(),
            r@ == seq![Map::<Seq<char>, Val>::empty()],
    {
        let mut scopes: Vec<Vec<Binding>> = Vec::new();
        scopes.push(Vec::new());
        let r = Environment { scopes };
        proof {
            assert(r@ =~= seq![Map::<Seq<char>, Val>::empty()]);
        }
        r
    }

    /// Opens a new, empty innermost scope.
    pub fn push_scope(&mut self)
        requires
            old(self).wf(),
        ensures
            final(self).wf(),
            final(self)@ == old(self)@.push(Map::empty()),
    {
        self.scopes.push(Vec::new());
        proof {
            assert(self@ =~= old(self)@.push(Map::empty()));
        }
    }

    /// Drops the innermost scope, unless it is the global one.
    pub fn pop_scope(&mut self)
        requires
            old(self).wf(),
        ensures
            final(self).wf(),
            final(self)@.len() >= 1,
            final(self)@ == if old(self)@.len() > 1 { old(self)@.drop_last() } else { old(self)@ },
    {
        if self.scopes.len() > 1 {
            self.scopes.pop();
            proof {
                assert(self@ =~= old(self)@.drop_last());
            }
        }
    }

    fn find(scope: &Vec<Binding>, name: &String) -> (r: Option<usize>)
        requires
            unique_names(scope@),
        ensures
            r matches Some(i) ==> i < scope@.len() && scope@[i as int].name@ == name@,
            r is None ==> !scope_map(scope@).contains_key(name@),
    {
        let mut i: usize = 0;
        while i < scope.len()
            invariant
                i <= scope@.len(),
                forall|j: int| 0 <= j < i ==> scope@[j].name@ != name@,
            decreases scope@.len() - i,
        {
            if scope[i].name == *name {
                return Some(i);
            }
            i += 1;
        }
        proof {
            lemma_scope_absent(scope@, name@);
        }
        None
    }

    /// Binds `name` to `value` in the innermost scope, replacing an earlier binding there.
    pub fn define(&mut self, name: String, value: Literal)
        requires
            old(self).wf(),
        ensures
            final(self).wf(),
            final(self)@ == define_in(old(self)@, name@, value@),
            final(self)@.len() == old(self)@.len(),
    {
        let ghost nm = name@;
        let ghost vv = value@;
        let ghost before = self.scopes@;
        let mut scope = match self.scopes.pop() {
            Some(s) => s,
            None => Vec::new(),
        };
        let ghost s0 = scope@;
        match Environment::find(&scope, &name) {
            Some(i) => {
                let b = Binding { name, value };
                proof {
                    lemma_scope_set(s0, i as int, b);
                }
                scope.set(i, b);
            },
            None => {
                let b = Binding { name, value };
                scope.push(b);
                proof {
                    assert(scope@.drop_last() =~= s0);
                    assert forall|i: int, j: int| 0 <= i < j < scope@.len() implies scope@[i].name@
                        != scope@[j].name@ by {
                        if j == scope@.len() - 1 {
                            if scope@[i].name@ == nm {
                                lemma_scope_find(s0, i);
                            }
                        }
                    }
                }
            },
        }
        self.scopes.push(scope);
        proof {
            assert(self.scopes@ =~= before.update(before.len() - 1, scope));
            assert(self@ =~= define_in(old(self)@, nm, vv));
        }
    }

    /// The value of `name` in the innermost scope that binds it.
    pub fn get(&self, name: &String) -> (r: Result<Literal, RuntimeError>)
        requires
            self.wf(),
        ensures
            match lookup(self@, name@) {
                Some(v) => r matches Ok(l) && l@ == v,
                None => r matches Err(e) && e.message@ == undefined_message(name@),
            },
    {
        let mut i = self.scopes.len();
        proof {
            assert(self@.subrange(0, i as int) =~= self@);
        }
        while i > 0
            invariant
                i <= self.scopes@.len(),
                self.wf(),
                lookup(self@, name@) == lookup(self@.subrange(0, i as int), name@),
            decreases i,
        {
            let scope = &self.scopes[i - 1];
            match Environment::find(scope, name) {
                Some(k) => {
                    proof {
                        lemma_scope_find(scope@, k as int);
                        assert(self@.subrange(0, i as int).last() == self@[i - 1]);
                    }
                    return Ok(scope[k].value.duplicate());
                },
                None => {
                    proof {
                        assert(self@.subrange(0, i as int).drop_last() =~= self@.subrange(
                            0,
                            i - 1,
                        ));
                    }
                },
            }
            i -= 1;
        }
        Err(RuntimeError::new(undefined(name)))
    }

    /// Sets `name` to `value` in the innermost scope that binds it; never creates a binding.
    pub fn assign(&mut self, name: String, value: Literal) -> (r: Result<(), RuntimeError>)
        requires
            old(self).wf(),
        ensures
            final(self).wf(),
            final(self)@.len() == old(self)@.len(),
            match assign_in(old(self)@, name@, value@) {
                Some(s) => r is Ok && final(self)@ == s,
                None => {
                    &&& r matches Err(e) && e.message@ == undefined_message(name@)
                    &&& final(self)@ == old(self)@
                },
            },
    {
        let ghost nm = name@;
        let ghost vv = value@;
        let ghost s0 = self@;
        proof {
            lemma_assign_len(s0, nm, vv);
        }
        let mut i = self.scopes.len();
        while i > 0
            invariant
                i <= self.scopes@.len(),
                self.wf(),
                self@ == s0,
                s0 == old(self)@,
                assign_in(s0, nm, vv) matches Some(t) ==> t.len() == s0.len(),
                name@ == nm,
                value@ == vv,
                forall|j: int| i <= j < s0.len() ==> !(#[trigger] s0[j]).contains_key(nm),
            decreases i,
        {
            let found = Environment::find(&self.scopes[i - 1], &name);
            match found {
                Some(k) => {
                    proof {
                        lemma_assign_suffix(s0, i as int, nm, vv);
                        lemma_scope_find(self.scopes@[i - 1]@, k as int);
                        assert(s0.subrange(0, i as int).last() == s0[i - 1]);
                        assert(s0[i - 1] == scope_map(self.scopes@[i - 1]@));
                        assert(s0[i - 1].contains_key(nm));
                        assert(assign_in(s0.subrange(0, i as int), nm, vv) == Some(
                            s0.subrange(0, i as int).update(i - 1, s0[i - 1].insert(nm, vv)),
                        ));
                    }
                    let ghost before = self.scopes@;
                    let mut scope = self.scopes.remove(i - 1);
                    let b = Binding { name, value };
                    let ghost sc0 = scope@;
                    proof {
                        assert(sc0 == before[i - 1]@);
                        assert(s0[i - 1] == scope_map(sc0));
                        assert(b.name@ == nm && b.value@ == vv);
                        lemma_scope_set(scope@, k as int, b);
                    }
                    scope.set(k, b);
                    self.scopes.insert(i - 1, scope);
                    proof {
                        assert(self.scopes@ =~= before.update(i - 1, scope));
                        assert(scope_map(self.scopes@[i - 1]@) == s0[i - 1].insert(nm, vv));
                        assert(self@ =~= s0.update(i - 1, s0[i - 1].insert(nm, vv)));
                        assert(self@ =~= s0.subrange(0, i as int).update(i - 1, s0[i - 1].insert(nm, vv))
                            + s0.subrange(i as int, s0.len() as int));
                        assert forall|j: int| 0 <= j < self.scopes@.len() implies unique_names(
                            #[trigger] self.scopes@[j]@) by {
                            if j != i - 1 {
                                assert(self.scopes@[j] == before[j]);
                            }
                        }
                        assert(self.wf());
                        assert(assign_in(s0, nm, vv) == Some(self@));
                    }
                    return Ok(());
                },
                None => {},
            }
            i -= 1;
        }
        proof {
            lemma_assign_suffix(s0, 0, nm, vv);
        }
        Err(RuntimeError::new(undefined(&name)))
    }
}

fn undefined(name: &String) -> (r: String)
    ensures
        r@ == undefined_message(name@),
{
    let mut out = lit_chars("Undefined variable ");
    push_all(&mut out, &string_to_chars(name));
    chars_to_string(&out)
}

} // verus!
