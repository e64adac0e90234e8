//! The chain of scopes: frames of variable bindings and function
//! declarations, innermost last.
use vstd::prelude::*;

use crate::model::Statement;
use crate::text::str_equal;
use crate::value::{ResultType, Value};

verus! {

/// The index of the last key equal to `k`.
pub open spec fn last_key(keys: Seq<Seq<char>>, k: Seq<char>) -> Option<int>
    decreases keys.len(),
{
    if keys.len() == 0 {
        None
    } else if keys.last() == k {
        Some(keys.len() - 1)
    } else {
        last_key(keys.drop_last(), k)
    }
}

pub open spec fn keys_of<V>(s: Seq<(Seq<char>, V)>) -> Seq<Seq<char>> {
    s.map_values(|p: (Seq<char>, V)| p.0)
}

/// What a table of bindings holds for `k`: its last binding.
pub open spec fn assoc<V>(s: Seq<(Seq<char>, V)>, k: Seq<char>) -> Option<V> {
    match last_key(keys_of(s), k) {
        Some(j) => Some(s[j].1),
        None => None,
    }
}

/// The table with `k` bound to `v`: its binding replaced, or a new one added.
pub open spec fn bind<V>(s: Seq<(Seq<char>, V)>, k: Seq<char>, v: V) -> Seq<(Seq<char>, V)> {
    match last_key(keys_of(s), k) {
        Some(j) => s.update(j, (k, v)),
        None => s.push((k, v)),
    }
}

/// One scope: its variables and its functions.
pub struct Frame {
    pub vars: Seq<(Seq<char>, Value)>,
    pub funcs: Seq<(Seq<char>, Statement)>,
}

pub open spec fn empty_frame() -> Frame {
    Frame { vars: Seq::empty(), funcs: Seq::empty() }
}

/// The innermost scope that binds the variable `k`.
pub open spec fn var_owner(env: Seq<Frame>, k: Seq<char>) -> Option<int>
    decreases env.len(),
{
    if env.len() == 0 {
        None
    } else if assoc(env.last().vars, k) is Some {
        Some(env.len() - 1)
    } else {
        var_owner(env.drop_last(), k)
    }
}

/// The innermost scope that declares the function `k`.
pub open spec fn fn_owner(env: Seq<Frame>, k: Seq<char>) -> Option<int>
    decreases env.len(),
{
    if env.len() == 0 {
        None
    } else if assoc(env.last().funcs, k) is Some {
        Some(env.len() - 1)
    } else {
        fn_owner(env.drop_last(), k)
    }
}

/// The value of the variable `k`, looked up from the innermost scope out.
pub open spec fn lookup_var(env: Seq<Frame>, k: Seq<char>) -> Option<Value> {
    match var_owner(env, k) {
        Some(i) => assoc(env[i].vars, k),
        None => None,
    }
}

/// The declaration of the function `k`, looked up from the innermost scope out.
pub open spec fn lookup_fn(env: Seq<Frame>, k: Seq<char>) -> Option<Statement> {
    match fn_owner(env, k) {
        Some(i) => assoc(env[i].funcs, k),
        None => None,
    }
}

/// `env` with `k` bound to `v` in scope `i`.
pub open spec fn set_var_in(env: Seq<Frame>, i: int, k: Seq<char>, v: Value) -> Seq<Frame> {
    env.update(i, Frame { vars: bind(env[i].vars, k, v), funcs: env[i].funcs })
}

/// Assignment: rebinds `k` in the innermost scope that binds it, or binds it
/// in the innermost scope when none does.
pub open spec fn assign_var(env: Seq<Frame>, k: Seq<char>, v: Value) -> Seq<Frame> {
    match var_owner(env, k) {
        Some(i) => set_var_in(env, i, k, v),
        None => set_var_in(env, env.len() - 1, k, v),
    }
}

/// Local assignment: binds `k` in the innermost scope.
pub open spec fn assign_local(env: Seq<Frame>, k: Seq<char>, v: Value) -> Seq<Frame> {
    set_var_in(env, env.len() - 1, k, v)
}

/// Declares the function `k` in the innermost scope.
pub open spec fn declare_fn(env: Seq<Frame>, k: Seq<char>, d: Statement) -> Seq<Frame> {
    env.update(
        env.len() - 1,
        Frame { vars: env[env.len() - 1].vars, funcs: bind(env[env.len() - 1].funcs, k, d) },
    )
}

pub proof fn lemma_last_key(keys: Seq<Seq<char>>, k: Seq<char>)
    ensures
        last_key(keys, k) matches Some(j) ==> 0 <= j < keys.len() && keys[j] == k && forall|i: int|
            j < i < keys.len() ==> keys[i] != k,
        last_key(keys, k) is None ==> forall|i: int| 0 <= i < keys.len() ==> keys[i] != k,
    decreases keys.len(),
{
    if keys.len() > 0 {
        let d = keys.drop_last();
        lemma_last_key(d, k);
        assert(forall|i: int| 0 <= i < d.len() ==> d[i] == keys[i]);
    }
}

pub proof fn lemma_last_key_push(keys: Seq<Seq<char>>, k: Seq<char>, k2: Seq<char>)
    ensures
        last_key(keys.push(k), k2) == if k2 == k {
            Some(keys.len() as int)
        } else {
            last_key(keys, k2)
        },
{
    assert(keys.push(k).drop_last() =~= keys);
}

/// Binding `k` changes what the table holds for `k` alone.
pub proof fn lemma_bind<V>(s: Seq<(Seq<char>, V)>, k: Seq<char>, v: V, k2: Seq<char>)
    ensures
        assoc(bind(s, k, v), k2) == if k2 == k {
            Some(v)
        } else {
            assoc(s, k2)
        },
{
    lemma_last_key(keys_of(s), k);
    lemma_last_key(keys_of(s), k2);
    match last_key(keys_of(s), k) {
        Some(j) => {
            assert(keys_of(s.update(j, (k, v))) =~= keys_of(s));
        },
        None => {
            assert(keys_of(s.push((k, v))) =~= keys_of(s).push(k));
            lemma_last_key_push(keys_of(s), k, k2);
        },
    }
}

/// One scope as the program holds it.
pub struct ScopeFrame<'a> {
    vars: Vec<(String, ResultType)>,
    funcs: Vec<(String, &'a Statement)>,
}

impl<'a> View for ScopeFrame<'a> {
    type V = Frame;

    closed spec fn view(&self) -> Frame {
        Frame {
            vars: self.vars@.map_values(|p: (String, ResultType)| (p.0@, p.1@)),
            funcs: self.funcs@.map_values(|p: (String, &'a Statement)| (p.0@, *p.1)),
        }
    }
}

/// The keys of a table as the program holds it.
pub open spec fn exec_keys<V>(s: Seq<(String, V)>) -> Seq<Seq<char>> {
    s.map_values(|p: (String, V)| p.0@)
}

/// The index of the last entry whose key is `k`.
fn find_last<V>(s: &Vec<(String, V)>, k: &str) -> (r: Option<usize>)
    ensures
        r matches Some(j) ==> last_key(exec_keys(s@), k@) == Some(j as int),
        r is None ==> last_key(exec_keys(s@), k@) is None,
{
    let ghost keys = exec_keys(s@);
    let mut i = s.len();
    assert(keys.subrange(0, i as int) =~= keys);
    while i > 0
        invariant
            i <= s@.len(),
            keys == exec_keys(s@),
            last_key(keys, k@) == last_key(keys.subrange(0, i as int), k@),
        decreases i,
    {
        let ghost pre = keys.subrange(0, i as int);
        assert(pre.drop_last() =~= keys.subrange(0, i - 1));
        if str_equal(s[i - 1].0.as_str(), k) {
            return Some(i - 1);
        }
        i = i - 1;
    }
    None
}

impl<'a> ScopeFrame<'a> {
    pub fn new() -> (f: ScopeFrame<'a>)
        ensures
            f@ == empty_frame(),
    {
        let f = ScopeFrame { vars: Vec::new(), funcs: Vec::new() };
        assert(f@.vars =~= Seq::empty());
        assert(f@.funcs =~= Seq::empty());
        f
    }

    /// Whether the frame binds the variable `k`.
    fn has_var(&self, k: &str) -> (r: bool)
        ensures
            r == assoc(self@.vars, k@) is Some,
    {
        assert(keys_of(self@.vars) =~= exec_keys(self.vars@));
        find_last(&self.vars, k).is_some()
    }

    /// Whether the frame declares the function `k`.
    fn has_func(&self, k: &str) -> (r: bool)
        ensures
            r == assoc(self@.funcs, k@) is Some,
    {
        assert(keys_of(self@.funcs) =~= exec_keys(self.funcs@));
        find_last(&self.funcs, k).is_some()
    }

    /// What the frame binds to the variable `k`.
    fn get_var(&self, k: &str) -> (r: Option<ResultType>)
        ensures
            r matches Some(v) ==> assoc(self@.vars, k@) == Some(v@),
            r is None ==> assoc(self@.vars, k@) is None,
    {
        assert(keys_of(self@.vars) =~= exec_keys(self.vars@));
        proof {
            lemma_last_key(keys_of(self@.vars), k@);
        }
        match find_last(&self.vars, k) {
            Some(j) => {
                assert(self@.vars[j as int] == (self.vars@[j as int].0@, self.vars@[j as int].1@));
                Some(self.vars[j].1.duplicate())
            },
            None => None,
        }
    }

    /// The declaration that the frame holds for the function `k`.
    fn get_func(&self, k: &str) -> (r: Option<&'a Statement>)
        ensures
            r matches Some(d) ==> assoc(self@.funcs, k@) == Some(*d),
            r is None ==> assoc(self@.funcs, k@) is None,
    {
        assert(keys_of(self@.funcs) =~= exec_keys(self.funcs@));
        proof {
            lemma_last_key(keys_of(self@.funcs), k@);
        }
        match find_last(&self.funcs, k) {
            Some(j) => {
                assert(self@.funcs[j as int] == (self.funcs@[j as int].0@, *self.funcs@[j as int].1));
                Some(self.funcs[j].1)
            },
            None => None,
        }
    }

    /// Binds the variable `k` to `v` in this frame.
    fn bind_var(&mut self, k: String, v: ResultType)
        ensures
            final(self)@ == (Frame { vars: bind(old(self)@.vars, k@, v@), funcs: old(self)@.funcs }),
    {
        assert(keys_of(self@.vars) =~= exec_keys(self.vars@));
        let ghost kv = k@;
        let ghost vv = v@;
        match find_last(&self.vars, k.as_str()) {
            Some(j) => {
                proof {
                    lemma_last_key(keys_of(self@.vars), kv);
                }
                self.vars.set(j, (k, v));
                assert(self@.vars =~= old(self)@.vars.update(j as int, (kv, vv)));
            },
            None => {
                self.vars.push((k, v));
                assert(self@.vars =~= old(self)@.vars.push((kv, vv)));
            },
        }
    }

    /// Declares the function `k` in this frame.
    fn bind_func(&mut self, k: String, d: &'a Statement)
        ensures
            final(self)@ == (Frame { vars: old(self)@.vars, funcs: bind(old(self)@.funcs, k@, *d) }),
    {
        assert(keys_of(self@.funcs) =~= exec_keys(self.funcs@));
        let ghost kv = k@;
        match find_last(&self.funcs, k.as_str()) {
            Some(j) => {
                proof {
                    lemma_last_key(keys_of(self@.funcs), kv);
                }
                self.funcs.set(j, (k, d));
                assert(self@.funcs =~= old(self)@.funcs.update(j as int, (kv, *d)));
            },
            None => {
                self.funcs.push((k, d));
                assert(self@.funcs =~= old(self)@.funcs.push((kv, *d)));
            },
        }
    }
}

/// The chain of scopes of a running program. There is always a root scope;
/// each block and each call adds a scope for its duration.
pub struct State<'a> {
    frames: Vec<ScopeFrame<'a>>,
}

impl<'a> View for State<'a> {
    type V = Seq<Frame>;

    closed spec fn view(&self) -> Seq<Frame> {
        self.frames@.map_values(|f: ScopeFrame<'a>| f@)
    }
}

impl<'a> State<'a> {
    /// A chain of one empty root scope.
    pub fn new() -> (s: State<'a>)
        ensures
            s@ == seq![empty_frame()],
    {
        let mut frames: Vec<ScopeFrame<'a>> = Vec::new();
        frames.push(ScopeFrame::new());
        let s = State { frames };
        assert(s@ =~= seq![empty_frame()]);
        s
    }

    /// The number of scopes.
    pub fn depth(&self) -> (n: usize)
        ensures
            n == self@.len(),
    {
        self.frames.len()
    }

    /// Opens an empty scope inside the innermost one.
    pub fn get_child_env(&mut self)
        ensures
            final(self)@ == old(self)@.push(empty_frame()),
    {
        self.frames.push(ScopeFrame::new());
        assert(self@ =~= old(self)@.push(empty_frame()));
    }

    /// Closes the innermost scope.
    pub fn drop_child_env(&mut self)
        requires
            old(self)@.len() > 1,
        ensures
            final(self)@ == old(self)@.drop_last(),
    {
        self.frames.pop();
        assert(self@ =~= old(self)@.drop_last());
    }

    /// The innermost scope that binds the variable `k`.
    fn owner_of_var(&self, k: &str) -> (r: Option<usize>)
        ensures
            r matches Some(i) ==> var_owner(self@, k@) == Some(i as int),
            r is None ==> var_owner(self@, k@) is None,
    {
        let mut i = self.frames.len();
        assert(self@.subrange(0, i as int) =~= self@);
        while i > 0
            invariant
                i <= self@.len(),
                self@.len() == self.frames@.len(),
                var_owner(self@, k@) == var_owner(self@.subrange(0, i as int), k@),
            decreases i,
        {
            let ghost pre = self@.subrange(0, i as int);
            assert(pre.drop_last() =~= self@.subrange(0, i - 1));
            if self.frames[i - 1].has_var(k) {
                return Some(i - 1);
            }
            i = i - 1;
        }
        None
    }

    /// The innermost scope that declares the function `k`.
    fn owner_of_func(&self, k: &str) -> (r: Option<usize>)
        ensures
            r matches Some(i) ==> fn_owner(self@, k@) == Some(i as int),
            r is None ==> fn_owner(self@, k@) is None,
    {
        let mut i = self.frames.len();
        assert(self@.subrange(0, i as int) =~= self@);
        while i > 0
            invariant
                i <= self@.len(),
                self@.len() == self.frames@.len(),
                fn_owner(self@, k@) == fn_owner(self@.subrange(0, i as int), k@),
            decreases i,
        {
            let ghost pre = self@.subrange(0, i as int);
            assert(pre.drop_last() =~= self@.subrange(0, i - 1));
            if self.frames[i - 1].has_func(k) {
                return Some(i - 1);
            }
            i = i - 1;
        }
        None
    }

    /// The value of the variable `item`, from the innermost scope out.
    pub fn get_item(&self, item: &str) -> (r: Option<ResultType>)
        ensures
            r matches Some(v) ==> lookup_var(self@, item@) == Some(v@),
            r is None ==> lookup_var(self@, item@) is None,
    {
        proof {
            lemma_owner_in_range(self@, item@);
        }
        match self.owner_of_var(item) {
            Some(i) => self.frames[i].get_var(item),
            None => None,
        }
    }

    /// Whether some scope binds the variable `item`.
    pub fn contains(&self, item: &str) -> (r: bool)
        ensures
            r == lookup_var(self@, item@) is Some,
    {
        proof {
            lemma_owner_in_range(self@, item@);
        }
        self.owner_of_var(item).is_some()
    }

    /// The declaration of the function `item`, from the innermost scope out.
    pub fn get_function(&self, item: &str) -> (r: Option<&'a Statement>)
        ensures
            r matches Some(d) ==> lookup_fn(self@, item@) == Some(*d),
            r is None ==> lookup_fn(self@, item@) is None,
    {
        proof {
            lemma_owner_in_range(self@, item@);
        }
        match self.owner_of_func(item) {
            Some(i) => self.frames[i].get_func(item),
            None => None,
        }
    }

    /// Binds `k` to `v` in scope `i`.
    fn set_in(&mut self, i: usize, k: String, v: ResultType)
        requires
            i < old(self)@.len(),
        ensures
            final(self)@ == set_var_in(old(self)@, i as int, k@, v@),
            final(self)@.len() == old(self)@.len(),
    {
        let mut f = ScopeFrame::new();
        self.frames.set_and_swap(i, &mut f);
        f.bind_var(k, v);
        self.frames.set(i, f);
        assert(self@ =~= set_var_in(old(self)@, i as int, k@, v@));
    }

    /// Binds `item` in the innermost scope.
    pub fn set_local_item(&mut self, item: String, value: ResultType)
        requires
            old(self)@.len() > 0,
        ensures
            final(self)@ == assign_local(old(self)@, item@, value@),
            final(self)@.len() == old(self)@.len(),
    {
        let top = self.frames.len() - 1;
        self.set_in(top, item, value);
    }

    /// Rebinds `item` in the innermost scope that binds it, or binds it in
    /// the innermost scope when none does.
    pub fn set_item(&mut self, item: String, value: ResultType)
        requires
            old(self)@.len() > 0,
        ensures
            final(self)@ == assign_var(old(self)@, item@, value@),
            final(self)@.len() == old(self)@.len(),
    {
        proof {
            lemma_owner_in_range(self@, item@);
        }
        match self.owner_of_var(item.as_str()) {
            Some(i) => self.set_in(i, item, value),
            None => {
                let top = self.frames.len() - 1;
                self.set_in(top, item, value);
            },
        }
    }

    /// Declares the function `item` in the innermost scope.
    pub fn set_function(&mut self, item: String, value: &'a Statement)
        requires
            old(self)@.len() > 0,
        ensures
            final(self)@ == declare_fn(old(self)@, item@, *value),
            final(self)@.len() == old(self)@.len(),
    {
        let top = self.frames.len() - 1;
        let mut f = ScopeFrame::new();
        self.frames.set_and_swap(top, &mut f);
        f.bind_func(item, value);
        self.frames.set(top, f);
        assert(self@ =~= declare_fn(old(self)@, item@, *value));
    }
}

/// The owners are scopes of the chain.
pub proof fn lemma_owner_in_range(env: Seq<Frame>, k: Seq<char>)
    ensures
        var_owner(env, k) matches Some(i) ==> 0 <= i < env.len() && assoc(env[i].vars, k) is Some,
        fn_owner(env, k) matches Some(i) ==> 0 <= i < env.len() && assoc(env[i].funcs, k) is Some,
    decreases env.len(),
{
    if env.len() > 0 {
        lemma_owner_in_range(env.drop_last(), k);
    }
}

} // verus!
