use vstd::prelude::*;
use vstd::hash_map::StringHashMap;
use vstd::hash_set::StringHashSet;
use crate::vm::errors::Error;
use crate::vm::types::FunctionIdentifier;

verus! {

/// The deepest a chain of nested contexts may go below the global context.
pub const MAX_CONTEXT_DEPTH: u8 = 128;

/// What a contract call runs against: the global scope, the stack of
/// functions being executed, and the contract store `D`.
#[verifier::reject_recursive_types(V)]
#[verifier::reject_recursive_types(F)]
pub struct Environment<'a, V, F, D: ?Sized> {
    pub global_context: Context<'a, V, F>,
    pub call_stack: CallStack,
    pub database: Box<D>,
}

impl<'a, V, F, D: ?Sized> Environment<'a, V, F, D> {
    /// An environment over `database` with an empty global scope and an
    /// empty call stack.
    pub fn new(database: Box<D>) -> (env: Self)
        ensures
            env.global_context.enclosing().is_none(),
            env.global_context.own_variables() == Map::<Seq<char>, V>::empty(),
            env.global_context.own_functions() == Map::<Seq<char>, F>::empty(),
            env.global_context.spec_depth() == 0,
            env.call_stack.stack@ == Set::<Seq<char>>::empty(),
            env.database == database,
    {
        let global_context = Context::new();
        Environment { global_context: global_context, call_stack: CallStack::new(), database: database }
    }
}

/// A lexical scope of the interpreter: its own variable and function
/// bindings, and the enclosing scope, if any, that it falls back to.
#[verifier::reject_recursive_types(V)]
#[verifier::reject_recursive_types(F)]
pub struct Context<'a, V, F> {
    pub parent: Option<&'a Context<'a, V, F>>,
    pub variables: StringHashMap<V>,
    pub functions: StringHashMap<F>,
    depth: u8,
}

impl<'a, V, F> Context<'a, V, F> {
    /// How many scopes enclose this one.
    pub closed spec fn spec_depth(&self) -> nat {
        self.depth as nat
    }

    /// How many scopes lie above this one on its chain of enclosing scopes.
    pub closed spec fn chain_length(&self) -> nat
        decreases self,
    {
        match self.parent {
            Some(p) => p.chain_length() + 1,
            None => 0,
        }
    }

    /// The scope and every scope around it were made by `new` and `extend`:
    /// each one's depth is the length of its chain and within the limit.
    pub closed spec fn well_built(&self) -> bool
        decreases self,
    {
        &&& self.depth as nat == self.chain_length()
        &&& self.depth <= MAX_CONTEXT_DEPTH
        &&& match self.parent {
            Some(p) => p.well_built(),
            None => true,
        }
    }

    /// The enclosing scope.
    pub closed spec fn enclosing(&self) -> Option<&'a Context<'a, V, F>> {
        self.parent
    }

    /// This scope's own variable bindings.
    pub closed spec fn own_variables(&self) -> Map<Seq<char>, V> {
        self.variables@
    }

    /// This scope's own function bindings.
    pub closed spec fn own_functions(&self) -> Map<Seq<char>, F> {
        self.functions@
    }

    /// The value `name` denotes here: this scope's own binding if it has
    /// one, else what it denotes in the enclosing scope.
    pub closed spec fn variable_binding(&self, name: Seq<char>) -> Option<V>
        decreases self,
    {
        if self.variables@.contains_key(name) {
            Some(self.variables@[name])
        } else {
            match self.parent {
                Some(p) => p.variable_binding(name),
                None => None,
            }
        }
    }

    /// The function `name` denotes here: this scope's own binding if it has
    /// one, else what it denotes in the enclosing scope.
    pub closed spec fn function_binding(&self, name: Seq<char>) -> Option<F>
        decreases self,
    {
        if self.functions@.contains_key(name) {
            Some(self.functions@[name])
        } else {
            match self.parent {
                Some(p) => p.function_binding(name),
                None => None,
            }
        }
    }

    /// A global scope: no enclosing scope and no bindings.
    pub fn new() -> (ctx: Self)
        ensures
            ctx.enclosing().is_none(),
            ctx.own_variables() == Map::<Seq<char>, V>::empty(),
            ctx.own_functions() == Map::<Seq<char>, F>::empty(),
            ctx.spec_depth() == 0,
            ctx.well_built(),
    {
        Context {
            depth: 0,
            parent: None,
            variables: StringHashMap::new(),
            functions: StringHashMap::new(),
        }
    }

    /// Opens a scope nested in this one, with no bindings of its own; fails
    /// when this scope already lies `MAX_CONTEXT_DEPTH` scopes deep.
    pub fn extend(&'a self) -> (r: Result<Context<'a, V, F>, Error>)
        ensures
            self.spec_depth() >= MAX_CONTEXT_DEPTH ==> r == Err::<Context<'a, V, F>, Error>(
                Error::MaxContextDepthReached,
            ),
            self.spec_depth() < MAX_CONTEXT_DEPTH ==> (r matches Ok(child) && {
                &&& child.enclosing() == Some(self)
                &&& child.own_variables() == Map::<Seq<char>, V>::empty()
                &&& child.own_functions() == Map::<Seq<char>, F>::empty()
                &&& child.spec_depth() == self.spec_depth() + 1
                &&& self.well_built() ==> child.well_built()
            }),
    {
        if self.depth >= MAX_CONTEXT_DEPTH {
            Err(Error::MaxContextDepthReached)
        } else {
            Ok(Context {
                parent: Some(self),
                variables: StringHashMap::new(),
                functions: StringHashMap::new(),
                depth: self.depth + 1,
            })
        }
    }

    /// A copy of the value `name` denotes in this scope, if any.
    pub fn lookup_variable(&self, name: &str) -> (r: Option<V>)
        where V: Clone,
        ensures
            r.is_some() == self.variable_binding(name@).is_some(),
            r matches Some(v) ==> cloned(self.variable_binding(name@).unwrap(), v),
        decreases self,
    {
        match self.variables.get(name) {
            Some(value) => Some(value.clone()),
            None => match self.parent {
                Some(parent) => parent.lookup_variable(name),
                None => None,
            },
        }
    }

    /// A copy of the function `name` denotes in this scope, if any.
    pub fn lookup_function(&self, name: &str) -> (r: Option<F>)
        where F: Clone,
        ensures
            r.is_some() == self.function_binding(name@).is_some(),
            r matches Some(f) ==> cloned(self.function_binding(name@).unwrap(), f),
        decreases self,
    {
        match self.functions.get(name) {
            Some(value) => Some(value.clone()),
            None => match self.parent {
                Some(parent) => parent.lookup_function(name),
                None => None,
            },
        }
    }
}

/// A scope just opened by `extend` denotes every name exactly as the scope
/// it was opened in: the same variables and the same functions.
pub proof fn law_fresh_scope_resolves_as_enclosing<'a, V, F>(
    outer: &'a Context<'a, V, F>,
    inner: Context<'a, V, F>,
    name: Seq<char>,
)
    requires
        inner.enclosing() == Some(outer),
        inner.own_variables() == Map::<Seq<char>, V>::empty(),
        inner.own_functions() == Map::<Seq<char>, F>::empty(),
    ensures
        inner.variable_binding(name) == outer.variable_binding(name),
        inner.function_binding(name) == outer.function_binding(name),
{
}

/// In a scope made by `new` and `extend`, the depth is the number of scopes
/// above it and never exceeds `MAX_CONTEXT_DEPTH`.
pub proof fn law_depth_counts_enclosing_scopes<'a, V, F>(ctx: Context<'a, V, F>)
    requires
        ctx.well_built(),
    ensures
        ctx.spec_depth() == ctx.chain_length(),
        ctx.spec_depth() <= MAX_CONTEXT_DEPTH,
{
}

/// A name denotes what this scope binds it to, where it binds it; else what
/// it denotes in the enclosing scope; else nothing. So a scope's own binding
/// of a name hides every binding of that name in the scopes around it.
pub proof fn law_name_resolution<'a, V, F>(ctx: Context<'a, V, F>, name: Seq<char>)
    ensures
        ctx.variable_binding(name) == if ctx.own_variables().contains_key(name) {
            Some(ctx.own_variables()[name])
        } else {
            match ctx.enclosing() {
                Some(outer) => outer.variable_binding(name),
                None => None,
            }
        },
        ctx.function_binding(name) == if ctx.own_functions().contains_key(name) {
            Some(ctx.own_functions()[name])
        } else {
            match ctx.enclosing() {
                Some(outer) => outer.function_binding(name),
                None => None,
            }
        },
{
}

/// The set of user functions currently being executed, by identifier.
pub struct CallStack {
    pub stack: StringHashSet,
}

impl CallStack {
    /// A call stack with no function on it.
    pub fn new() -> (cs: Self)
        ensures
            cs.stack@ == Set::<Seq<char>>::empty(),
            cs.stack@.finite(),
    {
        CallStack { stack: StringHashSet::new() }
    }

    /// The number of distinct functions on the stack.
    pub fn depth(&self) -> (n: usize)
        ensures
            n == self.stack@.len(),
    {
        self.stack.len()
    }

    /// Whether `user_function` is being executed.
    pub fn contains(&self, user_function: &FunctionIdentifier) -> (b: bool)
        ensures
            b == self.stack@.contains(user_function.identifier@),
    {
        self.stack.contains(user_function.identifier.as_str())
    }

    /// Records that `user_function` is being executed.
    pub fn insert(&mut self, user_function: &FunctionIdentifier)
        ensures
            final(self).stack@ == old(self).stack@.insert(user_function.identifier@),
            old(self).stack@.finite() ==> final(self).stack@.finite() && final(self).stack@.len()
                == old(self).stack@.len() + if old(self).stack@.contains(user_function.identifier@) {
                0int
            } else {
                1int
            },
    {
        self.stack.insert(user_function.identifier.clone());
    }

    /// Records that `user_function` has returned; it must be on the stack.
    pub fn remove(&mut self, user_function: &FunctionIdentifier)
        requires
            old(self).stack@.contains(user_function.identifier@),
        ensures
            final(self).stack@ == old(self).stack@.remove(user_function.identifier@),
            old(self).stack@.finite() ==> final(self).stack@.finite() && final(self).stack@.len()
                == old(self).stack@.len() - 1,
    {
        let was_present = self.stack.remove(user_function.identifier.as_str());
        assert(was_present);
    }
}

/// Entering a function that is not on the call stack and then leaving it
/// gives back the call stack as it was: `before` is the stack, `during` what
/// `insert` makes of it, `after` what `remove` then makes of that.
pub proof fn law_enter_then_leave_restores(
    before: CallStack,
    during: CallStack,
    after: CallStack,
    function: FunctionIdentifier,
)
    requires
        !before.stack@.contains(function.identifier@),
        during.stack@ == before.stack@.insert(function.identifier@),
        after.stack@ == during.stack@.remove(function.identifier@),
    ensures
        after.stack@ == before.stack@,
        during.stack@.contains(function.identifier@),
{
    assert(after.stack@ =~= before.stack@);
}

/// The call stack after a sequence of calls from an empty one: each entry
/// is `(true, f)` for an `insert` of `f` and `(false, f)` for a `remove`.
pub open spec fn stack_after(ops: Seq<(bool, Seq<char>)>) -> Set<Seq<char>>
    decreases ops.len(),
{
    if ops.len() == 0 {
        Set::empty()
    } else {
        let earlier = stack_after(ops.drop_last());
        if ops.last().0 {
            earlier.insert(ops.last().1)
        } else {
            earlier.remove(ops.last().1)
        }
    }
}

/// Whether the last call in `ops` that names `f` is an insert.
pub open spec fn last_call_inserts(ops: Seq<(bool, Seq<char>)>, f: Seq<char>) -> bool
    decreases ops.len(),
{
    if ops.len() == 0 {
        false
    } else if ops.last().1 == f {
        ops.last().0
    } else {
        last_call_inserts(ops.drop_last(), f)
    }
}

/// After any sequence of inserts and removes from an empty call stack, a
/// function is on the stack exactly when the last call naming it was an
/// insert, and the stack is finite, so its depth counts those functions.
pub proof fn law_call_stack_history(ops: Seq<(bool, Seq<char>)>, f: Seq<char>)
    ensures
        stack_after(ops).contains(f) == last_call_inserts(ops, f),
        stack_after(ops).finite(),
    decreases ops.len(),
{
    if ops.len() > 0 {
        law_call_stack_history(ops.drop_last(), f);
    }
}

} // verus!
