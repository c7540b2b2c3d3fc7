//! A name-to-value environment with nested scopes over a global scope:
//! lookups search the innermost scope outward, assignments land in the
//! innermost scope that already holds the name or else in the globals.

use vstd::prelude::*;
use crate::error::push_str_all;
use crate::stdlib::write_stdout;
use crate::value::{
    Value, ValueModel, clone_string, clone_value, string_from, table_find, table_find_model,
    table_model, table_set, table_set_model, lemma_table_model,
};

verus! {

broadcast use vstd::std_specs::vec::group_vec_axioms;

/// One nested scope: its variables and, for diagnostics, the index of
/// its parent in the scope stack.
pub struct Scope {
    variables: Vec<(String, Value)>,
    parent: Option<usize>,
}

/// The model of a scope: its variable bindings.
pub closed spec fn scope_model(s: Scope) -> Seq<(Seq<char>, ValueModel)> {
    table_model(s.variables@)
}

impl Scope {
    /// A fresh scope with no variables and no parent.
    pub fn new() -> (r: Self)
        ensures
            scope_model(r).len() == 0,
    {
        Scope { variables: Vec::new(), parent: None }
    }
}

/// A scope stack over a global scope.
pub struct Environment {
    scopes: Vec<Scope>,
    global_scope: Vec<(String, Value)>,
}

/// The models of the stacked scopes, outermost first.
pub closed spec fn env_scopes(e: &Environment) -> Seq<Seq<(Seq<char>, ValueModel)>> {
    e.scopes@.map_values(|s: Scope| scope_model(s))
}

/// The model of the global scope.
pub closed spec fn env_globals(e: &Environment) -> Seq<(Seq<char>, ValueModel)> {
    table_model(e.global_scope@)
}

/// The innermost binding of `name` among the stacked scopes, if any.
pub open spec fn scopes_find(
    ms: Seq<Seq<(Seq<char>, ValueModel)>>,
    name: Seq<char>,
) -> Option<ValueModel>
    decreases ms.len(),
{
    if ms.len() == 0 {
        None
    } else {
        match table_find_model(ms.last(), name) {
            Some(v) => Some(v),
            None => scopes_find(ms.drop_last(), name),
        }
    }
}

/// The scope stack after assigning to the innermost scope that already
/// binds `name`; nothing when no scope binds it.
pub open spec fn scopes_assign(
    ms: Seq<Seq<(Seq<char>, ValueModel)>>,
    name: Seq<char>,
    v: ValueModel,
) -> Option<Seq<Seq<(Seq<char>, ValueModel)>>>
    decreases ms.len(),
{
    if ms.len() == 0 {
        None
    } else if table_find_model(ms.last(), name) is Some {
        Some(ms.drop_last().push(table_set_model(ms.last(), name, v)))
    } else {
        match scopes_assign(ms.drop_last(), name, v) {
            Some(ms2) => Some(ms2.push(ms.last())),
            None => None,
        }
    }
}

/// The globals a [`Environment::with_builtins`] environment starts with.
pub open spec fn builtin_globals() -> Seq<(Seq<char>, ValueModel)> {
    seq![
        ("print"@, ValueModel::Function(0)),
        ("type"@, ValueModel::Function(1)),
        ("tostring"@, ValueModel::Function(2)),
        ("tonumber"@, ValueModel::Function(3)),
        ("_VERSION"@, ValueModel::Str("Luna 1.0"@)),
    ]
}

/// Assigns within the innermost scope binding `name`, reporting whether
/// one was found.
fn assign_in_scopes(scopes: &mut Vec<Scope>, name: &String, value: &Value) -> (found: bool)
    ensures
        ({
            let ms = old(scopes)@.map_values(|s: Scope| scope_model(s));
            let ms2 = final(scopes)@.map_values(|s: Scope| scope_model(s));
            match scopes_assign(ms, name@, value@) {
                Some(target) => found && ms2 == target,
                None => !found && ms2 == ms,
            }
        }),
    decreases old(scopes)@.len(),
{
    let ghost ms = scopes@.map_values(|s: Scope| scope_model(s));
    match scopes.pop() {
        Some(mut sc) => {
            proof {
                crate::runtime::lemma_map_values_drop_last(
                    old(scopes)@,
                    |s: Scope| scope_model(s),
                );
            }
            let found = match table_find(&sc.variables, name) {
                Some(_) => {
                    table_set(&mut sc.variables, clone_string(name), clone_value(value));
                    true
                },
                None => assign_in_scopes(scopes, name, value),
            };
            proof {
                crate::runtime::lemma_map_values_push(scopes@, |s: Scope| scope_model(s), sc);
            }
            scopes.push(sc);
            proof {
                let ms2 = scopes@.map_values(|s: Scope| scope_model(s));
                match scopes_assign(ms, name@, value@) {
                    Some(target) => {
                        assert(ms2 =~= target);
                    },
                    None => {
                        assert(ms2 =~= ms);
                    },
                }
            }
            found
        },
        None => false,
    }
}

impl Environment {
    /// An empty environment: no scopes, no globals.
    pub fn new() -> (r: Self)
        ensures
            env_scopes(&r).len() == 0,
            env_globals(&r).len() == 0,
    {
        Environment { scopes: Vec::new(), global_scope: Vec::new() }
    }

    /// An environment whose globals hold the core builtin function
    /// references and the version string.
    pub fn with_builtins() -> (r: Self)
        ensures
            env_scopes(&r).len() == 0,
            env_globals(&r) == builtin_globals(),
    {
        let mut env = Self::new();
        env.add_builtins();
        env
    }

    /// Installs the core builtins into the global scope.
    fn add_builtins(&mut self)
        requires
            old(self).global_scope@.len() == 0,
        ensures
            final(self).scopes == old(self).scopes,
            env_globals(final(self)) == builtin_globals(),
    {
        self.global_scope.push((string_from("print"), Value::Function(0)));
        self.global_scope.push((string_from("type"), Value::Function(1)));
        self.global_scope.push((string_from("tostring"), Value::Function(2)));
        self.global_scope.push((string_from("tonumber"), Value::Function(3)));
        self.global_scope.push((string_from("_VERSION"), Value::Str(string_from("Luna 1.0"))));
        proof {
            lemma_table_model(self.global_scope@);
            assert(env_globals(self) =~= builtin_globals());
        }
    }

    /// Opens a new innermost scope and returns its index.
    pub fn push_scope(&mut self) -> (r: usize)
        ensures
            r == env_scopes(old(self)).len(),
            env_scopes(final(self)) == env_scopes(old(self)).push(Seq::empty()),
            env_globals(final(self)) == env_globals(old(self)),
    {
        let parent = if self.scopes.len() == 0 {
            None
        } else {
            Some(self.scopes.len() - 1)
        };
        let scope = Scope { variables: Vec::new(), parent };
        let r = self.scopes.len();
        proof {
            crate::runtime::lemma_map_values_push(self.scopes@, |s: Scope| scope_model(s), scope);
        }
        self.scopes.push(scope);
        proof {
            assert(env_scopes(self) =~= env_scopes(old(self)).push(Seq::empty()));
        }
        r
    }

    /// Closes the innermost scope, handing it back.
    pub fn pop_scope(&mut self) -> (r: Option<Scope>)
        ensures
            env_globals(final(self)) == env_globals(old(self)),
            env_scopes(old(self)).len() > 0 ==> r is Some && env_scopes(final(self)) == env_scopes(
                old(self),
            ).drop_last(),
            env_scopes(old(self)).len() == 0 ==> r is None && env_scopes(final(self)) == env_scopes(
                old(self),
            ),
    {
        proof {
            if self.scopes@.len() > 0 {
                crate::runtime::lemma_map_values_drop_last(
                    self.scopes@,
                    |s: Scope| scope_model(s),
                );
            }
        }
        let r = self.scopes.pop();
        proof {
            if env_scopes(old(self)).len() > 0 {
                assert(env_scopes(self) =~= env_scopes(old(self)).drop_last());
            }
        }
        r
    }

    /// Declares `name` in the innermost scope, or in the globals when no
    /// scope is open.  Declaration never fails.
    pub fn define_local(&mut self, name: String, value: Value) -> (r: Result<(), String>)
        ensures
            r is Ok,
            env_scopes(old(self)).len() > 0 ==> env_scopes(final(self)) == env_scopes(
                old(self),
            ).drop_last().push(
                table_set_model(env_scopes(old(self)).last(), name@, value@),
            ) && env_globals(final(self)) == env_globals(old(self)),
            env_scopes(old(self)).len() == 0 ==> env_scopes(final(self)) == env_scopes(old(self))
                && env_globals(final(self)) == table_set_model(
                env_globals(old(self)),
                name@,
                value@,
            ),
    {
        match self.scopes.pop() {
            Some(mut sc) => {
                proof {
                    crate::runtime::lemma_map_values_drop_last(
                        old(self).scopes@,
                        |s: Scope| scope_model(s),
                    );
                }
                table_set(&mut sc.variables, name, value);
                proof {
                    crate::runtime::lemma_map_values_push(
                        self.scopes@,
                        |s: Scope| scope_model(s),
                        sc,
                    );
                }
                self.scopes.push(sc);
                proof {
                    assert(env_scopes(self) =~= env_scopes(old(self)).drop_last().push(
                        table_set_model(env_scopes(old(self)).last(), name@, value@),
                    ));
                }
                Ok(())
            },
            None => {
                table_set(&mut self.global_scope, name, value);
                Ok(())
            },
        }
    }

    /// Binds `name` in the global scope.
    pub fn define_global(&mut self, name: String, value: Value)
        ensures
            env_scopes(final(self)) == env_scopes(old(self)),
            env_globals(final(self)) == table_set_model(env_globals(old(self)), name@, value@),
    {
        table_set(&mut self.global_scope, name, value);
    }

    /// Reads `name`, searching the innermost scope outward and falling
    /// back to the globals.
    pub fn get(&self, name: &str) -> (r: Option<Value>)
        ensures
            ({
                let found = match scopes_find(env_scopes(self), name@) {
                    Some(v) => Some(v),
                    None => table_find_model(env_globals(self), name@),
                };
                match r {
                    Some(v) => found == Some(v@),
                    None => found is None,
                }
            }),
    {
        let needle = string_from(name);
        let ghost ms = env_scopes(self);
        let n = self.scopes.len();
        let mut i: usize = n;
        proof {
            assert(ms.subrange(0, n as int) =~= ms);
        }
        while i > 0
            invariant
                n == self.scopes@.len(),
                i <= n,
                needle@ == name@,
                ms == env_scopes(self),
                ms.len() == n,
                scopes_find(ms, name@) == scopes_find(ms.subrange(0, i as int), name@),
            decreases i,
        {
            let ghost p = ms.subrange(0, i as int);
            proof {
                assert(p.last() == ms[i - 1]);
                assert(ms[i - 1] == scope_model(self.scopes@[i - 1]));
                assert(p.drop_last() =~= ms.subrange(0, i - 1));
            }
            match table_find(&self.scopes[i - 1].variables, &needle) {
                Some(v) => {
                    return Some(v);
                },
                None => {},
            }
            i -= 1;
        }
        proof {
            assert(ms.subrange(0, 0).len() == 0);
        }
        table_find(&self.global_scope, &needle)
    }

    /// Assigns to `name` in the innermost scope that already binds it;
    /// otherwise binds it in the globals (creating it if new).
    /// Assignment never fails.
    pub fn set(&mut self, name: &str, value: Value) -> (r: Result<(), String>)
        ensures
            r is Ok,
            ({
                let ms = env_scopes(old(self));
                match scopes_assign(ms, name@, value@) {
                    Some(target) => env_scopes(final(self)) == target && env_globals(final(self))
                        == env_globals(old(self)),
                    None => env_scopes(final(self)) == ms && env_globals(final(self))
                        == table_set_model(env_globals(old(self)), name@, value@),
                }
            }),
    {
        let needle = string_from(name);
        let found = assign_in_scopes(&mut self.scopes, &needle, &value);
        if !found {
            table_set(&mut self.global_scope, needle, value);
        }
        Ok(())
    }

    /// Reads `name` from the innermost scope only.
    pub fn get_local(&self, name: &str) -> (r: Option<Value>)
        ensures
            ({
                let found = if env_scopes(self).len() > 0 {
                    table_find_model(env_scopes(self).last(), name@)
                } else {
                    None
                };
                match r {
                    Some(v) => found == Some(v@),
                    None => found is None,
                }
            }),
    {
        let n = self.scopes.len();
        if n > 0 {
            let needle = string_from(name);
            proof {
                assert(env_scopes(self).last() == scope_model(self.scopes@[n - 1]));
            }
            table_find(&self.scopes[n - 1].variables, &needle)
        } else {
            None
        }
    }

    /// Binds `name` in the innermost scope; fails when no scope is open.
    pub fn set_local(&mut self, name: &str, value: Value) -> (r: Result<(), String>)
        ensures
            env_globals(final(self)) == env_globals(old(self)),
            env_scopes(old(self)).len() > 0 ==> r is Ok && env_scopes(final(self)) == env_scopes(
                old(self),
            ).drop_last().push(table_set_model(env_scopes(old(self)).last(), name@, value@)),
            env_scopes(old(self)).len() == 0 ==> r is Err && env_scopes(final(self)) == env_scopes(
                old(self),
            ),
    {
        match self.scopes.pop() {
            Some(mut sc) => {
                proof {
                    crate::runtime::lemma_map_values_drop_last(
                        old(self).scopes@,
                        |s: Scope| scope_model(s),
                    );
                }
                table_set(&mut sc.variables, string_from(name), value);
                proof {
                    crate::runtime::lemma_map_values_push(
                        self.scopes@,
                        |s: Scope| scope_model(s),
                        sc,
                    );
                }
                self.scopes.push(sc);
                proof {
                    assert(env_scopes(self) =~= env_scopes(old(self)).drop_last().push(
                        table_set_model(env_scopes(old(self)).last(), name@, value@),
                    ));
                }
                Ok(())
            },
            None => Err(string_from("No local scope available")),
        }
    }

    /// How many scopes are open.
    pub fn scope_depth(&self) -> (r: usize)
        ensures
            r == env_scopes(self).len(),
    {
        self.scopes.len()
    }

    /// Whether only the global scope remains.
    pub fn is_global_scope(&self) -> (r: bool)
        ensures
            r == (env_scopes(self).len() == 0),
    {
        self.scopes.len() == 0
    }

    /// A copy of the innermost scope's bindings (empty with no scope).
    pub fn get_all_locals(&self) -> (r: Vec<(String, Value)>)
        ensures
            env_scopes(self).len() > 0 ==> table_model(r@) == env_scopes(self).last(),
            env_scopes(self).len() == 0 ==> r@.len() == 0,
    {
        let n = self.scopes.len();
        if n > 0 {
            proof {
                assert(env_scopes(self).last() == scope_model(self.scopes@[n - 1]));
            }
            clone_entries(&self.scopes[n - 1].variables)
        } else {
            Vec::new()
        }
    }

    /// The global bindings.
    pub fn get_globals(&self) -> (r: &Vec<(String, Value)>)
        ensures
            table_model(r@) == env_globals(self),
    {
        &self.global_scope
    }

    /// Writes a human-readable dump of the environment to standard
    /// output.
    pub fn print_environment(&self) {
        let mut text = string_from("=== Environment Debug ===\n");
        let mut k: usize = 0;
        let gn = self.global_scope.len();
        while k < gn
            invariant
                gn == self.global_scope@.len(),
                k <= gn,
            decreases gn - k,
        {
            push_str_all(&mut text, &self.global_scope[k].0);
            crate::error::push_str_slice(&mut text, ": ");
            let d = self.global_scope[k].1.to_display_string();
            push_str_all(&mut text, &d);
            crate::error::push_str_slice(&mut text, "\n");
            k += 1;
        }
        crate::error::push_str_slice(&mut text, "========================\n");
        write_stdout(text.as_str());
    }
}

/// Copies a table's entry list, entry by entry.
fn clone_entries(entries: &Vec<(String, Value)>) -> (r: Vec<(String, Value)>)
    ensures
        table_model(r@) == table_model(entries@),
{
    let mut out: Vec<(String, Value)> = Vec::new();
    let n = entries.len();
    let mut i: usize = 0;
    while i < n
        invariant
            n == entries@.len(),
            i <= n,
            out@.len() == i,
            forall|j: int|
                0 <= j < i ==> (#[trigger] out@[j]).0@ == entries@[j].0@ && out@[j].1@
                    == entries@[j].1@,
        decreases n - i,
    {
        let key = clone_string(&entries[i].0);
        let val = clone_value(&entries[i].1);
        out.push((key, val));
        i += 1;
    }
    proof {
        lemma_table_model(out@);
        lemma_table_model(entries@);
        assert(table_model(out@) =~= table_model(entries@));
    }
    out
}

/// Per-function compilation bookkeeping: captured variables and declared
/// parameters.
pub struct FunctionEnvironment {
    pub captures: Vec<(String, Value)>,
    pub parameters: Vec<String>,
    pub local_count: usize,
}

/// The position of the first parameter named `name`, if any.
pub open spec fn param_index(params: Seq<Seq<char>>, name: Seq<char>) -> Option<int>
    decreases params.len(),
{
    if params.len() == 0 {
        None
    } else if params[0] == name {
        Some(0)
    } else {
        match param_index(params.subrange(1, params.len() as int), name) {
            Some(i) => Some(i + 1),
            None => None,
        }
    }
}

proof fn lemma_param_index_char(params: Seq<Seq<char>>, name: Seq<char>)
    ensures
        match param_index(params, name) {
            Some(i) => 0 <= i < params.len() && params[i] == name && (forall|k: int|
                0 <= k < i ==> params[k] != name),
            None => forall|k: int| 0 <= k < params.len() ==> params[k] != name,
        },
    decreases params.len(),
{
    if params.len() > 0 && params[0] != name {
        let tail = params.subrange(1, params.len() as int);
        lemma_param_index_char(tail, name);
        assert forall|k: int| 1 <= k < params.len() implies params[k] == tail[k - 1] by {}
    }
}

impl FunctionEnvironment {
    /// Bookkeeping for a function with the given parameters.
    pub fn new(parameters: Vec<String>) -> (r: Self)
        ensures
            r.captures@.len() == 0,
            r.parameters == parameters,
            r.local_count == 0,
    {
        FunctionEnvironment { captures: Vec::new(), parameters, local_count: 0 }
    }

    /// Records a captured variable.
    pub fn capture_variable(&mut self, name: String, value: Value)
        ensures
            table_model(final(self).captures@) == table_set_model(
                table_model(old(self).captures@),
                name@,
                value@,
            ),
            final(self).parameters == old(self).parameters,
            final(self).local_count == old(self).local_count,
    {
        table_set(&mut self.captures, name, value);
    }

    /// The slot of the parameter named `name`, if declared.
    pub fn get_parameter_index(&self, name: &str) -> (r: Option<usize>)
        ensures
            ({
                let ps = self.parameters@.map_values(|s: String| s@);
                match r {
                    Some(i) => param_index(ps, name@) == Some(i as int),
                    None => param_index(ps, name@) is None,
                }
            }),
    {
        proof {
            lemma_param_index_char(self.parameters@.map_values(|s: String| s@), name@);
        }
        let needle = string_from(name);
        let n = self.parameters.len();
        let mut i: usize = 0;
        while i < n
            invariant
                n == self.parameters@.len(),
                i <= n,
                needle@ == name@,
                forall|k: int| 0 <= k < i ==> (#[trigger] self.parameters@[k])@ != name@,
                ({
                    let ps = self.parameters@.map_values(|s: String| s@);
                    match param_index(ps, name@) {
                        Some(j) => 0 <= j < n && ps[j] == name@ && (forall|k: int|
                            0 <= k < j ==> ps[k] != name@),
                        None => forall|k: int| 0 <= k < n ==> ps[k] != name@,
                    }
                }),
            decreases n - i,
        {
            if self.parameters[i].eq(&needle) {
                proof {
                    assert(self.parameters@.map_values(|s: String| s@)[i as int] == name@);
                    let ps = self.parameters@.map_values(|s: String| s@);
                    assert forall|k: int| 0 <= k < i implies ps[k] != name@ by {
                        assert(ps[k] == self.parameters@[k]@);
                    }
                }
                return Some(i);
            }
            i += 1;
        }
        proof {
            let ps = self.parameters@.map_values(|s: String| s@);
            assert forall|k: int| 0 <= k < n implies ps[k] != name@ by {
                assert(ps[k] == self.parameters@[k]@);
            }
        }
        None
    }

    /// Whether `name` is a declared parameter.
    pub fn is_parameter(&self, name: &str) -> (r: bool)
        ensures
            r == (param_index(self.parameters@.map_values(|s: String| s@), name@) is Some),
    {
        proof {
            lemma_param_index_char(self.parameters@.map_values(|s: String| s@), name@);
        }
        match self.get_parameter_index(name) {
            Some(_) => true,
            None => false,
        }
    }
}

/// A stack of whole environments, with one current.
pub struct EnvironmentManager {
    environments: Vec<Environment>,
    current: usize,
}

/// The manager always has a current environment to hand out.
pub closed spec fn manager_wf(m: &EnvironmentManager) -> bool {
    m.environments@.len() > 0 && m.current == m.environments@.len() - 1
}

impl EnvironmentManager {
    /// A manager holding one fresh environment.
    pub fn new() -> (r: Self)
        ensures
            manager_wf(&r),
    {
        let mut environments: Vec<Environment> = Vec::new();
        environments.push(Environment::new());
        EnvironmentManager { environments, current: 0 }
    }

    /// The current environment.
    pub fn current_env(&self) -> (r: &Environment)
        requires
            manager_wf(self),
    {
        &self.environments[self.current]
    }

    /// Duplicates the current environment's globals into a fresh current
    /// environment and returns its index.
    pub fn push_environment(&mut self) -> (r: usize)
        requires
            manager_wf(old(self)),
        ensures
            manager_wf(final(self)),
    {
        let n = self.environments.len();
        let mut env = Environment::new();
        let globals = clone_entries(&self.environments[n - 1].global_scope);
        env.global_scope = globals;
        self.environments.push(env);
        self.current = self.environments.len() - 1;
        self.current
    }

    /// Discards the current environment, handing it back; the outermost
    /// environment always remains.
    pub fn pop_environment(&mut self) -> (r: Option<Environment>)
        requires
            manager_wf(old(self)),
        ensures
            manager_wf(final(self)),
    {
        if self.current > 0 {
            let env = self.environments.pop();
            self.current = self.environments.len() - 1;
            env
        } else {
            None
        }
    }

    /// Opens a new scope in the current environment.
    pub fn push_scope(&mut self)
        requires
            manager_wf(old(self)),
        ensures
            manager_wf(final(self)),
    {
        match self.environments.pop() {
            Some(mut env) => {
                let _ = env.push_scope();
                self.environments.push(env);
            },
            None => {
                proof {
                    assert(false);
                }
            },
        }
    }
}

} // verus!
