//! The function registry: qualified names mapped to the numeric ids the
//! bytecode uses in `Call` instructions.  The callbacks themselves live
//! in the `stdlib` module and are dispatched by id.

use vstd::prelude::*;
use crate::value::{Value, clone_string, string_from};

verus! {

/// The registered names, in registration order; a function's id is its
/// position in this sequence.
pub open spec fn registry_names() -> Seq<Seq<char>> {
    seq![
        "print"@,
        "type"@,
        "tostring"@,
        "tonumber"@,
        "pairs"@,
        "ipairs"@,
        "next"@,
        "rawget"@,
        "rawset"@,
        "getmetatable"@,
        "setmetatable"@,
        "pcall"@,
        "xpcall"@,
        "error"@,
        "assert"@,
        "string.len"@,
        "string.sub"@,
        "string.upper"@,
        "string.lower"@,
        "string.char"@,
        "string.byte"@,
        "string.find"@,
        "string.gsub"@,
        "math.abs"@,
        "math.ceil"@,
        "math.floor"@,
        "math.max"@,
        "math.min"@,
        "math.sqrt"@,
        "math.sin"@,
        "math.cos"@,
        "math.tan"@,
        "math.pi"@,
        "math.random"@,
        "table.insert"@,
        "table.remove"@,
        "table.concat"@,
        "table.sort"@,
        "io.write"@,
        "io.read"@,
    ]
}

/// The position of the first name equal to `name`, if any.
pub open spec fn name_index(names: Seq<Seq<char>>, name: Seq<char>) -> Option<int>
    decreases names.len(),
{
    if names.len() == 0 {
        None
    } else if names[0] == name {
        Some(0)
    } else {
        match name_index(names.subrange(1, names.len() as int), name) {
            Some(i) => Some(i + 1),
            None => None,
        }
    }
}

/// The id the registry gives a qualified name.
pub open spec fn registry_lookup(name: Seq<char>) -> Option<int> {
    name_index(registry_names(), name)
}

pub proof fn lemma_name_index_char(names: Seq<Seq<char>>, name: Seq<char>)
    ensures
        match name_index(names, name) {
            Some(i) => 0 <= i < names.len() && names[i] == name && (forall|k: int|
                0 <= k < i ==> names[k] != name),
            None => forall|k: int| 0 <= k < names.len() ==> names[k] != name,
        },
    decreases names.len(),
{
    if names.len() > 0 && names[0] != name {
        let tail = names.subrange(1, names.len() as int);
        lemma_name_index_char(tail, name);
        assert forall|k: int| 1 <= k < names.len() implies names[k] == tail[k - 1] by {}
    }
}

/// The standard-library function registry.
pub struct StandardLibrary {
    function_names: Vec<String>,
}

impl View for StandardLibrary {
    type V = Seq<Seq<char>>;

    closed spec fn view(&self) -> Seq<Seq<char>> {
        self.function_names@.map_values(|s: String| s@)
    }
}

impl StandardLibrary {
    /// The full registry: core, string, math, table and io functions, in
    /// the order that fixes their ids.
    pub fn new() -> (r: Self)
        ensures
            r@ == registry_names(),
    {
        let mut names: Vec<String> = Vec::new();
        names.push(string_from("print"));
        names.push(string_from("type"));
        names.push(string_from("tostring"));
        names.push(string_from("tonumber"));
        names.push(string_from("pairs"));
        names.push(string_from("ipairs"));
        names.push(string_from("next"));
        names.push(string_from("rawget"));
        names.push(string_from("rawset"));
        names.push(string_from("getmetatable"));
        names.push(string_from("setmetatable"));
        names.push(string_from("pcall"));
        names.push(string_from("xpcall"));
        names.push(string_from("error"));
        names.push(string_from("assert"));
        names.push(string_from("string.len"));
        names.push(string_from("string.sub"));
        names.push(string_from("string.upper"));
        names.push(string_from("string.lower"));
        names.push(string_from("string.char"));
        names.push(string_from("string.byte"));
        names.push(string_from("string.find"));
        names.push(string_from("string.gsub"));
        names.push(string_from("math.abs"));
        names.push(string_from("math.ceil"));
        names.push(string_from("math.floor"));
        names.push(string_from("math.max"));
        names.push(string_from("math.min"));
        names.push(string_from("math.sqrt"));
        names.push(string_from("math.sin"));
        names.push(string_from("math.cos"));
        names.push(string_from("math.tan"));
        names.push(string_from("math.pi"));
        names.push(string_from("math.random"));
        names.push(string_from("table.insert"));
        names.push(string_from("table.remove"));
        names.push(string_from("table.concat"));
        names.push(string_from("table.sort"));
        names.push(string_from("io.write"));
        names.push(string_from("io.read"));
        let r = StandardLibrary { function_names: names };
        proof {
            assert(r@ =~= registry_names());
        }
        r
    }

    /// Looks a function up by its qualified name, yielding its id.
    pub fn get_function(&self, name: &str) -> (r: Option<usize>)
        ensures
            match r {
                Some(id) => name_index(self@, name@) == Some(id as int),
                None => name_index(self@, name@) is None,
            },
    {
        proof {
            lemma_name_index_char(self@, name@);
        }
        let needle = string_from(name);
        let n = self.function_names.len();
        let mut i: usize = 0;
        while i < n
            invariant
                n == self.function_names@.len(),
                i <= n,
                needle@ == name@,
                forall|k: int| 0 <= k < i ==> self@[k] != name@,
                match name_index(self@, name@) {
                    Some(j) => 0 <= j < n && self@[j] == name@ && (forall|k: int|
                        0 <= k < j ==> self@[k] != name@),
                    None => forall|k: int| 0 <= k < n ==> self@[k] != name@,
                },
            decreases n - i,
        {
            if self.function_names[i].eq(&needle) {
                proof {
                    assert(self@[i as int] == name@);
                }
                return Some(i);
            }
            i += 1;
        }
        None
    }

    /// Whether a native callback exists for this id; the dispatch itself
    /// is `stdlib::call_builtin`.
    pub fn get_function_by_id(&self, id: usize) -> (r: bool)
        ensures
            r == (id < self@.len()),
    {
        id < self.function_names.len()
    }

    /// The registered name of an id.
    pub fn get_function_name(&self, id: usize) -> (r: Option<&str>)
        ensures
            match r {
                Some(s) => id < self@.len() && s@ == self@[id as int],
                None => id >= self@.len(),
            },
    {
        if id < self.function_names.len() {
            Some(self.function_names[id].as_str())
        } else {
            None
        }
    }

    /// Every registered function as a name/function-reference pair.
    pub fn get_all_functions(&self) -> (r: Vec<(String, Value)>)
        ensures
            r@.len() == self@.len(),
            forall|i: int|
                0 <= i < r@.len() ==> (#[trigger] r@[i]).0@ == self@[i] && r@[i].1
                    == Value::Function(i as usize),
    {
        let mut out: Vec<(String, Value)> = Vec::new();
        let n = self.function_names.len();
        let mut i: usize = 0;
        while i < n
            invariant
                n == self.function_names@.len(),
                i <= n,
                out@.len() == i,
                forall|k: int|
                    0 <= k < i ==> (#[trigger] out@[k]).0@ == self@[k] && out@[k].1
                        == Value::Function(k as usize),
            decreases n - i,
        {
            out.push((clone_string(&self.function_names[i]), Value::Function(i)));
            i += 1;
        }
        out
    }
}

} // verus!
