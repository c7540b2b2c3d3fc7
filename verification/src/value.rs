//! Runtime values: a tagged union of the dynamic types the engine
//! manipulates, together with truthiness, numeric coercion and the
//! decimal rendering used by concatenation and `print`.

use vstd::prelude::*;
use vstd::std_specs::iter::IteratorSpec;

verus! {

broadcast use vstd::string::next_postcondition, vstd::string::axiom_spec_iter, vstd::std_specs::vec::group_vec_axioms;

/// A runtime value.
///
/// Numbers are integer-valued (exact 64-bit signed arithmetic).  A table is
/// an insertion-ordered list of string-keyed entries.  A function is an
/// opaque integer naming a registry entry.
#[derive(Debug, PartialEq)]
pub enum Value {
    Nil,
    Boolean(bool),
    Number(i64),
    Str(String),
    Table(Vec<(String, Value)>),
    Function(usize),
}

/// The mathematical model of a [`Value`]: strings become character
/// sequences and tables become sequences of key/value pairs, so that
/// contracts can state deep structural facts.
#[verifier::ext_equal]
pub enum ValueModel {
    Nil,
    Boolean(bool),
    Number(i64),
    Str(Seq<char>),
    Table(Seq<(Seq<char>, ValueModel)>),
    Function(usize),
}

pub open spec fn value_model(v: Value) -> ValueModel
    decreases v,
{
    match v {
        Value::Nil => ValueModel::Nil,
        Value::Boolean(b) => ValueModel::Boolean(b),
        Value::Number(n) => ValueModel::Number(n),
        Value::Str(s) => ValueModel::Str(s@),
        Value::Table(entries) => ValueModel::Table(table_model(entries@)),
        Value::Function(id) => ValueModel::Function(id),
    }
}

pub open spec fn table_model(s: Seq<(String, Value)>) -> Seq<(Seq<char>, ValueModel)>
    decreases s,
{
    if s.len() == 0 {
        Seq::empty()
    } else {
        table_model(s.subrange(0, s.len() - 1)).push((s.last().0@, value_model(s.last().1)))
    }
}

/// Pointwise reading of [`table_model`].
pub broadcast proof fn lemma_table_model(s: Seq<(String, Value)>)
    ensures
        (#[trigger] table_model(s)).len() == s.len(),
        forall|i: int|
            0 <= i < s.len() ==> #[trigger] table_model(s)[i] == (s[i].0@, value_model(s[i].1)),
    decreases s.len(),
{
    if s.len() > 0 {
        lemma_table_model(s.subrange(0, s.len() - 1));
    }
}

impl View for Value {
    type V = ValueModel;

    open spec fn view(&self) -> ValueModel {
        value_model(*self)
    }
}

/// Truthiness: nil and false are falsy; every other value is truthy.
pub open spec fn truthy(v: ValueModel) -> bool {
    match v {
        ValueModel::Nil => false,
        ValueModel::Boolean(b) => b,
        _ => true,
    }
}

pub open spec fn kind_name_spec(v: ValueModel) -> Seq<char> {
    match v {
        ValueModel::Nil => "nil"@,
        ValueModel::Boolean(_) => "boolean"@,
        ValueModel::Number(_) => "number"@,
        ValueModel::Str(_) => "string"@,
        ValueModel::Table(_) => "table"@,
        ValueModel::Function(_) => "function"@,
    }
}

/// Numeric coercion: numbers pass through and strings are parsed as
/// decimal integers; every other value has no numeric reading.
pub open spec fn to_number_spec(v: ValueModel) -> Option<i64> {
    match v {
        ValueModel::Number(n) => Some(n),
        ValueModel::Str(s) => str_to_i64_spec(s),
        _ => None,
    }
}

/// The rendering used by `print`, concatenation and `tostring`.
pub open spec fn display_spec(v: ValueModel) -> Seq<char> {
    match v {
        ValueModel::Nil => "nil"@,
        ValueModel::Boolean(b) => if b {
            "true"@
        } else {
            "false"@
        },
        ValueModel::Number(n) => int_to_seq(n as int),
        ValueModel::Str(s) => s,
        ValueModel::Table(_) => "table"@,
        ValueModel::Function(id) => "function:"@ + nat_to_seq(id as int),
    }
}

impl Value {
    /// The name of this value's dynamic type.
    pub fn kind_name(&self) -> (r: &'static str)
        ensures
            r@ == kind_name_spec(self@),
    {
        match self {
            Value::Nil => "nil",
            Value::Boolean(_) => "boolean",
            Value::Number(_) => "number",
            Value::Str(_) => "string",
            Value::Table(_) => "table",
            Value::Function(_) => "function",
        }
    }

    /// Truthiness test used by conditionals and the logical operators.
    pub fn is_truthy(&self) -> (r: bool)
        ensures
            r == truthy(self@),
    {
        match self {
            Value::Nil => false,
            Value::Boolean(b) => *b,
            _ => true,
        }
    }

    /// Numeric coercion: numbers pass through; strings attempt a decimal
    /// integer parse; anything else yields `None`.
    pub fn to_number(&self) -> (r: Option<i64>)
        ensures
            r == to_number_spec(self@),
    {
        match self {
            Value::Number(n) => Some(*n),
            Value::Str(s) => parse_i64(s.as_str()),
            _ => None,
        }
    }

    /// Renders this value as text, as `print` and concatenation do.
    /// Numbers render in decimal, tables as `table`, functions as
    /// `function:<id>`.
    pub fn to_display_string(&self) -> (r: String)
        ensures
            r@ == display_spec(self@),
    {
        match self {
            Value::Nil => string_from("nil"),
            Value::Boolean(b) => {
                if *b {
                    string_from("true")
                } else {
                    string_from("false")
                }
            },
            Value::Number(n) => int_to_string(*n),
            Value::Str(s) => clone_string(s),
            Value::Table(_) => string_from("table"),
            Value::Function(id) => {
                let mut out = string_from("function:");
                push_usize_digits(&mut out, *id);
                out
            },
        }
    }
}

/// Deep copy of a value; the copy has the same model.
pub fn clone_value(v: &Value) -> (r: Value)
    ensures
        r@ == v@,
    decreases v,
{
    match v {
        Value::Nil => Value::Nil,
        Value::Boolean(b) => Value::Boolean(*b),
        Value::Number(n) => Value::Number(*n),
        Value::Str(s) => Value::Str(clone_string(s)),
        Value::Table(entries) => {
            let mut out: Vec<(String, Value)> = Vec::new();
            let n = entries.len();
            let mut i: usize = 0;
            while i < n
                invariant
                    *v == Value::Table(*entries),
                    n == entries@.len(),
                    i <= n,
                    out@.len() == i,
                    forall|j: int|
                        0 <= j < i ==> (#[trigger] out@[j]).0@ == entries@[j].0@ && out@[j].1@
                            == entries@[j].1@,
                decreases n - i,
            {
                proof {
                    assert(decreases_to!(*v => v->Table_0@[i as int].1));
                    assert(v->Table_0@[i as int].1 == entries@[i as int].1);
                }
                let key = clone_string(&entries[i].0);
                let val = clone_value(&entries[i].1);
                out.push((key, val));
                i += 1;
            }
            proof {
                let lhs = value_model(Value::Table(out));
                let rhs = value_model(*v);
                lemma_table_model(out@);
                lemma_table_model(entries@);
                assert forall|j: int| 0 <= j < entries@.len() implies lhs->Table_0[j]
                    == rhs->Table_0[j] by {
                    assert(out@[j].0@ == entries@[j].0@);
                    assert(value_model(out@[j].1) == value_model(entries@[j].1));
                }
                assert(lhs->Table_0 =~= rhs->Table_0);
                assert(lhs =~= rhs);
            }
            Value::Table(out)
        },
        Value::Function(id) => Value::Function(*id),
    }
}

impl Clone for Value {
    /// Deep copy; the clone has the same model as the original.
    fn clone(&self) -> (r: Self)
        ensures
            r@ == self@,
    {
        clone_value(self)
    }
}

/// Structural equality of two values: by content for strings, by
/// identity for function references, and entry-wise, position by
/// position, for tables.  With the entry-list table model the insertion
/// order is part of the value, so two tables built from the same
/// mapping in different orders compare unequal; the language itself
/// offers no table constructor (`NewTable` has no lowering), so table
/// operands never reach the equality operators from a program.
pub fn eq_value(a: &Value, b: &Value) -> (r: bool)
    ensures
        r == (a@ == b@),
    decreases a,
{
    match (a, b) {
        (Value::Nil, Value::Nil) => {
            proof {
                assert(a@ == b@);
            }
            true
        },
        (Value::Boolean(x), Value::Boolean(y)) => {
            let r = *x == *y;
            proof {
                assert(r == (a@ == b@));
            }
            r
        },
        (Value::Number(x), Value::Number(y)) => {
            let r = *x == *y;
            proof {
                assert(r == (a@ == b@));
            }
            r
        },
        (Value::Str(x), Value::Str(y)) => {
            let r = x.eq(y);
            proof {
                assert(r == (a@ == b@));
            }
            r
        },
        (Value::Table(x), Value::Table(y)) => {
            if x.len() != y.len() {
                proof {
                    lemma_table_model(x@);
                    lemma_table_model(y@);
                    assert(a@->Table_0.len() != b@->Table_0.len());
                }
                false
            } else {
                let n = x.len();
                let mut i: usize = 0;
                while i < n
                    invariant
                        n == x@.len(),
                        n == y@.len(),
                        i <= n,
                        *a == Value::Table(*x),
                        *b == Value::Table(*y),
                        forall|j: int|
                            0 <= j < i ==> (#[trigger] x@[j]).0@ == y@[j].0@ && x@[j].1@
                                == y@[j].1@,
                    decreases n - i,
                {
                    proof {
                        assert(decreases_to!(*a => a->Table_0@[i as int].1));
                        assert(a->Table_0@[i as int].1 == x@[i as int].1);
                    }
                    let keys_eq = x[i].0.eq(&y[i].0);
                    let vals_eq = eq_value(&x[i].1, &y[i].1);
                    if !(keys_eq && vals_eq) {
                        proof {
                            let sa = a@->Table_0;
                            let sb = b@->Table_0;
                            lemma_table_model(x@);
                            lemma_table_model(y@);
                            assert(sa[i as int] == (x@[i as int].0@, value_model(x@[i as int].1)));
                            assert(sb[i as int] == (y@[i as int].0@, value_model(y@[i as int].1)));
                            assert(sa[i as int] != sb[i as int]);
                            assert(a@ != b@);
                        }
                        return false;
                    }
                    i += 1;
                }
                proof {
                    let sa = a@->Table_0;
                    let sb = b@->Table_0;
                    lemma_table_model(x@);
                    lemma_table_model(y@);
                    assert forall|j: int| 0 <= j < n implies sa[j] == sb[j] by {
                        assert(x@[j].0@ == y@[j].0@);
                        assert(value_model(x@[j].1) == value_model(y@[j].1));
                    }
                    assert(sa =~= sb);
                    assert(a@ =~= b@);
                }
                true
            }
        },
        (Value::Function(x), Value::Function(y)) => {
            let r = *x == *y;
            proof {
                assert(r == (a@ == b@));
            }
            r
        },
        _ => {
            proof {
                assert(a@ != b@);
            }
            false
        },
    }
}

// ---------------------------------------------------------------------------
// Table access
// ---------------------------------------------------------------------------

/// The value at string key `k`, first entry with that key winning;
/// nil when the key is absent.
pub open spec fn table_get_model(s: Seq<(Seq<char>, ValueModel)>, k: Seq<char>) -> ValueModel
    decreases s.len(),
{
    if s.len() == 0 {
        ValueModel::Nil
    } else if s[0].0 == k {
        s[0].1
    } else {
        table_get_model(s.subrange(1, s.len() as int), k)
    }
}

/// The table with `k` bound to `v`: the first entry with key `k` is
/// replaced, or a new entry is appended.
pub open spec fn table_set_model(
    s: Seq<(Seq<char>, ValueModel)>,
    k: Seq<char>,
    v: ValueModel,
) -> Seq<(Seq<char>, ValueModel)>
    decreases s.len(),
{
    if s.len() == 0 {
        seq![(k, v)]
    } else if s[0].0 == k {
        seq![(k, v)] + s.subrange(1, s.len() as int)
    } else {
        seq![s[0]] + table_set_model(s.subrange(1, s.len() as int), k, v)
    }
}

/// The entry at string key `k`, first entry with that key winning;
/// unlike [`table_get_model`], an absent key is told apart from an
/// entry holding nil.
pub open spec fn table_find_model(s: Seq<(Seq<char>, ValueModel)>, k: Seq<char>) -> Option<
    ValueModel,
>
    decreases s.len(),
{
    if s.len() == 0 {
        None
    } else if s[0].0 == k {
        Some(s[0].1)
    } else {
        table_find_model(s.subrange(1, s.len() as int), k)
    }
}

/// Looks a string key up in a table's entry list, telling an absent key
/// apart from an entry holding nil.
pub fn table_find(entries: &Vec<(String, Value)>, key: &String) -> (r: Option<Value>)
    ensures
        match r {
            Some(v) => table_find_model(table_model(entries@), key@) == Some(v@),
            None => table_find_model(table_model(entries@), key@) is None,
        },
{
    let ghost m = table_model(entries@);
    proof {
        lemma_table_model(entries@);
        assert(m.subrange(0, m.len() as int) =~= m);
    }
    let n = entries.len();
    let mut i: usize = 0;
    while i < n
        invariant
            n == entries@.len(),
            i <= n,
            m == table_model(entries@),
            m.len() == n,
            table_find_model(m, key@) == table_find_model(m.subrange(i as int, n as int), key@),
            forall|j: int| 0 <= j < n ==> #[trigger] m[j] == (entries@[j].0@, entries@[j].1@),
        decreases n - i,
    {
        let ghost tail = m.subrange(i as int, n as int);
        proof {
            assert(tail[0] == m[i as int]);
        }
        if entries[i].0.eq(key) {
            let r = clone_value(&entries[i].1);
            proof {
                assert(table_find_model(tail, key@) == Some(m[i as int].1));
            }
            return Some(r);
        }
        proof {
            assert(tail.subrange(1, tail.len() as int) =~= m.subrange(i + 1, n as int));
        }
        i += 1;
    }
    proof {
        assert(m.subrange(n as int, n as int).len() == 0);
    }
    None
}

/// Reads the value at string key `key` out of a table's entry list.
pub fn table_get(entries: &Vec<(String, Value)>, key: &String) -> (r: Value)
    ensures
        r@ == table_get_model(table_model(entries@), key@),
{
    let ghost m = table_model(entries@);
    proof {
        lemma_table_model(entries@);
        assert(m.subrange(0, m.len() as int) =~= m);
    }
    let n = entries.len();
    let mut i: usize = 0;
    while i < n
        invariant
            n == entries@.len(),
            i <= n,
            m == table_model(entries@),
            m.len() == n,
            table_get_model(m, key@) == table_get_model(m.subrange(i as int, n as int), key@),
            forall|j: int| 0 <= j < n ==> #[trigger] m[j] == (entries@[j].0@, entries@[j].1@),
        decreases n - i,
    {
        let ghost tail = m.subrange(i as int, n as int);
        proof {
            assert(tail[0] == m[i as int]);
        }
        if entries[i].0.eq(key) {
            let r = clone_value(&entries[i].1);
            proof {
                assert(table_get_model(tail, key@) == m[i as int].1);
            }
            return r;
        }
        proof {
            assert(tail.subrange(1, tail.len() as int) =~= m.subrange(i + 1, n as int));
        }
        i += 1;
    }
    proof {
        assert(m.subrange(n as int, n as int).len() == 0);
    }
    Value::Nil
}

/// When the first entry keyed `k` stands at `i`, binding `k` replaces
/// that entry.
pub proof fn lemma_table_set_at(s: Seq<(Seq<char>, ValueModel)>, k: Seq<char>, v: ValueModel, i: int)
    requires
        0 <= i < s.len(),
        s[i].0 == k,
        forall|j: int| 0 <= j < i ==> (#[trigger] s[j]).0 != k,
    ensures
        table_set_model(s, k, v) =~= s.update(i, (k, v)),
    decreases s.len(),
{
    if i == 0 {
        assert(seq![(k, v)] + s.subrange(1, s.len() as int) =~= s.update(0, (k, v)));
    } else {
        let tail = s.subrange(1, s.len() as int);
        assert(tail[i - 1].0 == k);
        assert forall|j: int| 0 <= j < i - 1 implies (#[trigger] tail[j]).0 != k by {
            assert(tail[j] == s[j + 1]);
        }
        lemma_table_set_at(tail, k, v, i - 1);
        assert(seq![s[0]] + tail.update(i - 1, (k, v)) =~= s.update(i, (k, v)));
    }
}

/// When no entry is keyed `k`, binding `k` appends a new entry.
pub proof fn lemma_table_set_absent(s: Seq<(Seq<char>, ValueModel)>, k: Seq<char>, v: ValueModel)
    requires
        forall|j: int| 0 <= j < s.len() ==> (#[trigger] s[j]).0 != k,
    ensures
        table_set_model(s, k, v) =~= s.push((k, v)),
    decreases s.len(),
{
    if s.len() == 0 {
    } else {
        let tail = s.subrange(1, s.len() as int);
        assert forall|j: int| 0 <= j < tail.len() implies (#[trigger] tail[j]).0 != k by {
            assert(tail[j] == s[j + 1]);
        }
        lemma_table_set_absent(tail, k, v);
        assert(seq![s[0]] + tail.push((k, v)) =~= s.push((k, v)));
    }
}

/// Binds `key` to `val` in a table's entry list: the first entry with
/// that key is replaced, or a new entry is appended.
pub fn table_set(entries: &mut Vec<(String, Value)>, key: String, val: Value)
    ensures
        table_model(final(entries)@) == table_set_model(table_model(old(entries)@), key@, val@),
{
    let ghost m = table_model(entries@);
    proof {
        lemma_table_model(entries@);
    }
    let n = entries.len();
    let mut i: usize = 0;
    while i < n
        invariant
            n == entries@.len(),
            m == table_model(entries@),
            m == table_model(old(entries)@),
            m.len() == n,
            i <= n,
            forall|j: int| 0 <= j < i ==> (#[trigger] m[j]).0 != key@,
            forall|j: int| 0 <= j < n ==> #[trigger] m[j] == (entries@[j].0@, entries@[j].1@),
        decreases n - i,
    {
        if entries[i].0.eq(&key) {
            proof {
                assert(m[i as int].0 == key@);
                lemma_table_set_at(m, key@, val@, i as int);
            }
            entries[i] = (key, val);
            proof {
                lemma_table_model(entries@);
                assert(table_model(entries@) =~= m.update(i as int, (key@, val@)));
            }
            return ;
        }
        i += 1;
    }
    proof {
        lemma_table_set_absent(m, key@, val@);
    }
    entries.push((key, val));
    proof {
        lemma_table_model(entries@);
        assert(table_model(entries@) =~= m.push((key@, val@)));
    }
}

// ---------------------------------------------------------------------------
// String helpers
// ---------------------------------------------------------------------------

/// Relies on `String::push`: appends the given character to the end of the
/// string.
pub assume_specification[ String::push ](s: &mut String, ch: char)
    ensures
        final(s)@ == old(s)@.push(ch),
;

/// Copies a borrowed string slice into an owned string.
pub fn string_from(s: &str) -> (r: String)
    ensures
        r@ == s@,
{
    s.to_owned()
}

/// Copies an owned string.
pub fn clone_string(s: &String) -> (r: String)
    ensures
        r@ == s@,
{
    s.clone()
}

/// Collects the characters of a string slice into a vector.
pub fn str_chars(s: &str) -> (v: Vec<char>)
    ensures
        v@ == s@,
{
    let mut it = s.chars();
    let mut v: Vec<char> = Vec::new();
    loop
        invariant
            it.obeys_prophetic_iter_laws(),
            it.decrease() is Some,
            v@ + it.remaining() == s@,
        ensures
            v@ == s@,
        decreases it.decrease()->0,
    {
        match it.next() {
            Some(c) => {
                v.push(c);
                proof {
                    assert(v@ + it.remaining() =~= s@);
                }
            },
            None => {
                proof {
                    assert(v@ =~= s@);
                }
                break ;
            },
        }
    }
    v
}

// ---------------------------------------------------------------------------
// Decimal rendering
// ---------------------------------------------------------------------------

pub open spec fn digit_char(d: int) -> char
    recommends
        0 <= d <= 9,
{
    if d == 0 {
        '0'
    } else if d == 1 {
        '1'
    } else if d == 2 {
        '2'
    } else if d == 3 {
        '3'
    } else if d == 4 {
        '4'
    } else if d == 5 {
        '5'
    } else if d == 6 {
        '6'
    } else if d == 7 {
        '7'
    } else if d == 8 {
        '8'
    } else {
        '9'
    }
}

/// The decimal digits of a non-negative integer, most significant first.
pub open spec fn nat_to_seq(n: int) -> Seq<char>
    recommends
        n >= 0,
    decreases n,
{
    if n <= 9 {
        seq![digit_char(n)]
    } else {
        nat_to_seq(n / 10).push(digit_char(n % 10))
    }
}

/// The decimal rendering of an integer: a minus sign for negatives,
/// then the digits.
pub open spec fn int_to_seq(n: int) -> Seq<char> {
    if n < 0 {
        seq!['-'] + nat_to_seq(-n)
    } else {
        nat_to_seq(n)
    }
}

fn digit_char_exec(d: u64) -> (c: char)
    requires
        d <= 9,
    ensures
        c == digit_char(d as int),
{
    if d == 0 {
        '0'
    } else if d == 1 {
        '1'
    } else if d == 2 {
        '2'
    } else if d == 3 {
        '3'
    } else if d == 4 {
        '4'
    } else if d == 5 {
        '5'
    } else if d == 6 {
        '6'
    } else if d == 7 {
        '7'
    } else if d == 8 {
        '8'
    } else {
        '9'
    }
}

/// Appends the decimal digits of `m` to `s`.
pub fn push_nat_digits(s: &mut String, m: u64)
    ensures
        final(s)@ == old(s)@ + nat_to_seq(m as int),
    decreases m,
{
    if m <= 9 {
        s.push(digit_char_exec(m));
    } else {
        push_nat_digits(s, m / 10);
        s.push(digit_char_exec(m % 10));
        proof {
            assert(old(s)@ + nat_to_seq((m / 10) as int).push(digit_char((m % 10) as int)) =~= (
            old(s)@ + nat_to_seq((m / 10) as int)).push(digit_char((m % 10) as int)));
        }
    }
}

/// Appends the decimal digits of `m` to `s`.
pub fn push_usize_digits(s: &mut String, m: usize)
    ensures
        final(s)@ == old(s)@ + nat_to_seq(m as int),
{
    push_nat_digits(s, m as u64);
}

/// Renders an integer in decimal.
pub fn int_to_string(n: i64) -> (r: String)
    ensures
        r@ == int_to_seq(n as int),
{
    let mut out = String::new();
    if n < 0 {
        out.push('-');
        let mag: u64 = ((-(n + 1)) as u64) + 1;
        proof {
            assert(mag == -(n as int));
        }
        push_nat_digits(&mut out, mag);
        proof {
            assert(out@ =~= int_to_seq(n as int));
        }
    } else {
        push_nat_digits(&mut out, n as u64);
        proof {
            assert(out@ =~= int_to_seq(n as int));
        }
    }
    out
}

// ---------------------------------------------------------------------------
// Decimal parsing
// ---------------------------------------------------------------------------

pub open spec fn is_digit_char(c: char) -> bool {
    c == '0' || c == '1' || c == '2' || c == '3' || c == '4' || c == '5' || c == '6' || c == '7'
        || c == '8' || c == '9'
}

pub open spec fn digit_val(c: char) -> int {
    if c == '0' {
        0
    } else if c == '1' {
        1
    } else if c == '2' {
        2
    } else if c == '3' {
        3
    } else if c == '4' {
        4
    } else if c == '5' {
        5
    } else if c == '6' {
        6
    } else if c == '7' {
        7
    } else if c == '8' {
        8
    } else {
        9
    }
}

pub open spec fn all_digits(s: Seq<char>) -> bool {
    forall|i: int| 0 <= i < s.len() ==> is_digit_char(#[trigger] s[i])
}

/// The value of a digit string, most significant digit first.
pub open spec fn digits_val(s: Seq<char>) -> int
    decreases s.len(),
{
    if s.len() == 0 {
        0
    } else {
        digits_val(s.drop_last()) * 10 + digit_val(s.last())
    }
}

/// The integer denoted by a string: an optional minus sign followed by
/// one or more decimal digits, whose value fits in a signed 64-bit word.
/// Anything else has no integer reading.
pub open spec fn str_to_i64_spec(s: Seq<char>) -> Option<i64> {
    if s.len() > 0 && s[0] == '-' {
        let d = s.subrange(1, s.len() as int);
        if d.len() > 0 && all_digits(d) && digits_val(d) <= 0x8000000000000000 {
            Some((-digits_val(d)) as i64)
        } else {
            None
        }
    } else {
        if s.len() > 0 && all_digits(s) && digits_val(s) <= 0x7fffffffffffffff {
            Some(digits_val(s) as i64)
        } else {
            None
        }
    }
}

proof fn lemma_digits_val_nonneg(s: Seq<char>)
    ensures
        digits_val(s) >= 0,
    decreases s.len(),
{
    if s.len() > 0 {
        lemma_digits_val_nonneg(s.drop_last());
    }
}

/// Appending digits never shrinks the value of a digit string.
proof fn lemma_digits_val_prefix(s: Seq<char>, k: int)
    requires
        0 <= k <= s.len(),
    ensures
        digits_val(s.subrange(0, k)) <= digits_val(s),
    decreases s.len() - k,
{
    if k == s.len() {
        assert(s.subrange(0, k) =~= s);
    } else {
        lemma_digits_val_prefix(s, k + 1);
        let p = s.subrange(0, k + 1);
        assert(p.drop_last() =~= s.subrange(0, k));
        lemma_digits_val_nonneg(s.subrange(0, k));
        assert(digits_val(s.subrange(0, k)) <= digits_val(p));
    }
}

fn digit_of(c: char) -> (r: Option<u64>)
    ensures
        match r {
            Some(d) => is_digit_char(c) && d == digit_val(c) && d <= 9,
            None => !is_digit_char(c),
        },
{
    if c == '0' {
        Some(0)
    } else if c == '1' {
        Some(1)
    } else if c == '2' {
        Some(2)
    } else if c == '3' {
        Some(3)
    } else if c == '4' {
        Some(4)
    } else if c == '5' {
        Some(5)
    } else if c == '6' {
        Some(6)
    } else if c == '7' {
        Some(7)
    } else if c == '8' {
        Some(8)
    } else if c == '9' {
        Some(9)
    } else {
        None
    }
}

/// Parses the digit run `s[from..]` as a magnitude no larger than `2^63`.
/// Returns `None` when a non-digit occurs or the value is too large.
fn parse_magnitude(s: &Vec<char>, from: usize) -> (r: Option<u64>)
    requires
        from <= s@.len(),
    ensures
        ({
            let d = s@.subrange(from as int, s@.len() as int);
            match r {
                Some(m) => d.len() > 0 && all_digits(d) && digits_val(d) == m && m
                    <= 0x8000000000000000,
                None => d.len() == 0 || !all_digits(d) || digits_val(d) > 0x8000000000000000,
            }
        }),
{
    let ghost d = s@.subrange(from as int, s@.len() as int);
    let n = s.len();
    if from >= n {
        return None;
    }
    let mut acc: u64 = 0;
    let mut i: usize = from;
    while i < n
        invariant
            from <= i <= n,
            n == s@.len(),
            d == s@.subrange(from as int, n as int),
            all_digits(s@.subrange(from as int, i as int)),
            acc == digits_val(s@.subrange(from as int, i as int)),
            acc <= 0x8000000000000000,
        decreases n - i,
    {
        let ghost pre = s@.subrange(from as int, i as int);
        match digit_of(s[i]) {
            Some(dv) => {
                proof {
                    assert(s@.subrange(from as int, i + 1) =~= pre.push(s@[i as int]));
                    assert(s@.subrange(from as int, i + 1).drop_last() =~= pre);
                }
                if acc > (0x8000000000000000u64 - dv) / 10 {
                    proof {
                        let p1 = s@.subrange(from as int, i + 1);
                        assert(digits_val(p1) == acc * 10 + dv);
                        assert(acc * 10 + dv > 0x8000000000000000) by (nonlinear_arith)
                            requires
                                acc > (0x8000000000000000u64 - dv) / 10,
                                dv <= 9,
                        ;
                        assert(p1 =~= d.subrange(0, i + 1 - from));
                        lemma_digits_val_prefix(d, i + 1 - from);
                        lemma_digits_val_nonneg(p1);
                        assert(digits_val(d) > 0x8000000000000000);
                    }
                    return None;
                }
                proof {
                    assert(acc * 10 + dv <= 0x8000000000000000) by (nonlinear_arith)
                        requires
                            acc <= (0x8000000000000000u64 - dv) / 10,
                            dv <= 9,
                    ;
                }
                acc = acc * 10 + dv;
                i += 1;
            },
            None => {
                proof {
                    assert(!is_digit_char(d[i - from]));
                }
                return None;
            },
        }
    }
    proof {
        assert(s@.subrange(from as int, i as int) =~= d);
    }
    Some(acc)
}

/// Parses a string as a decimal integer; the exact strings accepted, and
/// the value returned, are given by [`str_to_i64_spec`].
pub fn parse_i64(s: &str) -> (r: Option<i64>)
    ensures
        r == str_to_i64_spec(s@),
{
    let chars = str_chars(s);
    if chars.len() > 0 && chars[0] == '-' {
        match parse_magnitude(&chars, 1) {
            Some(m) => {
                let r: i64 = if m == 0x8000000000000000u64 {
                    i64::MIN
                } else {
                    -(m as i64)
                };
                Some(r)
            },
            None => None,
        }
    } else {
        match parse_magnitude(&chars, 0) {
            Some(m) => {
                proof {
                    assert(chars@.subrange(0, chars@.len() as int) =~= chars@);
                }
                if m <= 0x7fffffffffffffffu64 {
                    Some(m as i64)
                } else {
                    None
                }
            },
            None => {
                proof {
                    assert(chars@.subrange(0, chars@.len() as int) =~= chars@);
                }
                None
            },
        }
    }
}

} // verus!

