//! The built-in function implementations behind the engine's function
//! registry, and the single point where the engine's accumulated output
//! reaches standard output.  Every builtin is a deterministic function
//! from its argument list to a result and an output fragment, given
//! exactly by [`builtin_spec`].

use vstd::prelude::*;
use crate::value::{
    Value, ValueModel, clone_value, clone_string, string_from, display_spec, kind_name_spec,
    to_number_spec, truthy, int_to_seq, nat_to_seq, int_to_string, str_chars, push_usize_digits,
    push_nat_digits, table_get, table_get_model, table_set, table_set_model,
};
use crate::error::{LuaError, LuaResult, ErrModel, push_str_all, push_str_slice};

verus! {

/// Relies on `std::io::Stdout` via the `write` macro: writes the given
/// text to standard output.  Nothing is promised of the outside world;
/// what the engine prints is pinned by the contracts of the functions
/// that build the text handed here.
#[verifier::external_body]
pub fn write_stdout(s: &str) {
    let mut out = std::io::stdout();
    let _ = write!(out, "{}", s);
}

/// The models of a list of values.
pub open spec fn vals_model(s: Seq<Value>) -> Seq<ValueModel> {
    s.map_values(|v: Value| crate::value::value_model(v))
}

/// What one builtin call yields: a result and the text it writes.
pub struct BuiltinOut {
    pub res: Result<ValueModel, ErrModel>,
    pub out: Seq<char>,
}

/// Whether an executed builtin returned exactly what its specification
/// says (the output fragment is accounted for separately).
pub open spec fn builtin_matches(r: LuaResult<Value>, b: BuiltinOut) -> bool {
    match r {
        Ok(v) => b.res is Ok && v@ == b.res->Ok_0,
        Err(e) => b.res is Err && e@ == b.res->Err_0,
    }
}

pub open spec fn ret(v: ValueModel) -> BuiltinOut {
    BuiltinOut { res: Ok(v), out: Seq::empty() }
}

pub open spec fn fail(e: ErrModel) -> BuiltinOut {
    BuiltinOut { res: Err(e), out: Seq::empty() }
}

pub open spec fn arg_err(expected: usize, found: nat, function: Seq<char>) -> ErrModel {
    ErrModel::ArgumentError { expected, found: found as usize, function }
}

pub open spec fn type_err(expected: Seq<char>, found: Seq<char>, operation: Seq<char>) -> ErrModel {
    ErrModel::TypeError { expected, found, operation }
}

pub open spec fn rt_err(message: Seq<char>) -> ErrModel {
    ErrModel::RuntimeError { message, line: None }
}

/// The rendered arguments joined by `sep` (empty for no arguments).
pub open spec fn display_join(args: Seq<ValueModel>, sep: Seq<char>) -> Seq<char>
    decreases args.len(),
{
    if args.len() == 0 {
        Seq::empty()
    } else if args.len() == 1 {
        display_spec(args[0])
    } else {
        display_join(args.drop_last(), sep) + sep + display_spec(args.last())
    }
}

// Per-builtin semantics, in registry order. ------------------------------

/// `print`: writes the arguments, tab-joined and newline-terminated.
pub open spec fn print_spec(args: Seq<ValueModel>) -> BuiltinOut {
    BuiltinOut { res: Ok(ValueModel::Nil), out: display_join(args, "\t"@) + "\n"@ }
}

/// `type`: the argument's dynamic type name.
pub open spec fn type_spec(args: Seq<ValueModel>) -> BuiltinOut {
    if args.len() != 1 {
        fail(arg_err(1, args.len(), "type"@))
    } else {
        ret(ValueModel::Str(kind_name_spec(args[0])))
    }
}

/// `tostring`: the argument's rendering.
pub open spec fn tostring_spec(args: Seq<ValueModel>) -> BuiltinOut {
    if args.len() != 1 {
        fail(arg_err(1, args.len(), "tostring"@))
    } else {
        ret(ValueModel::Str(display_spec(args[0])))
    }
}

/// `tonumber`: numeric coercion, nil when none exists.
pub open spec fn tonumber_spec(args: Seq<ValueModel>) -> BuiltinOut {
    if args.len() == 0 {
        ret(ValueModel::Nil)
    } else {
        match to_number_spec(args[0]) {
            Some(n) => ret(ValueModel::Number(n)),
            None => ret(ValueModel::Nil),
        }
    }
}

pub open spec fn unimplemented_spec(what: Seq<char>) -> BuiltinOut {
    fail(rt_err(what))
}

/// `rawget`: the table entry at the rendered key, nil when absent.
pub open spec fn rawget_spec(args: Seq<ValueModel>) -> BuiltinOut {
    if args.len() != 2 {
        fail(arg_err(2, args.len(), "rawget"@))
    } else {
        match args[0] {
            ValueModel::Table(t) => ret(table_get_model(t, display_spec(args[1]))),
            _ => fail(type_err("table"@, kind_name_spec(args[0]), "rawget"@)),
        }
    }
}

/// `rawset`: the table with the rendered key bound to the value.
pub open spec fn rawset_spec(args: Seq<ValueModel>) -> BuiltinOut {
    if args.len() != 3 {
        fail(arg_err(3, args.len(), "rawset"@))
    } else {
        match args[0] {
            ValueModel::Table(t) => ret(
                ValueModel::Table(table_set_model(t, display_spec(args[1]), args[2])),
            ),
            _ => fail(type_err("table"@, kind_name_spec(args[0]), "rawset"@)),
        }
    }
}

/// `error`: raises a runtime error with the rendered argument.
pub open spec fn error_spec(args: Seq<ValueModel>) -> BuiltinOut {
    if args.len() == 0 {
        fail(rt_err("error"@))
    } else {
        fail(rt_err(display_spec(args[0])))
    }
}

/// `assert`: passes a truthy first argument through; fails otherwise.
pub open spec fn assert_spec(args: Seq<ValueModel>) -> BuiltinOut {
    if args.len() == 0 {
        fail(rt_err("assertion failed!"@))
    } else if !truthy(args[0]) {
        if args.len() > 1 {
            fail(rt_err(display_spec(args[1])))
        } else {
            fail(rt_err("assertion failed!"@))
        }
    } else {
        ret(args[0])
    }
}

/// `string.len`: the number of characters in the string.
pub open spec fn string_len_spec(args: Seq<ValueModel>) -> BuiltinOut {
    if args.len() != 1 {
        fail(arg_err(1, args.len(), "string.len"@))
    } else {
        match args[0] {
            ValueModel::Str(s) => if s.len() <= i64::MAX {
                ret(ValueModel::Number(s.len() as i64))
            } else {
                fail(rt_err("string too large"@))
            },
            _ => fail(type_err("string"@, kind_name_spec(args[0]), "string.len"@)),
        }
    }
}

/// The substring selected by one-based, inclusive bounds; out-of-range
/// bounds clamp, and an empty selection is the empty string.
pub open spec fn string_sub_range(s: Seq<char>, start: i64, end: i64) -> Seq<char> {
    let si: int = if start > 0 {
        start - 1
    } else {
        0
    };
    let ei0: int = if end > 0 {
        end as int
    } else {
        s.len() as int
    };
    let ei: int = if ei0 > s.len() {
        s.len() as int
    } else {
        ei0
    };
    if si >= s.len() || si >= ei {
        Seq::empty()
    } else {
        s.subrange(si, ei)
    }
}

/// `string.sub`.
pub open spec fn string_sub_spec(args: Seq<ValueModel>) -> BuiltinOut {
    if args.len() < 2 || args.len() > 3 {
        fail(arg_err(2, args.len(), "string.sub"@))
    } else {
        match args[0] {
            ValueModel::Str(s) => match to_number_spec(args[1]) {
                Some(start) => {
                    if args.len() == 3 {
                        match to_number_spec(args[2]) {
                            Some(end) => ret(ValueModel::Str(string_sub_range(s, start, end))),
                            None => fail(
                                type_err("number"@, kind_name_spec(args[2]), "string.sub"@),
                            ),
                        }
                    } else {
                        if s.len() <= i64::MAX {
                            ret(ValueModel::Str(string_sub_range(s, start, s.len() as i64)))
                        } else {
                            fail(rt_err("string too large"@))
                        }
                    }
                },
                None => fail(type_err("number"@, kind_name_spec(args[1]), "string.sub"@)),
            },
            _ => fail(type_err("string"@, kind_name_spec(args[0]), "string.sub"@)),
        }
    }
}

/// The uppercase form of a character sequence, as `str::to_uppercase`
/// computes it; a function of the characters alone.
pub uninterp spec fn upper_of(s: Seq<char>) -> Seq<char>;

/// The lowercase form of a character sequence, as `str::to_lowercase`
/// computes it; a function of the characters alone.
pub uninterp spec fn lower_of(s: Seq<char>) -> Seq<char>;

/// `string.upper`: Unicode upper-casing of the string.
pub open spec fn string_upper_spec(args: Seq<ValueModel>) -> BuiltinOut {
    if args.len() != 1 {
        fail(arg_err(1, args.len(), "string.upper"@))
    } else {
        match args[0] {
            ValueModel::Str(s) => ret(ValueModel::Str(upper_of(s))),
            _ => fail(type_err("string"@, kind_name_spec(args[0]), "string.upper"@)),
        }
    }
}

/// `string.lower`: Unicode lower-casing of the string.
pub open spec fn string_lower_spec(args: Seq<ValueModel>) -> BuiltinOut {
    if args.len() != 1 {
        fail(arg_err(1, args.len(), "string.lower"@))
    } else {
        match args[0] {
            ValueModel::Str(s) => ret(ValueModel::Str(lower_of(s))),
            _ => fail(type_err("string"@, kind_name_spec(args[0]), "string.lower"@)),
        }
    }
}

/// The characters of `string.char`'s argument list: each argument must
/// coerce to a code in 0..=255.
pub open spec fn string_char_build(args: Seq<ValueModel>) -> Result<Seq<char>, ErrModel>
    decreases args.len(),
{
    if args.len() == 0 {
        Ok(Seq::empty())
    } else {
        match string_char_build(args.drop_last()) {
            Ok(prefix) => match to_number_spec(args.last()) {
                Some(n) => if 0 <= n <= 255 {
                    Ok(prefix.push((n as u8) as char))
                } else {
                    Err(rt_err("character code out of range"@))
                },
                None => Err(type_err("number"@, kind_name_spec(args.last()), "string.char"@)),
            },
            Err(e) => Err(e),
        }
    }
}

/// `string.char`.
pub open spec fn string_char_spec(args: Seq<ValueModel>) -> BuiltinOut {
    match string_char_build(args) {
        Ok(s) => ret(ValueModel::Str(s)),
        Err(e) => fail(e),
    }
}

/// `string.byte`: the character code at a one-based position, nil when
/// out of range.
pub open spec fn string_byte_spec(args: Seq<ValueModel>) -> BuiltinOut {
    if args.len() == 0 || args.len() > 3 {
        fail(arg_err(1, args.len(), "string.byte"@))
    } else {
        match args[0] {
            ValueModel::Str(s) => {
                let index: int = if args.len() > 1 {
                    match to_number_spec(args[1]) {
                        Some(n) => if n - 1 > 0 {
                            n - 1
                        } else {
                            0
                        },
                        None => 0,
                    }
                } else {
                    0
                };
                if index < s.len() {
                    ret(ValueModel::Number((s[index] as u32) as i64))
                } else {
                    ret(ValueModel::Nil)
                }
            },
            _ => fail(type_err("string"@, kind_name_spec(args[0]), "string.byte"@)),
        }
    }
}

/// `math.abs`.
pub open spec fn math_abs_spec(args: Seq<ValueModel>) -> BuiltinOut {
    if args.len() != 1 {
        fail(arg_err(1, args.len(), "math.abs"@))
    } else {
        match to_number_spec(args[0]) {
            Some(n) => if n == i64::MIN {
                fail(ErrModel::ArithmeticError { message: "overflow"@, operation: "math.abs"@ })
            } else if n < 0 {
                ret(ValueModel::Number((-n) as i64))
            } else {
                ret(ValueModel::Number(n))
            },
            None => fail(type_err("number"@, kind_name_spec(args[0]), "math.abs"@)),
        }
    }
}

/// `math.ceil` and `math.floor` are the identity on integer numbers.
pub open spec fn math_round_spec(args: Seq<ValueModel>, name: Seq<char>) -> BuiltinOut {
    if args.len() != 1 {
        fail(arg_err(1, args.len(), name))
    } else {
        match to_number_spec(args[0]) {
            Some(n) => ret(ValueModel::Number(n)),
            None => fail(type_err("number"@, kind_name_spec(args[0]), name)),
        }
    }
}

/// The numeric fold of `math.max` / `math.min`.
pub open spec fn math_fold_spec(args: Seq<ValueModel>, take_max: bool, name: Seq<char>) -> Result<
    i64,
    ErrModel,
>
    decreases args.len(),
{
    if args.len() == 0 {
        Err(arg_err(1, 0, name))
    } else if args.len() == 1 {
        match to_number_spec(args[0]) {
            Some(n) => Ok(n),
            None => Err(type_err("number"@, kind_name_spec(args[0]), name)),
        }
    } else {
        match math_fold_spec(args.drop_last(), take_max, name) {
            Ok(cur) => match to_number_spec(args.last()) {
                Some(n) => Ok(
                    if take_max {
                        if n > cur {
                            n
                        } else {
                            cur
                        }
                    } else {
                        if n < cur {
                            n
                        } else {
                            cur
                        }
                    },
                ),
                None => Err(type_err("number"@, kind_name_spec(args.last()), name)),
            },
            Err(e) => Err(e),
        }
    }
}

pub open spec fn math_max_spec(args: Seq<ValueModel>) -> BuiltinOut {
    match math_fold_spec(args, true, "math.max"@) {
        Ok(n) => ret(ValueModel::Number(n)),
        Err(e) => fail(e),
    }
}

pub open spec fn math_min_spec(args: Seq<ValueModel>) -> BuiltinOut {
    match math_fold_spec(args, false, "math.min"@) {
        Ok(n) => ret(ValueModel::Number(n)),
        Err(e) => fail(e),
    }
}

/// `table.insert`: at arity two appends under the key one past the entry
/// count; at arity three inserts under the rendered numeric position.
/// Returns the updated table.
pub open spec fn table_insert_spec(args: Seq<ValueModel>) -> BuiltinOut {
    if args.len() < 2 || args.len() > 3 {
        fail(arg_err(2, args.len(), "table.insert"@))
    } else {
        match args[0] {
            ValueModel::Table(t) => {
                if args.len() == 2 {
                    if t.len() < u64::MAX {
                        ret(
                            ValueModel::Table(
                                table_set_model(t, nat_to_seq(t.len() + 1 as int), args[1]),
                            ),
                        )
                    } else {
                        fail(rt_err("table too large"@))
                    }
                } else {
                    match to_number_spec(args[1]) {
                        Some(p) => ret(
                            ValueModel::Table(table_set_model(t, int_to_seq(p as int), args[2])),
                        ),
                        None => fail(type_err("number"@, kind_name_spec(args[1]), "table.insert"@)),
                    }
                }
            },
            _ => fail(type_err("table"@, kind_name_spec(args[0]), "table.insert"@)),
        }
    }
}

/// `table.remove`: the value removed from the given (or last) numeric
/// position, nil when absent.  The caller's table is unchanged.
pub open spec fn table_remove_spec(args: Seq<ValueModel>) -> BuiltinOut {
    if args.len() == 0 || args.len() > 2 {
        fail(arg_err(1, args.len(), "table.remove"@))
    } else {
        match args[0] {
            ValueModel::Table(t) => {
                if args.len() == 2 {
                    match to_number_spec(args[1]) {
                        Some(p) => ret(table_get_model(t, int_to_seq(p as int))),
                        None => fail(type_err("number"@, kind_name_spec(args[1]), "table.remove"@)),
                    }
                } else {
                    ret(table_get_model(t, nat_to_seq(t.len() as int)))
                }
            },
            _ => fail(type_err("table"@, kind_name_spec(args[0]), "table.remove"@)),
        }
    }
}

/// The rendered entry values of a table joined by `sep`.
pub open spec fn concat_values(t: Seq<(Seq<char>, ValueModel)>, sep: Seq<char>) -> Seq<char>
    decreases t.len(),
{
    if t.len() == 0 {
        Seq::empty()
    } else if t.len() == 1 {
        display_spec(t[0].1)
    } else {
        concat_values(t.drop_last(), sep) + sep + display_spec(t.last().1)
    }
}

/// `table.concat`.
pub open spec fn table_concat_spec(args: Seq<ValueModel>) -> BuiltinOut {
    if args.len() == 0 || args.len() > 4 {
        fail(arg_err(1, args.len(), "table.concat"@))
    } else {
        match args[0] {
            ValueModel::Table(t) => {
                if args.len() > 1 {
                    match args[1] {
                        ValueModel::Str(sep) => ret(ValueModel::Str(concat_values(t, sep))),
                        _ => fail(type_err("string"@, kind_name_spec(args[1]), "table.concat"@)),
                    }
                } else {
                    ret(ValueModel::Str(concat_values(t, Seq::empty())))
                }
            },
            _ => fail(type_err("table"@, kind_name_spec(args[0]), "table.concat"@)),
        }
    }
}

/// `io.write`: writes the arguments back to back.
pub open spec fn io_write_spec(args: Seq<ValueModel>) -> BuiltinOut {
    BuiltinOut { res: Ok(ValueModel::Nil), out: display_join(args, Seq::empty()) }
}

/// The behaviour of the builtin with the given id on the given
/// arguments: the result it returns and the text it writes.
pub open spec fn builtin_spec(id: int, args: Seq<ValueModel>) -> BuiltinOut {
    if id == 0 {
        print_spec(args)
    } else if id == 1 {
        type_spec(args)
    } else if id == 2 {
        tostring_spec(args)
    } else if id == 3 {
        tonumber_spec(args)
    } else if id == 4 {
        unimplemented_spec("pairs not implemented"@)
    } else if id == 5 {
        unimplemented_spec("ipairs not implemented"@)
    } else if id == 6 {
        unimplemented_spec("next not implemented"@)
    } else if id == 7 {
        rawget_spec(args)
    } else if id == 8 {
        rawset_spec(args)
    } else if id == 9 {
        ret(ValueModel::Nil)
    } else if id == 10 {
        ret(ValueModel::Nil)
    } else if id == 11 {
        unimplemented_spec("pcall not implemented"@)
    } else if id == 12 {
        unimplemented_spec("xpcall not implemented"@)
    } else if id == 13 {
        error_spec(args)
    } else if id == 14 {
        assert_spec(args)
    } else if id == 15 {
        string_len_spec(args)
    } else if id == 16 {
        string_sub_spec(args)
    } else if id == 17 {
        string_upper_spec(args)
    } else if id == 18 {
        string_lower_spec(args)
    } else if id == 19 {
        string_char_spec(args)
    } else if id == 20 {
        string_byte_spec(args)
    } else if id == 21 {
        unimplemented_spec("string.find not implemented"@)
    } else if id == 22 {
        unimplemented_spec("string.gsub not implemented"@)
    } else if id == 23 {
        math_abs_spec(args)
    } else if id == 24 {
        math_round_spec(args, "math.ceil"@)
    } else if id == 25 {
        math_round_spec(args, "math.floor"@)
    } else if id == 26 {
        math_max_spec(args)
    } else if id == 27 {
        math_min_spec(args)
    } else if id == 28 {
        unimplemented_spec("math.sqrt not supported"@)
    } else if id == 29 {
        unimplemented_spec("math.sin not supported"@)
    } else if id == 30 {
        unimplemented_spec("math.cos not supported"@)
    } else if id == 31 {
        unimplemented_spec("math.tan not supported"@)
    } else if id == 32 {
        unimplemented_spec("math.pi not supported"@)
    } else if id == 33 {
        unimplemented_spec("math.random not supported"@)
    } else if id == 34 {
        table_insert_spec(args)
    } else if id == 35 {
        table_remove_spec(args)
    } else if id == 36 {
        table_concat_spec(args)
    } else if id == 37 {
        unimplemented_spec("table.sort not implemented"@)
    } else if id == 38 {
        io_write_spec(args)
    } else if id == 39 {
        unimplemented_spec("io.read not implemented"@)
    } else {
        fail(rt_err("Unknown function ID: "@ + nat_to_seq(id)))
    }
}

// Executable builtins. ---------------------------------------------------

/// An error in a prefix of the fold decides the whole fold.
proof fn lemma_math_fold_err_extends(args: Seq<ValueModel>, k: int, take_max: bool, name: Seq<char>)
    requires
        1 <= k <= args.len(),
        math_fold_spec(args.subrange(0, k), take_max, name) is Err,
    ensures
        math_fold_spec(args, take_max, name) == math_fold_spec(args.subrange(0, k), take_max, name),
    decreases args.len() - k,
{
    if k < args.len() {
        let next = args.subrange(0, k + 1);
        assert(next.drop_last() =~= args.subrange(0, k));
        assert(next.len() == k + 1);
        lemma_math_fold_err_extends(args, k + 1, take_max, name);
    } else {
        assert(args.subrange(0, args.len() as int) =~= args);
    }
}

/// An error in a prefix of `string.char`'s build decides the whole
/// build.
proof fn lemma_string_char_err_extends(args: Seq<ValueModel>, k: int)
    requires
        0 <= k <= args.len(),
        string_char_build(args.subrange(0, k)) is Err,
    ensures
        string_char_build(args) == string_char_build(args.subrange(0, k)),
    decreases args.len() - k,
{
    if k < args.len() {
        let next = args.subrange(0, k + 1);
        assert(next.drop_last() =~= args.subrange(0, k));
        lemma_string_char_err_extends(args, k + 1);
    } else {
        assert(args.subrange(0, args.len() as int) =~= args);
    }
}

/// Appends the rendered arguments joined by `sep`.
fn push_display_join(out: &mut String, args: &Vec<Value>, sep: &str)
    ensures
        final(out)@ == old(out)@ + display_join(vals_model(args@), sep@),
{
    let ghost m = vals_model(args@);
    let ghost base = out@;
    let n = args.len();
    let mut k: usize = 0;
    proof {
        assert(base + Seq::<char>::empty() =~= base);
    }
    while k < n
        invariant
            n == args@.len(),
            k <= n,
            m == vals_model(args@),
            m.len() == n,
            out@ == base + display_join(m.subrange(0, k as int), sep@),
        decreases n - k,
    {
        let ghost pre = out@;
        if k > 0 {
            push_str_slice(out, sep);
        }
        let d = args[k].to_display_string();
        push_str_all(out, &d);
        proof {
            let p = m.subrange(0, k as int);
            let p1 = m.subrange(0, k + 1);
            assert(p1.drop_last() =~= p);
            assert(p1.last() == m[k as int]);
            assert(m[k as int] == args@[k as int]@);
            if k == 0 {
                assert(p1.len() == 1);
                assert(out@ =~= base + display_join(p1, sep@));
            } else {
                assert(display_join(p1, sep@) == display_join(p, sep@) + sep@ + display_spec(
                    m[k as int],
                ));
                assert(out@ =~= base + display_join(p1, sep@));
            }
        }
        k += 1;
    }
    proof {
        assert(m.subrange(0, n as int) =~= m);
    }
}

/// Dispatches the builtin with the given id: the exact result and
/// output are those of [`builtin_spec`].
pub fn call_builtin(id: usize, args: &Vec<Value>, out: &mut String) -> (r: LuaResult<Value>)
    ensures
        ({
            let b = builtin_spec(id as int, vals_model(args@));
            &&& match r {
                Ok(v) => b.res is Ok && v@ == b.res->Ok_0,
                Err(e) => b.res is Err && e@ == b.res->Err_0,
            }
            &&& final(out)@ == old(out)@ + b.out
        }),
{
    let ghost m = vals_model(args@);
    let ghost b = builtin_spec(id as int, m);
    if id == 0 {
        return builtin_print(args, out);
    }
    if id == 38 {
        return io_write(args, out);
    }
    let r = self_contained_builtin(id, args);
    proof {
        assert(b.out.len() == 0);
        assert(old(out)@ + b.out =~= old(out)@);
    }
    r
}

/// The builtins that only compute (no output).
#[verifier::rlimit(100)]
fn self_contained_builtin(id: usize, args: &Vec<Value>) -> (r: LuaResult<Value>)
    requires
        id != 0,
        id != 38,
    ensures
        ({
            let b = builtin_spec(id as int, vals_model(args@));
            match r {
                Ok(v) => b.res is Ok && v@ == b.res->Ok_0,
                Err(e) => b.res is Err && e@ == b.res->Err_0,
            }
        }),
{
    if id == 1 {
        builtin_type(args)
    } else if id == 2 {
        builtin_tostring(args)
    } else if id == 3 {
        builtin_tonumber(args)
    } else if id == 4 {
        builtin_pairs(args)
    } else if id == 5 {
        builtin_ipairs(args)
    } else if id == 6 {
        builtin_next(args)
    } else if id == 7 {
        builtin_rawget(args)
    } else if id == 8 {
        builtin_rawset(args)
    } else if id == 9 {
        builtin_getmetatable(args)
    } else if id == 10 {
        builtin_setmetatable(args)
    } else if id == 11 {
        builtin_pcall(args)
    } else if id == 12 {
        builtin_xpcall(args)
    } else if id == 13 {
        builtin_error(args)
    } else if id == 14 {
        builtin_assert(args)
    } else if id == 15 {
        string_len(args)
    } else if id == 16 {
        string_sub(args)
    } else if id == 17 {
        string_upper(args)
    } else if id == 18 {
        string_lower(args)
    } else if id == 19 {
        string_char(args)
    } else if id == 20 {
        string_byte(args)
    } else if id == 21 {
        string_find(args)
    } else if id == 22 {
        string_gsub(args)
    } else if id == 23 {
        math_abs(args)
    } else if id == 24 {
        math_ceil(args)
    } else if id == 25 {
        math_floor(args)
    } else if id == 26 {
        math_max(args)
    } else if id == 27 {
        math_min(args)
    } else if id == 28 {
        unsupported_builtin("math.sqrt not supported")
    } else if id == 29 {
        unsupported_builtin("math.sin not supported")
    } else if id == 30 {
        unsupported_builtin("math.cos not supported")
    } else if id == 31 {
        unsupported_builtin("math.tan not supported")
    } else if id == 32 {
        unsupported_builtin("math.pi not supported")
    } else if id == 33 {
        unsupported_builtin("math.random not supported")
    } else if id == 34 {
        table_insert(args)
    } else if id == 35 {
        table_remove(args)
    } else if id == 36 {
        table_concat(args)
    } else if id == 37 {
        table_sort(args)
    } else if id == 39 {
        io_read(args)
    } else {
        let mut msg = string_from("Unknown function ID: ");
        push_usize_digits(&mut msg, id);
        Err(LuaError::runtime_error(msg.as_str()))
    }
}

pub fn builtin_rawget(args: &Vec<Value>) -> (r: LuaResult<Value>)
    ensures
        ({
            let b = rawget_spec(vals_model(args@));
            match r {
                Ok(v) => b.res is Ok && v@ == b.res->Ok_0,
                Err(e) => b.res is Err && e@ == b.res->Err_0,
            }
        }),
{
    if args.len() != 2 {
        return Err(LuaError::argument_error(2, args.len(), "rawget"));
    }
    match &args[0] {
        Value::Table(t) => {
            let key = args[1].to_display_string();
            Ok(table_get(t, &key))
        },
        _ => Err(LuaError::type_error("table", args[0].kind_name(), "rawget")),
    }
}

pub fn builtin_rawset(args: &Vec<Value>) -> (r: LuaResult<Value>)
    ensures
        ({
            let b = rawset_spec(vals_model(args@));
            match r {
                Ok(v) => b.res is Ok && v@ == b.res->Ok_0,
                Err(e) => b.res is Err && e@ == b.res->Err_0,
            }
        }),
{
    if args.len() != 3 {
        return Err(LuaError::argument_error(3, args.len(), "rawset"));
    }
    match &args[0] {
        Value::Table(t) => {
            let mut t2 = match clone_value(&args[0]) {
                Value::Table(entries) => entries,
                _ => {
                    proof {
                        assert(false);
                    }
                    Vec::new()
                },
            };
            let key = args[1].to_display_string();
            let val = clone_value(&args[2]);
            table_set(&mut t2, key, val);
            Ok(Value::Table(t2))
        },
        _ => Err(LuaError::type_error("table", args[0].kind_name(), "rawset")),
    }
}

pub fn string_len(args: &Vec<Value>) -> (r: LuaResult<Value>)
    ensures
        ({
            let b = string_len_spec(vals_model(args@));
            match r {
                Ok(v) => b.res is Ok && v@ == b.res->Ok_0,
                Err(e) => b.res is Err && e@ == b.res->Err_0,
            }
        }),
{
    if args.len() != 1 {
        return Err(LuaError::argument_error(1, args.len(), "string.len"));
    }
    match &args[0] {
        Value::Str(s) => {
            let chars = str_chars(s.as_str());
            if chars.len() as u64 <= i64::MAX as u64 {
                Ok(Value::Number(chars.len() as i64))
            } else {
                Err(LuaError::runtime_error("string too large"))
            }
        },
        _ => Err(LuaError::type_error("string", args[0].kind_name(), "string.len")),
    }
}

/// Copies the selected character range into a fresh string.
fn take_char_range(chars: &Vec<char>, si: usize, ei: usize) -> (r: String)
    requires
        si <= ei <= chars@.len(),
    ensures
        r@ == chars@.subrange(si as int, ei as int),
{
    let mut out = String::new();
    let mut k: usize = si;
    while k < ei
        invariant
            si <= k <= ei <= chars@.len(),
            out@ == chars@.subrange(si as int, k as int),
        decreases ei - k,
    {
        out.push(chars[k]);
        proof {
            assert(out@ =~= chars@.subrange(si as int, k + 1));
        }
        k += 1;
    }
    out
}

pub fn string_sub(args: &Vec<Value>) -> (r: LuaResult<Value>)
    ensures
        ({
            let b = string_sub_spec(vals_model(args@));
            match r {
                Ok(v) => b.res is Ok && v@ == b.res->Ok_0,
                Err(e) => b.res is Err && e@ == b.res->Err_0,
            }
        }),
{
    if args.len() < 2 || args.len() > 3 {
        return Err(LuaError::argument_error(2, args.len(), "string.sub"));
    }
    let s = match &args[0] {
        Value::Str(s) => s,
        _ => {
            return Err(LuaError::type_error("string", args[0].kind_name(), "string.sub"));
        },
    };
    let start = match args[1].to_number() {
        Some(n) => n,
        None => {
            return Err(LuaError::type_error("number", args[1].kind_name(), "string.sub"));
        },
    };
    let chars = str_chars(s.as_str());
    let end: i64 = if args.len() == 3 {
        match args[2].to_number() {
            Some(n) => n,
            None => {
                return Err(LuaError::type_error("number", args[2].kind_name(), "string.sub"));
            },
        }
    } else {
        if chars.len() as u64 > i64::MAX as u64 {
            return Err(LuaError::runtime_error("string too large"));
        }
        chars.len() as i64
    };
    let n = chars.len();
    let si: usize = if start > 0 {
        if (start - 1) as u64 > n as u64 {
            n
        } else {
            (start - 1) as usize
        }
    } else {
        0
    };
    let ei: usize = if end > 0 {
        if end as u64 > n as u64 {
            n
        } else {
            end as usize
        }
    } else {
        n
    };
    let ghost sspec = string_sub_range(s@, start, end);
    if si >= n || si >= ei {
        proof {
            assert(sspec =~= Seq::<char>::empty());
        }
        Ok(Value::Str(String::new()))
    } else {
        let out = take_char_range(&chars, si, ei);
        proof {
            assert(out@ =~= sspec);
        }
        Ok(Value::Str(out))
    }
}

/// Relies on `str::to_uppercase`: the result depends on the characters
/// alone; an empty string stays empty.
#[verifier::external_body]
fn uppercase(s: &str) -> (r: String)
    ensures
        r@ == upper_of(s@),
        s@.len() == 0 ==> r@.len() == 0,
{
    s.to_uppercase()
}

/// Relies on `str::to_lowercase`: the result depends on the characters
/// alone; an empty string stays empty.
#[verifier::external_body]
fn lowercase(s: &str) -> (r: String)
    ensures
        r@ == lower_of(s@),
        s@.len() == 0 ==> r@.len() == 0,
{
    s.to_lowercase()
}

fn string_case_builtin(args: &Vec<Value>, to_upper: bool) -> (r: LuaResult<Value>)
    ensures
        ({
            let b = if to_upper {
                string_upper_spec(vals_model(args@))
            } else {
                string_lower_spec(vals_model(args@))
            };
            match r {
                Ok(v) => b.res is Ok && v@ == b.res->Ok_0,
                Err(e) => b.res is Err && e@ == b.res->Err_0,
            }
        }),
{
    let name = if to_upper {
        "string.upper"
    } else {
        "string.lower"
    };
    if args.len() != 1 {
        return Err(LuaError::argument_error(1, args.len(), name));
    }
    match &args[0] {
        Value::Str(s) => {
            let folded = if to_upper {
                uppercase(s.as_str())
            } else {
                lowercase(s.as_str())
            };
            Ok(Value::Str(folded))
        },
        _ => Err(LuaError::type_error("string", args[0].kind_name(), name)),
    }
}

pub fn string_char(args: &Vec<Value>) -> (r: LuaResult<Value>)
    ensures
        ({
            let b = string_char_spec(vals_model(args@));
            match r {
                Ok(v) => b.res is Ok && v@ == b.res->Ok_0,
                Err(e) => b.res is Err && e@ == b.res->Err_0,
            }
        }),
{
    let ghost m = vals_model(args@);
    let mut out = String::new();
    let n = args.len();
    let mut k: usize = 0;
    proof {
        assert(m.subrange(0, 0).len() == 0);
    }
    while k < n
        invariant
            n == args@.len(),
            k <= n,
            m == vals_model(args@),
            m.len() == n,
            string_char_build(m.subrange(0, k as int)) is Ok,
            out@ == string_char_build(m.subrange(0, k as int))->Ok_0,
        decreases n - k,
    {
        let ghost p = m.subrange(0, k as int);
        let ghost p1 = m.subrange(0, k + 1);
        proof {
            assert(p1.drop_last() =~= p);
            assert(p1.last() == m[k as int]);
            assert(m[k as int] == args@[k as int]@);
        }
        match args[k].to_number() {
            Some(code) => {
                if 0 <= code && code <= 255 {
                    out.push((code as u8) as char);
                } else {
                    proof {
                        lemma_string_char_err_extends(m, k + 1);
                    }
                    return Err(LuaError::runtime_error("character code out of range"));
                }
            },
            None => {
                proof {
                    lemma_string_char_err_extends(m, k + 1);
                }
                return Err(LuaError::type_error("number", args[k].kind_name(), "string.char"));
            },
        }
        k += 1;
    }
    proof {
        assert(m.subrange(0, n as int) =~= m);
    }
    Ok(Value::Str(out))
}

pub fn string_byte(args: &Vec<Value>) -> (r: LuaResult<Value>)
    ensures
        ({
            let b = string_byte_spec(vals_model(args@));
            match r {
                Ok(v) => b.res is Ok && v@ == b.res->Ok_0,
                Err(e) => b.res is Err && e@ == b.res->Err_0,
            }
        }),
{
    if args.len() == 0 || args.len() > 3 {
        return Err(LuaError::argument_error(1, args.len(), "string.byte"));
    }
    match &args[0] {
        Value::Str(s) => {
            let index: i64 = if args.len() > 1 {
                match args[1].to_number() {
                    Some(n) => {
                        if n > 1 {
                            n - 1
                        } else {
                            0
                        }
                    },
                    None => 0,
                }
            } else {
                0
            };
            let chars = str_chars(s.as_str());
            if (index as u64) < chars.len() as u64 {
                let c = chars[index as usize];
                Ok(Value::Number((c as u32) as i64))
            } else {
                Ok(Value::Nil)
            }
        },
        _ => Err(LuaError::type_error("string", args[0].kind_name(), "string.byte")),
    }
}

pub fn math_abs(args: &Vec<Value>) -> (r: LuaResult<Value>)
    ensures
        ({
            let b = math_abs_spec(vals_model(args@));
            match r {
                Ok(v) => b.res is Ok && v@ == b.res->Ok_0,
                Err(e) => b.res is Err && e@ == b.res->Err_0,
            }
        }),
{
    if args.len() != 1 {
        return Err(LuaError::argument_error(1, args.len(), "math.abs"));
    }
    match args[0].to_number() {
        Some(n) => {
            if n == i64::MIN {
                Err(LuaError::arithmetic_error("overflow", "math.abs"))
            } else if n < 0 {
                Ok(Value::Number(-n))
            } else {
                Ok(Value::Number(n))
            }
        },
        None => Err(LuaError::type_error("number", args[0].kind_name(), "math.abs")),
    }
}

fn math_round_builtin(args: &Vec<Value>, name: &str) -> (r: LuaResult<Value>)
    ensures
        ({
            let b = math_round_spec(vals_model(args@), name@);
            match r {
                Ok(v) => b.res is Ok && v@ == b.res->Ok_0,
                Err(e) => b.res is Err && e@ == b.res->Err_0,
            }
        }),
{
    if args.len() != 1 {
        return Err(LuaError::argument_error(1, args.len(), name));
    }
    match args[0].to_number() {
        Some(n) => Ok(Value::Number(n)),
        None => Err(LuaError::type_error("number", args[0].kind_name(), name)),
    }
}

fn math_fold_builtin(args: &Vec<Value>, take_max: bool, name: &str) -> (r: LuaResult<Value>)
    requires
        take_max ==> name@ == "math.max"@,
        !take_max ==> name@ == "math.min"@,
    ensures
        ({
            let b = if take_max {
                math_max_spec(vals_model(args@))
            } else {
                math_min_spec(vals_model(args@))
            };
            match r {
                Ok(v) => b.res is Ok && v@ == b.res->Ok_0,
                Err(e) => b.res is Err && e@ == b.res->Err_0,
            }
        }),
{
    let ghost m = vals_model(args@);
    if args.len() == 0 {
        return Err(LuaError::argument_error(1, 0, name));
    }
    let mut cur: i64 = match args[0].to_number() {
        Some(n) => n,
        None => {
            proof {
                assert(m.subrange(0, 1).len() == 1);
                assert(m.subrange(0, 1)[0] == m[0]);
                lemma_math_fold_err_extends(m, 1, take_max, name@);
            }
            return Err(LuaError::type_error("number", args[0].kind_name(), name));
        },
    };
    let n = args.len();
    let mut k: usize = 1;
    proof {
        assert(m.subrange(0, 1).len() == 1);
        assert(m.subrange(0, 1)[0] == m[0]);
    }
    while k < n
        invariant
            n == args@.len(),
            1 <= k <= n,
            m == vals_model(args@),
            m.len() == n,
            take_max ==> name@ == "math.max"@,
            !take_max ==> name@ == "math.min"@,
            math_fold_spec(m.subrange(0, k as int), take_max, name@) == Ok::<i64, ErrModel>(cur),
        decreases n - k,
    {
        let ghost p = m.subrange(0, k as int);
        let ghost p1 = m.subrange(0, k + 1);
        proof {
            assert(p1.drop_last() =~= p);
            assert(p1.last() == m[k as int]);
            assert(m[k as int] == args@[k as int]@);
        }
        match args[k].to_number() {
            Some(v) => {
                if take_max {
                    if v > cur {
                        cur = v;
                    }
                } else {
                    if v < cur {
                        cur = v;
                    }
                }
            },
            None => {
                proof {
                    lemma_math_fold_err_extends(m, k + 1, take_max, name@);
                }
                return Err(LuaError::type_error("number", args[k].kind_name(), name));
            },
        }
        k += 1;
    }
    proof {
        assert(m.subrange(0, n as int) =~= m);
    }
    Ok(Value::Number(cur))
}

pub fn table_insert(args: &Vec<Value>) -> (r: LuaResult<Value>)
    ensures
        ({
            let b = table_insert_spec(vals_model(args@));
            match r {
                Ok(v) => b.res is Ok && v@ == b.res->Ok_0,
                Err(e) => b.res is Err && e@ == b.res->Err_0,
            }
        }),
{
    if args.len() < 2 || args.len() > 3 {
        return Err(LuaError::argument_error(2, args.len(), "table.insert"));
    }
    match &args[0] {
        Value::Table(t) => {
            let mut t2 = match clone_value(&args[0]) {
                Value::Table(entries) => entries,
                _ => {
                    proof {
                        assert(false);
                    }
                    Vec::new()
                },
            };
            if args.len() == 2 {
                proof {
                    crate::value::lemma_table_model(t@);
                    crate::value::lemma_table_model(t2@);
                }
                let len = t2.len();
                if (len as u64) < u64::MAX {
                    // The key is one past the entry count.
                    let mut key = String::new();
                    push_nat_digits(&mut key, len as u64 + 1);
                    proof {
                        assert(key@ =~= nat_to_seq(len + 1 as int));
                    }
                    let val = clone_value(&args[1]);
                    table_set(&mut t2, key, val);
                    Ok(Value::Table(t2))
                } else {
                    Err(LuaError::runtime_error("table too large"))
                }
            } else {
                match args[1].to_number() {
                    Some(p) => {
                        let key = int_to_string(p);
                        let val = clone_value(&args[2]);
                        table_set(&mut t2, key, val);
                        Ok(Value::Table(t2))
                    },
                    None => Err(LuaError::type_error("number", args[1].kind_name(), "table.insert")),
                }
            }
        },
        _ => Err(LuaError::type_error("table", args[0].kind_name(), "table.insert")),
    }
}

pub fn table_remove(args: &Vec<Value>) -> (r: LuaResult<Value>)
    ensures
        ({
            let b = table_remove_spec(vals_model(args@));
            match r {
                Ok(v) => b.res is Ok && v@ == b.res->Ok_0,
                Err(e) => b.res is Err && e@ == b.res->Err_0,
            }
        }),
{
    if args.len() == 0 || args.len() > 2 {
        return Err(LuaError::argument_error(1, args.len(), "table.remove"));
    }
    match &args[0] {
        Value::Table(t) => {
            if args.len() == 2 {
                match args[1].to_number() {
                    Some(p) => {
                        let key = int_to_string(p);
                        Ok(table_get(t, &key))
                    },
                    None => Err(LuaError::type_error("number", args[1].kind_name(), "table.remove")),
                }
            } else {
                let mut key = String::new();
                push_usize_digits(&mut key, t.len());
                proof {
                    crate::value::lemma_table_model(t@);
                    assert(key@ =~= nat_to_seq(t@.len() as int));
                }
                Ok(table_get(t, &key))
            }
        },
        _ => Err(LuaError::type_error("table", args[0].kind_name(), "table.remove")),
    }
}

pub fn table_concat(args: &Vec<Value>) -> (r: LuaResult<Value>)
    ensures
        ({
            let b = table_concat_spec(vals_model(args@));
            match r {
                Ok(v) => b.res is Ok && v@ == b.res->Ok_0,
                Err(e) => b.res is Err && e@ == b.res->Err_0,
            }
        }),
{
    if args.len() == 0 || args.len() > 4 {
        return Err(LuaError::argument_error(1, args.len(), "table.concat"));
    }
    match &args[0] {
        Value::Table(t) => {
            let sep: String = if args.len() > 1 {
                match &args[1] {
                    Value::Str(s) => clone_string(s),
                    _ => {
                        return Err(
                            LuaError::type_error("string", args[1].kind_name(), "table.concat"),
                        );
                    },
                }
            } else {
                String::new()
            };
            let ghost tm = crate::value::table_model(t@);
            let ghost sepm = sep@;
            proof {
                crate::value::lemma_table_model(t@);
            }
            let mut out = String::new();
            let n = t.len();
            let mut k: usize = 0;
            while k < n
                invariant
                    n == t@.len(),
                    k <= n,
                    tm == crate::value::table_model(t@),
                    tm.len() == n,
                    sepm == sep@,
                    forall|j: int| 0 <= j < n ==> #[trigger] tm[j] == (t@[j].0@, t@[j].1@),
                    out@ == concat_values(tm.subrange(0, k as int), sepm),
                decreases n - k,
            {
                let ghost p = tm.subrange(0, k as int);
                let ghost p1 = tm.subrange(0, k + 1);
                proof {
                    assert(p1.drop_last() =~= p);
                    assert(p1.last() == tm[k as int]);
                }
                if k > 0 {
                    push_str_all(&mut out, &sep);
                }
                let d = t[k].1.to_display_string();
                push_str_all(&mut out, &d);
                proof {
                    if k == 0 {
                        assert(p1.len() == 1);
                        assert(out@ =~= concat_values(p1, sepm));
                    } else {
                        assert(out@ =~= concat_values(p1, sepm));
                    }
                }
                k += 1;
            }
            proof {
                assert(tm.subrange(0, n as int) =~= tm);
            }
            Ok(Value::Str(out))
        },
        _ => Err(LuaError::type_error("table", args[0].kind_name(), "table.concat")),
    }
}


/// `print`: renders the arguments tab-joined, newline-terminated, into
/// the output.
pub fn builtin_print(args: &Vec<Value>, out: &mut String) -> (r: LuaResult<Value>)
    ensures
        ({
            let b = print_spec(vals_model(args@));
            &&& r is Ok && r->Ok_0@ == b.res->Ok_0
            &&& final(out)@ == old(out)@ + b.out
        }),
{
    push_display_join(out, args, "\t");
    push_str_slice(out, "\n");
    proof {
        assert(out@ =~= old(out)@ + print_spec(vals_model(args@)).out);
    }
    Ok(Value::Nil)
}

/// `io.write`: renders the arguments back to back into the output.
pub fn io_write(args: &Vec<Value>, out: &mut String) -> (r: LuaResult<Value>)
    ensures
        ({
            let b = io_write_spec(vals_model(args@));
            &&& r is Ok && r->Ok_0@ == b.res->Ok_0
            &&& final(out)@ == old(out)@ + b.out
        }),
{
    proof {
        reveal_strlit("");
    }
    push_display_join(out, args, "");
    proof {
        assert(""@ =~= Seq::<char>::empty());
        assert(out@ =~= old(out)@ + io_write_spec(vals_model(args@)).out);
    }
    Ok(Value::Nil)
}

/// `type`.
pub fn builtin_type(args: &Vec<Value>) -> (r: LuaResult<Value>)
    ensures
        builtin_matches(r, type_spec(vals_model(args@))),
{
    if args.len() != 1 {
        return Err(LuaError::argument_error(1, args.len(), "type"));
    }
    Ok(Value::Str(string_from(args[0].kind_name())))
}

/// `tostring`.
pub fn builtin_tostring(args: &Vec<Value>) -> (r: LuaResult<Value>)
    ensures
        builtin_matches(r, tostring_spec(vals_model(args@))),
{
    if args.len() != 1 {
        return Err(LuaError::argument_error(1, args.len(), "tostring"));
    }
    Ok(Value::Str(args[0].to_display_string()))
}

/// `tonumber`.
pub fn builtin_tonumber(args: &Vec<Value>) -> (r: LuaResult<Value>)
    ensures
        builtin_matches(r, tonumber_spec(vals_model(args@))),
{
    if args.len() == 0 {
        return Ok(Value::Nil);
    }
    match args[0].to_number() {
        Some(n) => Ok(Value::Number(n)),
        None => Ok(Value::Nil),
    }
}

/// `error`.
pub fn builtin_error(args: &Vec<Value>) -> (r: LuaResult<Value>)
    ensures
        builtin_matches(r, error_spec(vals_model(args@))),
{
    if args.len() == 0 {
        Err(LuaError::runtime_error("error"))
    } else {
        let msg = args[0].to_display_string();
        Err(LuaError::runtime_error(msg.as_str()))
    }
}

/// `assert`.
pub fn builtin_assert(args: &Vec<Value>) -> (r: LuaResult<Value>)
    ensures
        builtin_matches(r, assert_spec(vals_model(args@))),
{
    if args.len() == 0 {
        return Err(LuaError::runtime_error("assertion failed!"));
    }
    if !args[0].is_truthy() {
        if args.len() > 1 {
            let msg = args[1].to_display_string();
            return Err(LuaError::runtime_error(msg.as_str()));
        }
        return Err(LuaError::runtime_error("assertion failed!"));
    }
    Ok(clone_value(&args[0]))
}

/// `pairs`: iteration is not part of this engine.
pub fn builtin_pairs(args: &Vec<Value>) -> (r: LuaResult<Value>)
    ensures
        builtin_matches(r, unimplemented_spec("pairs not implemented"@)),
{
    let _ = args;
    Err(LuaError::runtime_error("pairs not implemented"))
}

/// `ipairs`: iteration is not part of this engine.
pub fn builtin_ipairs(args: &Vec<Value>) -> (r: LuaResult<Value>)
    ensures
        builtin_matches(r, unimplemented_spec("ipairs not implemented"@)),
{
    let _ = args;
    Err(LuaError::runtime_error("ipairs not implemented"))
}

/// `next`: iteration is not part of this engine.
pub fn builtin_next(args: &Vec<Value>) -> (r: LuaResult<Value>)
    ensures
        builtin_matches(r, unimplemented_spec("next not implemented"@)),
{
    let _ = args;
    Err(LuaError::runtime_error("next not implemented"))
}

/// `getmetatable`: metatables are not part of this engine; always nil.
pub fn builtin_getmetatable(args: &Vec<Value>) -> (r: LuaResult<Value>)
    ensures
        builtin_matches(r, ret(ValueModel::Nil)),
{
    let _ = args;
    Ok(Value::Nil)
}

/// `setmetatable`: metatables are not part of this engine; always nil.
pub fn builtin_setmetatable(args: &Vec<Value>) -> (r: LuaResult<Value>)
    ensures
        builtin_matches(r, ret(ValueModel::Nil)),
{
    let _ = args;
    Ok(Value::Nil)
}

/// `pcall`: protected calls are not part of this engine.
pub fn builtin_pcall(args: &Vec<Value>) -> (r: LuaResult<Value>)
    ensures
        builtin_matches(r, unimplemented_spec("pcall not implemented"@)),
{
    let _ = args;
    Err(LuaError::runtime_error("pcall not implemented"))
}

/// `xpcall`: protected calls are not part of this engine.
pub fn builtin_xpcall(args: &Vec<Value>) -> (r: LuaResult<Value>)
    ensures
        builtin_matches(r, unimplemented_spec("xpcall not implemented"@)),
{
    let _ = args;
    Err(LuaError::runtime_error("xpcall not implemented"))
}

/// `string.upper` (ASCII letters only).
pub fn string_upper(args: &Vec<Value>) -> (r: LuaResult<Value>)
    ensures
        builtin_matches(r, string_upper_spec(vals_model(args@))),
{
    string_case_builtin(args, true)
}

/// `string.lower` (ASCII letters only).
pub fn string_lower(args: &Vec<Value>) -> (r: LuaResult<Value>)
    ensures
        builtin_matches(r, string_lower_spec(vals_model(args@))),
{
    string_case_builtin(args, false)
}

/// `string.find`: pattern matching is not part of this engine.
pub fn string_find(args: &Vec<Value>) -> (r: LuaResult<Value>)
    ensures
        builtin_matches(r, unimplemented_spec("string.find not implemented"@)),
{
    let _ = args;
    Err(LuaError::runtime_error("string.find not implemented"))
}

/// `string.gsub`: pattern matching is not part of this engine.
pub fn string_gsub(args: &Vec<Value>) -> (r: LuaResult<Value>)
    ensures
        builtin_matches(r, unimplemented_spec("string.gsub not implemented"@)),
{
    let _ = args;
    Err(LuaError::runtime_error("string.gsub not implemented"))
}

/// `math.ceil`: the identity on integer numbers.
pub fn math_ceil(args: &Vec<Value>) -> (r: LuaResult<Value>)
    ensures
        builtin_matches(r, math_round_spec(vals_model(args@), "math.ceil"@)),
{
    math_round_builtin(args, "math.ceil")
}

/// `math.floor`: the identity on integer numbers.
pub fn math_floor(args: &Vec<Value>) -> (r: LuaResult<Value>)
    ensures
        builtin_matches(r, math_round_spec(vals_model(args@), "math.floor"@)),
{
    math_round_builtin(args, "math.floor")
}

/// `math.max`.
pub fn math_max(args: &Vec<Value>) -> (r: LuaResult<Value>)
    ensures
        builtin_matches(r, math_max_spec(vals_model(args@))),
{
    math_fold_builtin(args, true, "math.max")
}

/// `math.min`.
pub fn math_min(args: &Vec<Value>) -> (r: LuaResult<Value>)
    ensures
        builtin_matches(r, math_min_spec(vals_model(args@))),
{
    math_fold_builtin(args, false, "math.min")
}

/// `table.sort`: sorting is not part of this engine.
pub fn table_sort(args: &Vec<Value>) -> (r: LuaResult<Value>)
    ensures
        builtin_matches(r, unimplemented_spec("table.sort not implemented"@)),
{
    let _ = args;
    Err(LuaError::runtime_error("table.sort not implemented"))
}

/// `io.read`: input is not part of this engine.
pub fn io_read(args: &Vec<Value>) -> (r: LuaResult<Value>)
    ensures
        builtin_matches(r, unimplemented_spec("io.read not implemented"@)),
{
    let _ = args;
    Err(LuaError::runtime_error("io.read not implemented"))
}

/// A builtin with a result the engine cannot represent.
fn unsupported_builtin(what: &str) -> (r: LuaResult<Value>)
    ensures
        builtin_matches(r, unimplemented_spec(what@)),
{
    Err(LuaError::runtime_error(what))
}

} // verus!

use std::io::Write;
