//! The `string` module: conversions from byte strings to integers.
//!
//! Every function returns `None` where its result is undefined; none of
//! them fails in any other way.
use vstd::prelude::*;
use crate::ast::Type;
use crate::symbol_table::{FuncSignature, SymbolTable, TypeValue};

verus! {

/// The number under which the host provides `length`.
pub const LENGTH_FN: u32 = 0;

/// The number under which the host provides `to_int` with one argument.
pub const TO_INT_FN: u32 = 1;

/// The number under which the host provides `to_int` with a base.
pub const TO_INT_BASE_FN: u32 = 2;

/// Whether `sig` takes arguments of the types `args`, gives an integer and
/// has the number `func_id`.
pub open spec fn gives_integer(sig: FuncSignature, args: Seq<Type>, func_id: u32) -> bool {
    sig.args@ == args && sig.result == Type::Integer && sig.func_id == func_id
}

/// Whether `t` holds the functions of this module and nothing else:
/// `length` of a string, and `to_int` of a string or of a string and a
/// base.
pub open spec fn is_string_module(t: SymbolTable) -> bool {
    &&& t.get("length"@) matches Some(TypeValue::Func(sigs)) && sigs@.len() == 1 && gives_integer(
        sigs@[0],
        seq![Type::String],
        LENGTH_FN,
    )
    &&& t.get("to_int"@) matches Some(TypeValue::Func(sigs)) && sigs@.len() == 2 && gives_integer(
        sigs@[0],
        seq![Type::String],
        TO_INT_FN,
    ) && gives_integer(sigs@[1], seq![Type::String, Type::Integer], TO_INT_BASE_FN)
    &&& forall|name: Seq<char>| name != "length"@ && name != "to_int"@ ==> t.get(name).is_none()
}

/// A signature of a function that gives an integer.
fn integer_function(args: Vec<Type>, func_id: u32) -> (sig: FuncSignature)
    ensures
        gives_integer(sig, args@, func_id),
{
    FuncSignature { args, result: Type::Integer, func_id }
}

/// The symbols of this module.
pub fn symbols() -> (t: SymbolTable)
    ensures
        t.wf(),
        is_string_module(t),
{
    let mut t = SymbolTable::new();
    let mut text: Vec<Type> = Vec::new();
    text.push(Type::String);
    let mut text_again: Vec<Type> = Vec::new();
    text_again.push(Type::String);
    let mut text_and_base: Vec<Type> = Vec::new();
    text_and_base.push(Type::String);
    text_and_base.push(Type::Integer);
    let mut length_sigs: Vec<FuncSignature> = Vec::new();
    length_sigs.push(integer_function(text, LENGTH_FN));
    let mut to_int_sigs: Vec<FuncSignature> = Vec::new();
    to_int_sigs.push(integer_function(text_again, TO_INT_FN));
    to_int_sigs.push(integer_function(text_and_base, TO_INT_BASE_FN));
    proof {
        reveal_strlit("length");
        reveal_strlit("to_int");
        assert("length"@[0] != "to_int"@[0]);
        assert(text@ =~= seq![Type::String]);
        assert(text_again@ =~= seq![Type::String]);
        assert(text_and_base@ =~= seq![Type::String, Type::Integer]);
    }
    t.insert("length", TypeValue::Func(length_sigs));
    t.insert("to_int", TypeValue::Func(to_int_sigs));
    t
}

/// The smallest radix that `to_int_base` accepts.
pub const MIN_BASE: i64 = 2;

/// The largest radix that `to_int_base` accepts.
pub const MAX_BASE: i64 = 36;

/// The value of one digit: `0`-`9` count 0 to 9, letters of either case
/// count 10 to 35. Any other byte is no digit.
pub open spec fn digit_value(b: u8) -> Option<int> {
    if 0x30 <= b <= 0x39 {
        Some(b - 0x30)
    } else if 0x61 <= b <= 0x7a {
        Some(b - 0x61 + 10)
    } else if 0x41 <= b <= 0x5a {
        Some(b - 0x41 + 10)
    } else {
        None
    }
}

/// The number that a run of digits denotes in `base`, most significant
/// digit first; `None` where a byte is no digit of that base. The empty
/// run denotes 0.
pub open spec fn digits_value(s: Seq<u8>, base: int) -> Option<int>
    decreases s.len(),
{
    if s.len() == 0 {
        Some(0)
    } else {
        match (digits_value(s.drop_last(), base), digit_value(s.last())) {
            (Some(v), Some(d)) => if d < base {
                Some(v * base + d)
            } else {
                None
            },
            _ => None,
        }
    }
}

/// Whether `s` starts with a sign.
pub open spec fn has_sign(s: Seq<u8>) -> bool {
    s.len() > 0 && (s[0] == 0x2d || s[0] == 0x2b)
}

/// The integer that `s` denotes in `base`: an optional `+` or `-`, then at
/// least one digit of that base and nothing else, the whole within the
/// range of a signed 64-bit integer. `None` for every other string.
pub open spec fn parse_int(s: Seq<u8>, base: int) -> Option<int> {
    let digits = if has_sign(s) { s.skip(1) } else { s };
    if digits.len() == 0 {
        None
    } else {
        match digits_value(digits, base) {
            Some(v) => {
                let n = if has_sign(s) && s[0] == 0x2d { -v } else { v };
                if i64::MIN <= n <= i64::MAX {
                    Some(n)
                } else {
                    None
                }
            },
            None => None,
        }
    }
}

/// What `to_int_base` returns: the parsed integer for a base from 2 to 36,
/// undefined for any other base.
pub open spec fn to_int_base_spec(s: Seq<u8>, base: int) -> Option<i64> {
    if MIN_BASE <= base <= MAX_BASE {
        match parse_int(s, base) {
            Some(n) => Some(n as i64),
            None => None,
        }
    } else {
        None
    }
}

/// A run of digits with a value has a value on each of its prefixes, and
/// that value is no larger.
pub proof fn lemma_prefix_value(s: Seq<u8>, base: int, k: int)
    requires
        base >= 1,
        0 <= k <= s.len(),
        digits_value(s, base).is_some(),
    ensures
        digits_value(s.take(k), base).is_some(),
        0 <= digits_value(s.take(k), base).unwrap() <= digits_value(s, base).unwrap(),
    decreases s.len(),
{
    if k == s.len() {
        assert(s.take(k) =~= s);
        lemma_value_nonnegative(s, base);
    } else {
        let t = s.drop_last();
        lemma_prefix_value(t, base, k);
        assert(t.take(k) =~= s.take(k));
        let v = digits_value(t, base).unwrap();
        let d = digit_value(s.last()).unwrap();
        lemma_value_nonnegative(t, base);
        assert(v * base + d >= v) by (nonlinear_arith)
            requires
                v >= 0,
                base >= 1,
                d >= 0,
        ;
    }
}

/// The value of a run of digits is never negative.
pub proof fn lemma_value_nonnegative(s: Seq<u8>, base: int)
    requires
        base >= 1,
        digits_value(s, base).is_some(),
    ensures
        digits_value(s, base).unwrap() >= 0,
    decreases s.len(),
{
    if s.len() > 0 {
        let t = s.drop_last();
        lemma_value_nonnegative(t, base);
        let v = digits_value(t, base).unwrap();
        let d = digit_value(s.last()).unwrap();
        assert(v * base + d >= 0) by (nonlinear_arith)
            requires
                v >= 0,
                base >= 1,
                d >= 0,
        ;
    }
}

/// The value of the digit `b`, if it is one.
fn digit_of(b: u8) -> (r: Option<u8>)
    ensures
        match r {
            Some(d) => digit_value(b) == Some(d as int) && d < 36,
            None => digit_value(b).is_none(),
        },
{
    if 0x30 <= b && b <= 0x39 {
        Some(b - 0x30)
    } else if 0x61 <= b && b <= 0x7a {
        Some(b - 0x61 + 10)
    } else if 0x41 <= b && b <= 0x5a {
        Some(b - 0x41 + 10)
    } else {
        None
    }
}

/// Converts a decimal string to an integer.
///
/// The string is an optional sign followed by decimal digits. The result
/// is undefined for any other string and for a number that does not fit
/// in 64 bits.
pub fn to_int(string: &[u8]) -> (r: Option<i64>)
    ensures
        r == to_int_base_spec(string@, 10),
{
    to_int_base(string, 10)
}

/// Converts a string of digits in the given base to an integer.
///
/// The result is undefined where the base is below 2 or above 36, where
/// the string is not an optional sign followed by digits of that base, and
/// where the number does not fit in 64 bits.
pub fn to_int_base(string: &[u8], base: i64) -> (r: Option<i64>)
    ensures
        r == to_int_base_spec(string@, base as int),
{
    if base < MIN_BASE || base > MAX_BASE {
        return None;
    }
    let n: usize = string.len();
    let signed: bool = n > 0 && (string[0] == 0x2d || string[0] == 0x2b);
    let negative: bool = signed && string[0] == 0x2d;
    let start: usize = if signed { 1 } else { 0 };
    if start == n {
        return None;
    }
    let limit: u64 = if negative { 0x8000_0000_0000_0000 } else { 0x7fff_ffff_ffff_ffff };
    let radix: u64 = base as u64;
    let ghost digits = if signed { string@.skip(1) } else { string@ };
    let mut acc: u64 = 0;
    let mut i: usize = start;
    while i < n
        invariant
            start <= i <= n,
            n == string@.len(),
            start == (if signed { 1int } else { 0int }),
            signed == has_sign(string@),
            digits == (if signed { string@.skip(1) } else { string@ }),
            2 <= radix <= 36,
            radix == base,
            negative == (signed && string@[0] == 0x2d),
            limit == (if negative { 0x8000_0000_0000_0000u64 } else { 0x7fff_ffff_ffff_ffffu64 }),
            acc <= limit,
            digits_value(digits.take(i - start), base as int) == Some(acc as int),
        decreases n - i,
    {
        let ghost k = i - start;
        proof {
            let t = digits.take(k + 1);
            assert(t.drop_last() =~= digits.take(k));
            assert(t.last() == string@[i as int]);
            assert(digits_value(t, base as int) == match digit_value(string@[i as int]) {
                Some(d) => if d < base {
                    Some(acc * base + d)
                } else {
                    None
                },
                None => None,
            });
        }
        match digit_of(string[i]) {
            Some(d) => {
                if d as u64 >= radix {
                    proof {
                        if digits_value(digits, base as int).is_some() {
                            lemma_prefix_value(digits, base as int, k + 1);
                        }
                    }
                    return None;
                }
                assert(acc * radix <= 0x8000_0000_0000_0000 * 36) by (nonlinear_arith)
                    requires
                        acc <= 0x8000_0000_0000_0000,
                        radix <= 36,
                ;
                let next: u128 = (acc as u128) * (radix as u128) + (d as u128);
                if next > limit as u128 {
                    proof {
                        if digits_value(digits, base as int).is_some() {
                            lemma_prefix_value(digits, base as int, k + 1);
                        }
                    }
                    return None;
                }
                acc = next as u64;
            },
            None => {
                proof {
                    if digits_value(digits, base as int).is_some() {
                        lemma_prefix_value(digits, base as int, k + 1);
                    }
                }
                return None;
            },
        }
        i = i + 1;
    }
    proof {
        assert(digits.take(n - start) =~= digits);
    }
    if negative {
        if acc == 0x8000_0000_0000_0000 {
            Some(i64::MIN)
        } else {
            Some(-(acc as i64))
        }
    } else {
        Some(acc as i64)
    }
}

/// The length of a string in bytes. It is always defined.
pub fn length(string: &[u8]) -> (r: Option<i64>)
    requires
        string@.len() <= i64::MAX,
    ensures
        r == Some(string@.len() as i64),
{
    Some(string.len() as i64)
}

} // verus!
