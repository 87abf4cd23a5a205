//! The catalog of built-in functions and the pure value transforms behind
//! them.
//!
//! Each `lang_*` function implements one builtin on already-evaluated
//! arguments; its contract states the exact result.  The higher-order
//! builtins (`map`, `filter`) re-enter the evaluator and live with it.

use vstd::prelude::*;
use vstd::string::{StringExecFns, StrSliceExecFns};
use crate::object::{
    Object, ObjV, BuiltinKind, obj_v, obj_type_name_v, obj_type_name, objs_v, lemma_objs_v_props,
    lemma_objs_v_push, clone_obj, clone_objs,
};
use crate::strutil::{string_to_chars, chars_to_string};

verus! {

/// The name for what `str::trim` returns: the string without leading and
/// trailing whitespace.
pub uninterp spec fn trim_of(s: Seq<char>) -> Seq<char>;

/// The name for what `str::to_lowercase` returns.
pub uninterp spec fn lower_of(s: Seq<char>) -> Seq<char>;

/// The name for what `str::to_uppercase` returns.
pub uninterp spec fn upper_of(s: Seq<char>) -> Seq<char>;

/// The name for what `str::replace` returns: every occurrence of the
/// pattern replaced.
pub uninterp spec fn replace_of(s: Seq<char>, from: Seq<char>, to: Seq<char>) -> Seq<char>;

/// The name for what `str::replacen` returns: the first `n` occurrences of
/// the pattern replaced.
pub uninterp spec fn replacen_of(s: Seq<char>, from: Seq<char>, to: Seq<char>, n: nat) -> Seq<
    char,
>;

/// Relies on `str::trim`: the result depends on the characters alone.
#[verifier::external_body]
fn str_trim(s: &str) -> (r: String)
    ensures
        r@ == trim_of(s@),
{
    String::from_str(s.trim())
}

/// Relies on `str::to_lowercase`: the result depends on the characters
/// alone.
#[verifier::external_body]
fn str_lower(s: &str) -> (r: String)
    ensures
        r@ == lower_of(s@),
{
    s.to_lowercase()
}

/// Relies on `str::to_uppercase`: the result depends on the characters
/// alone.
#[verifier::external_body]
fn str_upper(s: &str) -> (r: String)
    ensures
        r@ == upper_of(s@),
{
    s.to_uppercase()
}

/// Relies on `str::replace`: the result depends on the characters alone.
#[verifier::external_body]
fn str_replace(s: &str, from: &str, to: &str) -> (r: String)
    ensures
        r@ == replace_of(s@, from@, to@),
{
    s.replace(from, to)
}

/// Relies on `str::replacen`: the result depends on the characters alone.
#[verifier::external_body]
fn str_replacen(s: &str, from: &str, to: &str, n: usize) -> (r: String)
    ensures
        r@ == replacen_of(s@, from@, to@, n as nat),
{
    s.replacen(from, to, n)
}

/// The decimal value of a digit run.
pub open spec fn digits_val(s: Seq<char>) -> int
    decreases s.len(),
{
    if s.len() == 0 {
        0
    } else {
        digits_val(s.drop_last()) * 10 + (s.last() as u32 - '0' as u32)
    }
}

/// Whether every character is a decimal digit.
pub open spec fn all_digits(s: Seq<char>) -> bool {
    forall|i: int|
        0 <= i < s.len() ==> ('0' as u32) <= (#[trigger] s[i] as u32) && (s[i] as u32) <= ('9'
            as u32)
}

/// What parsing a decimal 64-bit signed integer yields: an optional sign,
/// then at least one digit, nothing else, and a value in range.
pub open spec fn spec_parse_i64(s: Seq<char>) -> Option<i64> {
    let signed = s.len() > 0 && (s[0] == '+' || s[0] == '-');
    let body = if signed {
        s.subrange(1, s.len() as int)
    } else {
        s
    };
    let neg = s.len() > 0 && s[0] == '-';
    if body.len() == 0 || !all_digits(body) {
        None
    } else {
        let v = digits_val(body);
        if neg {
            if -v >= i64::MIN {
                Some((-v) as i64)
            } else {
                None
            }
        } else {
            if v <= i64::MAX {
                Some(v as i64)
            } else {
                None
            }
        }
    }
}

/// Reads a decimal 64-bit signed integer from text: an optional sign,
/// at least one digit, nothing else, and a value in range.
fn parse_i64(s: &str) -> (r: Option<i64>)
    ensures
        r == spec_parse_i64(s@),
{
    let cs = string_to_chars(s);
    let n = cs.len();
    let signed = n > 0 && (cs[0] == '+' || cs[0] == '-');
    let neg = n > 0 && cs[0] == '-';
    let start: usize = if signed {
        1
    } else {
        0
    };
    proof {
        if !signed {
            assert(s@.subrange(start as int, n as int) =~= s@);
        }
    }
    if start >= n {
        proof {
            assert(signed == (s@.len() > 0 && (s@[0] == '+' || s@[0] == '-')));
            if signed {
                assert(s@.subrange(1, s@.len() as int).len() == 0);
            }
            assert(spec_parse_i64(s@) is None);
        }
        return None;
    }
    let mut val: u64 = 0;
    let mut over = false;
    let mut i = start;
    while i < n
        invariant
            cs@ == s@,
            n == cs@.len(),
            start <= i <= n,
            start < n,
            signed == (s@.len() > 0 && (s@[0] == '+' || s@[0] == '-')),
            neg == (s@.len() > 0 && s@[0] == '-'),
            start == (if signed {
                1int
            } else {
                0int
            }),
            forall|j: int|
                start <= j < i ==> ('0' as u32) <= (#[trigger] s@[j] as u32) && (s@[j] as u32) <= (
                '9' as u32),
            !over ==> val == digits_val(s@.subrange(start as int, i as int)),
            over ==> digits_val(s@.subrange(start as int, i as int)) > u64::MAX,
        decreases n - i,
    {
        let c = cs[i];
        let u = c as u32;
        if !(('0' as u32) <= u && u <= ('9' as u32)) {
            proof {
                let body = s@.subrange(start as int, n as int);
                assert(body[i - start] == s@[i as int]);
                assert(!all_digits(body));
            }
            return None;
        }
        let d = (u - '0' as u32) as u64;
        let ghost prefix = s@.subrange(start as int, i as int);
        let ghost prefix1 = s@.subrange(start as int, i as int + 1);
        proof {
            assert(prefix1.drop_last() =~= prefix);
            assert(prefix1.last() == s@[i as int]);
            assert(digits_val(prefix1) == digits_val(prefix) * 10 + d);
        }
        if !over {
            if val <= (u64::MAX - d) / 10 {
                proof {
                    assert(val * 10 + d <= u64::MAX) by (nonlinear_arith)
                        requires
                            0 <= val,
                            0 <= d <= 9,
                            val <= (u64::MAX - d) / 10,
                    ;
                }
                val = val * 10 + d;
            } else {
                over = true;
                proof {
                    assert(digits_val(prefix) * 10 + d > u64::MAX) by (nonlinear_arith)
                        requires
                            0 <= d <= 9,
                            digits_val(prefix) == val,
                            0 <= val,
                            val > (u64::MAX - d) / 10,
                    ;
                }
            }
        } else {
            proof {
                assert(digits_val(prefix) * 10 + d > u64::MAX) by (nonlinear_arith)
                    requires
                        0 <= d,
                        digits_val(prefix) > u64::MAX,
                ;
            }
        }
        i = i + 1;
    }
    proof {
        let body = s@.subrange(start as int, n as int);
        assert forall|j: int|
            0 <= j < body.len() implies ('0' as u32) <= (#[trigger] body[j] as u32) && (body[j]
            as u32) <= ('9' as u32) by {
            assert(body[j] == s@[j + start]);
        }
        assert(all_digits(body));
        assert(body =~= s@.subrange(start as int, i as int));
    }
    if over {
        return None;
    }
    if neg {
        if val <= 0x8000_0000_0000_0000u64 {
            Some((-(val as i128)) as i64)
        } else {
            None
        }
    } else {
        if val <= i64::MAX as u64 {
            Some(val as i64)
        } else {
            None
        }
    }
}

/// The UTF-8 encoded length of one character, in bytes.
pub open spec fn utf8_len_char(c: char) -> int {
    if (c as u32) < 0x80 {
        1
    } else if (c as u32) < 0x800 {
        2
    } else if (c as u32) < 0x10000 {
        3
    } else {
        4
    }
}

/// The UTF-8 encoded length of a text, in bytes: what the host's string
/// length counts.
pub open spec fn utf8_len(s: Seq<char>) -> int
    decreases s.len(),
{
    if s.len() == 0 {
        0
    } else {
        utf8_len(s.drop_last()) + utf8_len_char(s.last())
    }
}

/// Relies on `str::len`: the length of the UTF-8 encoding, in bytes.
#[verifier::external_body]
fn str_byte_len(s: &str) -> (n: usize)
    ensures
        n == utf8_len(s@),
{
    s.len()
}

/// The message for an argument of the wrong type.
#[verifier::opaque]
pub open spec fn arg_err_v(prefix: Seq<char>, v: ObjV) -> Seq<char> {
    prefix + obj_type_name_v(v)
}

/// Builds the message for an argument of the wrong type.
fn arg_err(prefix: &str, o: &Object) -> (r: Object)
    ensures
        obj_v(r) == ObjV::Error(arg_err_v(prefix@, obj_v(*o))),
{
    let t = obj_type_name(o);
    let m = String::from_str(prefix).concat(t.as_str());
    reveal(arg_err_v);
    proof {
        assert(m@ =~= arg_err_v(prefix@, obj_v(*o)));
    }
    Object::Error(m)
}

/// What `len` returns: the byte length of a string, the element count of
/// an array, an error for any other type.
#[verifier::opaque]
pub open spec fn spec_lang_len(args: Seq<ObjV>) -> ObjV {
    match args[0] {
        ObjV::Str(s) => if utf8_len(s) <= i64::MAX {
            ObjV::Int(utf8_len(s) as i64)
        } else {
            ObjV::Error("length does not fit in an integer"@)
        },
        ObjV::Array(es) => if es.len() <= i64::MAX {
            ObjV::Int(es.len() as i64)
        } else {
            ObjV::Error("length does not fit in an integer"@)
        },
        v => ObjV::Error(arg_err_v("argument to `len` not supported, got "@, v)),
    }
}

/// The byte length of a string, or the element count of an array.
pub fn lang_len(args: Vec<Object>) -> (r: Object)
    requires
        args@.len() == 1,
    ensures
        obj_v(r) == spec_lang_len(objs_v(args@)),
{
    reveal(spec_lang_len);
    reveal(arg_err_v);
    proof {
        lemma_objs_v_props(args@);
    }
    match &args[0] {
        Object::String(s) => {
            let n = str_byte_len(s.as_str());
            if (n as u64) <= (i64::MAX as u64) {
                Object::Int(n as i64)
            } else {
                Object::Error(String::from_str("length does not fit in an integer"))
            }
        },
        Object::Array(es) => {
            proof {
                lemma_objs_v_props(es@);
            }
            if (es.len() as u64) <= (i64::MAX as u64) {
                Object::Int(es.len() as i64)
            } else {
                Object::Error(String::from_str("length does not fit in an integer"))
            }
        },
        o => arg_err("argument to `len` not supported, got ", o),
    }
}

/// What `first` returns: the first element of an array, null when empty.
#[verifier::opaque]
pub open spec fn spec_lang_first(args: Seq<ObjV>) -> ObjV {
    match args[0] {
        ObjV::Array(es) => if es.len() > 0 {
            es[0]
        } else {
            ObjV::Null
        },
        v => ObjV::Error(arg_err_v("argument to `first` must be array. got "@, v)),
    }
}

/// The first element of an array, or null.
pub fn lang_first(args: Vec<Object>) -> (r: Object)
    requires
        args@.len() == 1,
    ensures
        obj_v(r) == spec_lang_first(objs_v(args@)),
{
    reveal(spec_lang_first);
    reveal(arg_err_v);
    proof {
        lemma_objs_v_props(args@);
    }
    match &args[0] {
        Object::Array(es) => {
            proof {
                lemma_objs_v_props(es@);
            }
            if es.len() > 0 {
                clone_obj(&es[0])
            } else {
                Object::Null
            }
        },
        o => arg_err("argument to `first` must be array. got ", o),
    }
}

/// What `last` returns: the last element of an array, null when empty.
#[verifier::opaque]
pub open spec fn spec_lang_last(args: Seq<ObjV>) -> ObjV {
    match args[0] {
        ObjV::Array(es) => if es.len() > 0 {
            es.last()
        } else {
            ObjV::Null
        },
        v => ObjV::Error(arg_err_v("argument to `last` must be array. got "@, v)),
    }
}

/// The last element of an array, or null.
pub fn lang_last(args: Vec<Object>) -> (r: Object)
    requires
        args@.len() == 1,
    ensures
        obj_v(r) == spec_lang_last(objs_v(args@)),
{
    reveal(spec_lang_last);
    reveal(arg_err_v);
    proof {
        lemma_objs_v_props(args@);
    }
    match &args[0] {
        Object::Array(es) => {
            proof {
                lemma_objs_v_props(es@);
            }
            if es.len() > 0 {
                clone_obj(&es[es.len() - 1])
            } else {
                Object::Null
            }
        },
        o => arg_err("argument to `last` must be array. got ", o),
    }
}

/// What `tail` returns: the array without its first element, null when the
/// array is empty.
#[verifier::opaque]
pub open spec fn spec_lang_tail(args: Seq<ObjV>) -> ObjV {
    match args[0] {
        ObjV::Array(es) => if es.len() > 0 {
            ObjV::Array(es.subrange(1, es.len() as int))
        } else {
            ObjV::Null
        },
        v => ObjV::Error(arg_err_v("argument to `tail` must be array. got "@, v)),
    }
}

/// All elements of an array except the first, or null when empty.
pub fn lang_tail(args: Vec<Object>) -> (r: Object)
    requires
        args@.len() == 1,
    ensures
        obj_v(r) == spec_lang_tail(objs_v(args@)),
{
    reveal(spec_lang_tail);
    reveal(arg_err_v);
    proof {
        lemma_objs_v_props(args@);
    }
    match &args[0] {
        Object::Array(es) => {
            proof {
                lemma_objs_v_props(es@);
            }
            if es.len() > 0 {
                let mut out: Vec<Object> = Vec::new();
                let mut i: usize = 1;
                while i < es.len()
                    invariant
                        1 <= i <= es@.len(),
                        out@.len() == i - 1,
                        forall|j: int| 0 <= j < i - 1 ==> obj_v(#[trigger] out@[j]) == obj_v(
                            es@[j + 1],
                        ),
                    decreases es.len() - i,
                {
                    out.push(clone_obj(&es[i]));
                    i = i + 1;
                }
                proof {
                    lemma_objs_v_props(out@);
                    lemma_objs_v_props(es@);
                    assert(objs_v(out@) =~= objs_v(es@).subrange(1, es@.len() as int));
                    assert(objs_v(args@)[0] == obj_v(args@[0]));
                    assert(objs_v(args@)[0] == ObjV::Array(objs_v(es@)));
                    assert(spec_lang_tail(objs_v(args@)) == ObjV::Array(
                        objs_v(es@).subrange(1, objs_v(es@).len() as int),
                    ));
                }
                Object::Array(out)
            } else {
                Object::Null
            }
        },
        o => arg_err("argument to `tail` must be array. got ", o),
    }
}

/// What `get` returns: the element at an index, null when out of range, an
/// error for other argument types.  A negative index is out of range.
#[verifier::opaque]
pub open spec fn spec_lang_get(args: Seq<ObjV>) -> ObjV {
    match (args[0], args[1]) {
        (ObjV::Array(es), ObjV::Int(i)) => if 0 <= i < es.len() {
            es[i as int]
        } else {
            ObjV::Null
        },
        (a, b) => ObjV::Error(
            arg_err_v(arg_err_v("argument to `get` must be Array, Int. got "@, a) + ", "@, b),
        ),
    }
}

/// The element of an array at an index, or null.
pub fn lang_get(args: Vec<Object>) -> (r: Object)
    requires
        args@.len() == 2,
    ensures
        obj_v(r) == spec_lang_get(objs_v(args@)),
{
    reveal(spec_lang_get);
    reveal(arg_err_v);
    proof {
        lemma_objs_v_props(args@);
    }
    let bad = match (&args[0], &args[1]) {
        (Object::Array(_), Object::Int(_)) => false,
        _ => true,
    };
    if bad {
        let t0 = obj_type_name(&args[0]);
        let t1 = obj_type_name(&args[1]);
        let m = String::from_str("argument to `get` must be Array, Int. got ").concat(
            t0.as_str(),
        ).concat(", ").concat(t1.as_str());
        proof {
            assert(m@ =~= arg_err_v(
                arg_err_v(
                    "argument to `get` must be Array, Int. got "@,
                    objs_v(args@)[0],
                ) + ", "@,
                objs_v(args@)[1],
            ));
        }
        return Object::Error(m);
    }
    match (&args[0], &args[1]) {
        (Object::Array(es), Object::Int(i)) => {
            proof {
                lemma_objs_v_props(es@);
            }
            if *i >= 0 && (*i as u64) < (es.len() as u64) {
                clone_obj(&es[*i as usize])
            } else {
                Object::Null
            }
        },
        _ => Object::Null,
    }
}

/// What `push` returns: a new array with the value appended; arrays are
/// copied, never mutated in place.
#[verifier::opaque]
pub open spec fn spec_lang_push(args: Seq<ObjV>) -> ObjV {
    match args[0] {
        ObjV::Array(es) => ObjV::Array(es.push(args[1])),
        v => ObjV::Error(arg_err_v("argument to `push` must be array. got "@, v)),
    }
}

/// A copy of an array with one more element at the end.
pub fn lang_push(args: Vec<Object>) -> (r: Object)
    requires
        args@.len() == 2,
    ensures
        obj_v(r) == spec_lang_push(objs_v(args@)),
{
    reveal(spec_lang_push);
    reveal(arg_err_v);
    proof {
        lemma_objs_v_props(args@);
    }
    match &args[0] {
        Object::Array(es) => {
            let mut out = clone_objs(es);
            let ghost before = out@;
            out.push(clone_obj(&args[1]));
            proof {
                lemma_objs_v_push(before, out@.last());
            }
            Object::Array(out)
        },
        o => arg_err("argument to `push` must be array. got ", o),
    }
}

/// What `reverse` returns: the array in reverse order.
#[verifier::opaque]
pub open spec fn spec_lang_reverse(args: Seq<ObjV>) -> ObjV {
    match args[0] {
        ObjV::Array(es) => ObjV::Array(es.reverse()),
        v => ObjV::Error(arg_err_v("argument to `reverse` must be Array. got "@, v)),
    }
}

/// A reversed copy of an array.
pub fn lang_reverse(args: Vec<Object>) -> (r: Object)
    requires
        args@.len() == 1,
    ensures
        obj_v(r) == spec_lang_reverse(objs_v(args@)),
{
    reveal(spec_lang_reverse);
    reveal(arg_err_v);
    proof {
        lemma_objs_v_props(args@);
    }
    match &args[0] {
        Object::Array(es) => {
            let mut out: Vec<Object> = Vec::new();
            let mut i: usize = es.len();
            while i > 0
                invariant
                    i <= es@.len(),
                    out@.len() == es@.len() - i,
                    forall|j: int| 0 <= j < out@.len() ==> obj_v(#[trigger] out@[j]) == obj_v(
                        es@[es@.len() - 1 - j],
                    ),
                decreases i,
            {
                i = i - 1;
                out.push(clone_obj(&es[i]));
            }
            proof {
                lemma_objs_v_props(out@);
                lemma_objs_v_props(es@);
                assert(objs_v(out@) =~= objs_v(es@).reverse());
            }
            Object::Array(out)
        },
        o => arg_err("argument to `reverse` must be Array. got ", o),
    }
}

/// What `trim` returns: the string without leading and trailing
/// whitespace.
#[verifier::opaque]
pub open spec fn spec_lang_trim(args: Seq<ObjV>) -> ObjV {
    match args[0] {
        ObjV::Str(s) => ObjV::Str(trim_of(s)),
        v => ObjV::Error(arg_err_v("argument to `trim` must be a String. got "@, v)),
    }
}

/// The string without leading and trailing whitespace.
pub fn lang_trim(args: Vec<Object>) -> (r: Object)
    requires
        args@.len() == 1,
    ensures
        obj_v(r) == spec_lang_trim(objs_v(args@)),
{
    reveal(spec_lang_trim);
    reveal(arg_err_v);
    proof {
        lemma_objs_v_props(args@);
    }
    match &args[0] {
        Object::String(s) => Object::String(str_trim(s.as_str())),
        o => arg_err("argument to `trim` must be a String. got ", o),
    }
}

/// What `lowercase` returns.
#[verifier::opaque]
pub open spec fn spec_lang_lowercase(args: Seq<ObjV>) -> ObjV {
    match args[0] {
        ObjV::Str(s) => ObjV::Str(lower_of(s)),
        v => ObjV::Error(arg_err_v("argument to `lowercase` must be a String. got "@, v)),
    }
}

/// The lowercase equivalent of a string.
pub fn lang_to_lowercase(args: Vec<Object>) -> (r: Object)
    requires
        args@.len() == 1,
    ensures
        obj_v(r) == spec_lang_lowercase(objs_v(args@)),
{
    reveal(spec_lang_lowercase);
    reveal(arg_err_v);
    proof {
        lemma_objs_v_props(args@);
    }
    match &args[0] {
        Object::String(s) => Object::String(str_lower(s.as_str())),
        o => arg_err("argument to `lowercase` must be a String. got ", o),
    }
}

/// What `uppercase` returns.
#[verifier::opaque]
pub open spec fn spec_lang_uppercase(args: Seq<ObjV>) -> ObjV {
    match args[0] {
        ObjV::Str(s) => ObjV::Str(upper_of(s)),
        v => ObjV::Error(arg_err_v("argument to `uppercase` must be a String. got "@, v)),
    }
}

/// The uppercase equivalent of a string.
pub fn lang_to_uppercase(args: Vec<Object>) -> (r: Object)
    requires
        args@.len() == 1,
    ensures
        obj_v(r) == spec_lang_uppercase(objs_v(args@)),
{
    reveal(spec_lang_uppercase);
    reveal(arg_err_v);
    proof {
        lemma_objs_v_props(args@);
    }
    match &args[0] {
        Object::String(s) => Object::String(str_upper(s.as_str())),
        o => arg_err("argument to `uppercase` must be a String. got ", o),
    }
}

/// What `replaceString` returns: all matches of the pattern replaced.
#[verifier::opaque]
pub open spec fn spec_lang_replace(args: Seq<ObjV>) -> ObjV {
    match (args[0], args[1], args[2]) {
        (ObjV::Str(a), ObjV::Str(b), ObjV::Str(c)) => ObjV::Str(replace_of(a, b, c)),
        (x, y, z) => ObjV::Error(
            arg_err_v(
                arg_err_v(
                    arg_err_v(
                        "argument to `replaceString` must be a String, String, String. got "@,
                        x,
                    ) + ", "@,
                    y,
                ) + ", "@,
                z,
            ),
        ),
    }
}

/// Replaces all matches of a pattern in a string.
pub fn lang_replace_substring(args: Vec<Object>) -> (r: Object)
    requires
        args@.len() == 3,
    ensures
        obj_v(r) == spec_lang_replace(objs_v(args@)),
{
    reveal(spec_lang_replace);
    reveal(arg_err_v);
    proof {
        lemma_objs_v_props(args@);
    }
    let ok = match (&args[0], &args[1], &args[2]) {
        (Object::String(_), Object::String(_), Object::String(_)) => true,
        _ => false,
    };
    if ok {
        match (&args[0], &args[1], &args[2]) {
            (Object::String(a), Object::String(b), Object::String(c)) => Object::String(
                str_replace(a.as_str(), b.as_str(), c.as_str()),
            ),
            _ => Object::Null,
        }
    } else {
        let t0 = obj_type_name(&args[0]);
        let t1 = obj_type_name(&args[1]);
        let t2 = obj_type_name(&args[2]);
        let m = String::from_str("argument to `replaceString` must be a String, String, String. got ")
            .concat(t0.as_str()).concat(", ").concat(t1.as_str()).concat(", ").concat(t2.as_str());
        proof {
            assert(m@ =~= arg_err_v(
                arg_err_v(
                    arg_err_v(
                        "argument to `replaceString` must be a String, String, String. got "@,
                        objs_v(args@)[0],
                    ) + ", "@,
                    objs_v(args@)[1],
                ) + ", "@,
                objs_v(args@)[2],
            ));
        }
        Object::Error(m)
    }
}

/// What `replaceN` returns: the first `n` matches replaced.  The count is
/// a number of matches, so a negative count deliberately replaces nothing
/// (rather than wrapping around to a huge unsigned count), and a count
/// beyond the platform's word size is capped at it.
#[verifier::opaque]
pub open spec fn spec_lang_replacen(args: Seq<ObjV>) -> ObjV {
    match (args[0], args[1], args[2], args[3]) {
        (ObjV::Str(a), ObjV::Str(b), ObjV::Str(c), ObjV::Int(n)) => ObjV::Str(
            replacen_of(
                a,
                b,
                c,
                (if n < 0 {
                    0
                } else if n <= usize::MAX {
                    n as int
                } else {
                    usize::MAX as int
                }) as nat,
            ),
        ),
        (x, y, z, w) => ObjV::Error(
            arg_err_v(
                arg_err_v(
                    arg_err_v(
                        arg_err_v(
                            "argument to `replaceN` must be a String, String, String, Int. got "@,
                            x,
                        ) + ", "@,
                        y,
                    ) + ", "@,
                    z,
                ) + ", "@,
                w,
            ),
        ),
    }
}

/// Replaces the first `n` matches of a pattern in a string.
pub fn lang_replace_n_substring(args: Vec<Object>) -> (r: Object)
    requires
        args@.len() == 4,
    ensures
        obj_v(r) == spec_lang_replacen(objs_v(args@)),
{
    reveal(spec_lang_replacen);
    reveal(arg_err_v);
    proof {
        lemma_objs_v_props(args@);
    }
    let ok = match (&args[0], &args[1], &args[2], &args[3]) {
        (Object::String(_), Object::String(_), Object::String(_), Object::Int(_)) => true,
        _ => false,
    };
    if ok {
        match (&args[0], &args[1], &args[2], &args[3]) {
            (Object::String(a), Object::String(b), Object::String(c), Object::Int(n)) => {
                let count: usize = if *n < 0 {
                    0
                } else if (*n as u64) <= (usize::MAX as u64) {
                    *n as usize
                } else {
                    usize::MAX
                };
                Object::String(str_replacen(a.as_str(), b.as_str(), c.as_str(), count))
            },
            _ => Object::Null,
        }
    } else {
        let t0 = obj_type_name(&args[0]);
        let t1 = obj_type_name(&args[1]);
        let t2 = obj_type_name(&args[2]);
        let t3 = obj_type_name(&args[3]);
        let m = String::from_str(
            "argument to `replaceN` must be a String, String, String, Int. got ",
        ).concat(t0.as_str()).concat(", ").concat(t1.as_str()).concat(", ").concat(
            t2.as_str(),
        ).concat(", ").concat(t3.as_str());
        proof {
            assert(m@ =~= arg_err_v(
                arg_err_v(
                    arg_err_v(
                        arg_err_v(
                            "argument to `replaceN` must be a String, String, String, Int. got "@,
                            objs_v(args@)[0],
                        ) + ", "@,
                        objs_v(args@)[1],
                    ) + ", "@,
                    objs_v(args@)[2],
                ) + ", "@,
                objs_v(args@)[3],
            ));
        }
        Object::Error(m)
    }
}

/// What `explode` returns: the string as an array of one-character
/// strings, in order.
#[verifier::opaque]
pub open spec fn spec_lang_explode(args: Seq<ObjV>) -> ObjV {
    match args[0] {
        ObjV::Str(s) => ObjV::Array(Seq::new(s.len(), |i: int| ObjV::Str(seq![s[i]]))),
        v => ObjV::Error(arg_err_v("argument to `explode` must be a String. got "@, v)),
    }
}

/// The characters of a string, each as a one-character string.
pub fn lang_explode(args: Vec<Object>) -> (r: Object)
    requires
        args@.len() == 1,
    ensures
        obj_v(r) == spec_lang_explode(objs_v(args@)),
{
    reveal(spec_lang_explode);
    reveal(arg_err_v);
    proof {
        lemma_objs_v_props(args@);
    }
    match &args[0] {
        Object::String(s) => {
            let cs = string_to_chars(s.as_str());
            let mut out: Vec<Object> = Vec::new();
            let mut i: usize = 0;
            while i < cs.len()
                invariant
                    i <= cs@.len(),
                    out@.len() == i,
                    forall|j: int| 0 <= j < i ==> obj_v(#[trigger] out@[j]) == ObjV::Str(
                        seq![cs@[j]],
                    ),
                decreases cs.len() - i,
            {
                let mut one: Vec<char> = Vec::new();
                one.push(cs[i]);
                proof {
                    assert(one@ =~= seq![cs@[i as int]]);
                }
                out.push(Object::String(chars_to_string(&one)));
                i = i + 1;
            }
            proof {
                lemma_objs_v_props(out@);
                assert(objs_v(out@) =~= Seq::new(s@.len(), |j: int| ObjV::Str(seq![s@[j]])));
            }
            Object::Array(out)
        },
        o => arg_err("argument to `explode` must be a String. got ", o),
    }
}

/// What `parseNumber` returns: the string read as a 64-bit signed integer,
/// or an error when it cannot be.
#[verifier::opaque]
pub open spec fn spec_lang_parse_number(args: Seq<ObjV>) -> ObjV {
    match args[0] {
        ObjV::Str(s) => match spec_parse_i64(s) {
            Some(i) => ObjV::Int(i),
            None => ObjV::Error("could not parse int"@),
        },
        v => ObjV::Error(arg_err_v("argument to `parseNumber` must be a String. got "@, v)),
    }
}

/// A string read as an integer.
pub fn lang_parse_number(args: Vec<Object>) -> (r: Object)
    requires
        args@.len() == 1,
    ensures
        obj_v(r) == spec_lang_parse_number(objs_v(args@)),
{
    reveal(spec_lang_parse_number);
    reveal(arg_err_v);
    proof {
        lemma_objs_v_props(args@);
    }
    match &args[0] {
        Object::String(s) => {
            match parse_i64(s.as_str()) {
                Some(i) => Object::Int(i),
                None => Object::Error(String::from_str("could not parse int")),
            }
        },
        o => arg_err("argument to `parseNumber` must be a String. got ", o),
    }
}

/// What `sort` returns: it is not implemented and reports so.
#[verifier::opaque]
pub open spec fn spec_lang_sort(args: Seq<ObjV>) -> ObjV {
    ObjV::Error("TODO: sort is not implemented yet"@)
}

/// The unimplemented `sort` builtin.
pub fn lang_sort(args: Vec<Object>) -> (r: Object)
    ensures
        obj_v(r) == spec_lang_sort(objs_v(args@)),
{
    reveal(spec_lang_sort);
    Object::Error(String::from_str("TODO: sort is not implemented yet"))
}

/// The built-in catalog: each name with its declared arity and dispatch
/// tag, in a fixed order.  The host adds `print` itself.
pub fn new_builtins() -> (r: Vec<(String, Object)>)
    ensures
        r@.len() == 20,
        crate::env::binds_wf(crate::env::binds_v(r@), 1),
        r@[0].0@ == "read"@ && obj_v(r@[0].1) == ObjV::Builtin(0, BuiltinKind::Read),
        r@[1].0@ == "readFile"@ && obj_v(r@[1].1) == ObjV::Builtin(1, BuiltinKind::ReadFile),
        r@[2].0@ == "writeFile"@ && obj_v(r@[2].1) == ObjV::Builtin(2, BuiltinKind::WriteFile),
        r@[3].0@ == "len"@ && obj_v(r@[3].1) == ObjV::Builtin(1, BuiltinKind::Len),
        r@[4].0@ == "first"@ && obj_v(r@[4].1) == ObjV::Builtin(1, BuiltinKind::First),
        r@[5].0@ == "last"@ && obj_v(r@[5].1) == ObjV::Builtin(1, BuiltinKind::Last),
        r@[6].0@ == "tail"@ && obj_v(r@[6].1) == ObjV::Builtin(1, BuiltinKind::Tail),
        r@[7].0@ == "get"@ && obj_v(r@[7].1) == ObjV::Builtin(2, BuiltinKind::Get),
        r@[8].0@ == "push"@ && obj_v(r@[8].1) == ObjV::Builtin(2, BuiltinKind::Push),
        r@[9].0@ == "map"@ && obj_v(r@[9].1) == ObjV::Builtin(2, BuiltinKind::MapFn),
        r@[10].0@ == "filter"@ && obj_v(r@[10].1) == ObjV::Builtin(2, BuiltinKind::FilterFn),
        r@[11].0@ == "sort"@ && obj_v(r@[11].1) == ObjV::Builtin(2, BuiltinKind::Sort),
        r@[12].0@ == "reverse"@ && obj_v(r@[12].1) == ObjV::Builtin(1, BuiltinKind::Reverse),
        r@[13].0@ == "trim"@ && obj_v(r@[13].1) == ObjV::Builtin(1, BuiltinKind::Trim),
        r@[14].0@ == "parseNumber"@ && obj_v(r@[14].1) == ObjV::Builtin(1, BuiltinKind::ParseNumber),
        r@[15].0@ == "explode"@ && obj_v(r@[15].1) == ObjV::Builtin(1, BuiltinKind::Explode),
        r@[16].0@ == "replaceString"@ && obj_v(r@[16].1) == ObjV::Builtin(3, BuiltinKind::ReplaceString),
        r@[17].0@ == "replaceN"@ && obj_v(r@[17].1) == ObjV::Builtin(4, BuiltinKind::ReplaceN),
        r@[18].0@ == "lowercase"@ && obj_v(r@[18].1) == ObjV::Builtin(1, BuiltinKind::Lowercase),
        r@[19].0@ == "uppercase"@ && obj_v(r@[19].1) == ObjV::Builtin(1, BuiltinKind::Uppercase),
{
    let mut b: Vec<(String, Object)> = Vec::new();
    b.push((String::from_str("read"), Object::Builtin(0, BuiltinKind::Read)));
    b.push((String::from_str("readFile"), Object::Builtin(1, BuiltinKind::ReadFile)));
    b.push((String::from_str("writeFile"), Object::Builtin(2, BuiltinKind::WriteFile)));
    b.push((String::from_str("len"), Object::Builtin(1, BuiltinKind::Len)));
    b.push((String::from_str("first"), Object::Builtin(1, BuiltinKind::First)));
    b.push((String::from_str("last"), Object::Builtin(1, BuiltinKind::Last)));
    b.push((String::from_str("tail"), Object::Builtin(1, BuiltinKind::Tail)));
    b.push((String::from_str("get"), Object::Builtin(2, BuiltinKind::Get)));
    b.push((String::from_str("push"), Object::Builtin(2, BuiltinKind::Push)));
    b.push((String::from_str("map"), Object::Builtin(2, BuiltinKind::MapFn)));
    b.push((String::from_str("filter"), Object::Builtin(2, BuiltinKind::FilterFn)));
    b.push((String::from_str("sort"), Object::Builtin(2, BuiltinKind::Sort)));
    b.push((String::from_str("reverse"), Object::Builtin(1, BuiltinKind::Reverse)));
    b.push((String::from_str("trim"), Object::Builtin(1, BuiltinKind::Trim)));
    b.push((String::from_str("parseNumber"), Object::Builtin(1, BuiltinKind::ParseNumber)));
    b.push((String::from_str("explode"), Object::Builtin(1, BuiltinKind::Explode)));
    b.push((String::from_str("replaceString"), Object::Builtin(3, BuiltinKind::ReplaceString)));
    b.push((String::from_str("replaceN"), Object::Builtin(4, BuiltinKind::ReplaceN)));
    b.push((String::from_str("lowercase"), Object::Builtin(1, BuiltinKind::Lowercase)));
    b.push((String::from_str("uppercase"), Object::Builtin(1, BuiltinKind::Uppercase)));
    proof {
        assert forall|i: int| 0 <= i < crate::env::binds_v(b@).len() implies crate::object::obj_wf(
            #[trigger] crate::env::binds_v(b@)[i].1,
            1,
        ) by {
        }
        crate::env::lemma_binds_wf_intro(crate::env::binds_v(b@), 1);
    }
    b
}

} // verus!
