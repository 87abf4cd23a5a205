//! The evaluator: depth-first recursive evaluation of the syntax tree
//! against the environment arena, the sole execution engine.
//!
//! It never panics and never throws: every failure is an `Error` object
//! that short-circuits upward, and a `return` wraps its value in a marker
//! consumed at the nearest function-call boundary.  The decision kernels
//! (truthiness, prefix and infix operators, indexing) carry exact
//! contracts; the recursive driver is proved to keep the environment arena
//! well formed and to hand back values whose closures point inside it.
//! Recursion depth is bounded by a fuel; exhausting it yields an `Error`
//! object, never an abort.

use vstd::prelude::*;
use vstd::string::{StringExecFns, StrSliceExecFns};
use crate::ast::{
    Expression, ExprV, Ident, Infix, Literal, LitV, Prefix, Program, Statement, StmtV,
    clone_idents, clone_stmts, expr_v, stmt_v, stmts_v,
};
use crate::object::{
    Object, ObjV, KeyV, BuiltinKind, HashKey, obj_v, obj_wf, objs_v, objs_wf, key_v,
    obj_type_name_v, obj_type_name, lemma_objs_v_props, lemma_objs_v_push, lemma_objs_wf_props,
    lemma_objs_wf_intro, lemma_obj_wf_mono, clone_obj, hpairs_v, lemma_hpairs_v_props,
};
use crate::env::{Env, FrameV, env_wf, env_set, env_push, lookup, lemma_lookup_wf};
use crate::builtins::{
    lang_len, lang_first, lang_last, lang_tail, lang_get, lang_push, lang_reverse, lang_trim,
    lang_to_lowercase, lang_to_uppercase, lang_parse_number, lang_explode, lang_replace_substring,
    lang_replace_n_substring, lang_sort,
};

verus! {

/// Fuel bounding the evaluator's recursion depth; deeper evaluation yields
/// an error object, never an abort.
pub const EVAL_FUEL: u64 = 0x1_0000_0000;

/// The truthiness rule: every value is truthy except boolean false and
/// null.  Integers, including zero, and strings, including the empty one,
/// are truthy.
pub open spec fn truthy(v: ObjV) -> bool {
    !(v == ObjV::Bool(false) || v == ObjV::Null)
}

/// Executable truthiness.
pub fn is_truthy(o: &Object) -> (r: bool)
    ensures
        r == truthy(obj_v(*o)),
{
    match o {
        Object::Bool(b) => *b,
        Object::Null => false,
        _ => true,
    }
}

/// Whether a value short-circuits every combinator above it: an error or a
/// return marker.
pub open spec fn aborts(v: ObjV) -> bool {
    v is Error || v is Return
}

/// Executable short-circuit test.
pub fn is_abort(o: &Object) -> (r: bool)
    ensures
        r == aborts(obj_v(*o)),
{
    match o {
        Object::Error(_) => true,
        Object::ReturnValue(_) => true,
        _ => false,
    }
}

/// The written form of a binary operator, for error messages.
pub open spec fn infix_name_v(op: Infix) -> Seq<char> {
    match op {
        Infix::Plus => "+"@,
        Infix::Minus => "-"@,
        Infix::Divide => "/"@,
        Infix::Multiply => "*"@,
        Infix::Equal => "=="@,
        Infix::NotEqual => "!="@,
        Infix::GreaterThanEqual => ">="@,
        Infix::LessThanEqual => "<="@,
        Infix::GreaterThan => ">"@,
        Infix::LessThan => "<"@,
    }
}

fn infix_name(op: Infix) -> (s: String)
    ensures
        s@ == infix_name_v(op),
{
    match op {
        Infix::Plus => String::from_str("+"),
        Infix::Minus => String::from_str("-"),
        Infix::Divide => String::from_str("/"),
        Infix::Multiply => String::from_str("*"),
        Infix::Equal => String::from_str("=="),
        Infix::NotEqual => String::from_str("!="),
        Infix::GreaterThanEqual => String::from_str(">="),
        Infix::LessThanEqual => String::from_str("<="),
        Infix::GreaterThan => String::from_str(">"),
        Infix::LessThan => String::from_str("<"),
    }
}

/// The type-mismatch error of a binary operation.
pub open spec fn mismatch_v(op: Infix, l: ObjV, r: ObjV) -> ObjV {
    ObjV::Error(
        "type mismatch: "@ + obj_type_name_v(l) + " "@ + infix_name_v(op) + " "@
            + obj_type_name_v(r),
    )
}

fn mismatch(op: Infix, l: &Object, r: &Object) -> (e: Object)
    ensures
        obj_v(e) == mismatch_v(op, obj_v(*l), obj_v(*r)),
{
    let tl = obj_type_name(l);
    let tr = obj_type_name(r);
    let o = infix_name(op);
    let m = String::from_str("type mismatch: ").concat(tl.as_str()).concat(" ").concat(
        o.as_str(),
    ).concat(" ").concat(tr.as_str());
    proof {
        assert(m@ =~= mismatch_v(op, obj_v(*l), obj_v(*r))->Error_0);
    }
    Object::Error(m)
}

/// The absolute value.
pub open spec fn abs_int(x: int) -> int {
    if x < 0 {
        -x
    } else {
        x
    }
}

/// Truncating division, as the host integers divide: the quotient of the
/// magnitudes, negated when the signs differ.
pub open spec fn trunc_div(x: int, y: int) -> int {
    if (x < 0) != (y < 0) {
        -(abs_int(x) / abs_int(y))
    } else {
        abs_int(x) / abs_int(y)
    }
}

/// What a binary operation on two integers yields: wrap-free arithmetic
/// with an explicit overflow error, truncating division with a division-by-
/// zero error, and numeric comparisons.
#[verifier::opaque]
pub open spec fn spec_int_infix(op: Infix, x: i64, y: i64) -> ObjV {
    match op {
        Infix::Plus => if i64::MIN <= x + y <= i64::MAX {
            ObjV::Int((x + y) as i64)
        } else {
            ObjV::Error("integer overflow"@)
        },
        Infix::Minus => if i64::MIN <= x - y <= i64::MAX {
            ObjV::Int((x - y) as i64)
        } else {
            ObjV::Error("integer overflow"@)
        },
        Infix::Multiply => if i64::MIN <= x * y <= i64::MAX {
            ObjV::Int((x * y) as i64)
        } else {
            ObjV::Error("integer overflow"@)
        },
        Infix::Divide => if y == 0 {
            ObjV::Error("division by zero"@)
        } else if i64::MIN <= trunc_div(x as int, y as int) <= i64::MAX {
            ObjV::Int(trunc_div(x as int, y as int) as i64)
        } else {
            ObjV::Error("integer overflow"@)
        },
        Infix::Equal => ObjV::Bool(x == y),
        Infix::NotEqual => ObjV::Bool(x != y),
        Infix::LessThan => ObjV::Bool(x < y),
        Infix::LessThanEqual => ObjV::Bool(x <= y),
        Infix::GreaterThan => ObjV::Bool(x > y),
        Infix::GreaterThanEqual => ObjV::Bool(x >= y),
    }
}

/// What a binary operation yields: integer arithmetic and comparison,
/// string concatenation under `+`, identity comparison of booleans, and a
/// type-mismatch error for every other combination.
#[verifier::opaque]
pub open spec fn spec_infix_op(op: Infix, l: ObjV, r: ObjV) -> ObjV {
    match (l, r) {
        (ObjV::Int(x), ObjV::Int(y)) => spec_int_infix(op, x, y),
        (ObjV::Str(a), ObjV::Str(b)) => match op {
            Infix::Plus => ObjV::Str(a + b),
            _ => mismatch_v(op, l, r),
        },
        (ObjV::Bool(a), ObjV::Bool(b)) => match op {
            Infix::Equal => ObjV::Bool(a == b),
            Infix::NotEqual => ObjV::Bool(a != b),
            _ => mismatch_v(op, l, r),
        },
        _ => mismatch_v(op, l, r),
    }
}

/// Applies a binary operator to two evaluated operands.
pub fn eval_infix_op(op: Infix, l: &Object, r: &Object) -> (res: Object)
    ensures
        obj_v(res) == spec_infix_op(op, obj_v(*l), obj_v(*r)),
{
    proof {
        reveal(spec_infix_op);
        reveal(spec_int_infix);
    }
    match (l, r) {
        (Object::Int(xr), Object::Int(yr)) => {
            let x = *xr;
            let y = *yr;
            match op {
                Infix::Plus => {
                    if (y > 0 && x > i64::MAX - y) || (y < 0 && x < i64::MIN - y) {
                        Object::Error(String::from_str("integer overflow"))
                    } else {
                        Object::Int(x + y)
                    }
                },
                Infix::Minus => {
                    if (y < 0 && x > i64::MAX + y) || (y > 0 && x < i64::MIN + y) {
                        Object::Error(String::from_str("integer overflow"))
                    } else {
                        Object::Int(x - y)
                    }
                },
                Infix::Multiply => {
                    proof {
                        assert((i64::MIN as int) * (i64::MAX as int) <= (x as int) * (y as int)
                            <= (i64::MIN as int) * (i64::MIN as int)) by (nonlinear_arith)
                            requires
                                i64::MIN <= x <= i64::MAX,
                                i64::MIN <= y <= i64::MAX,
                        ;
                    }
                    let p = (x as i128) * (y as i128);
                    if p > i64::MAX as i128 || p < i64::MIN as i128 {
                        Object::Error(String::from_str("integer overflow"))
                    } else {
                        Object::Int(p as i64)
                    }
                },
                Infix::Divide => {
                    if y == 0 {
                        Object::Error(String::from_str("division by zero"))
                    } else {
                        let xm: u64 = if x >= 0 {
                            x as u64
                        } else {
                            (-(x as i128)) as u64
                        };
                        let ym: u64 = if y >= 0 {
                            y as u64
                        } else {
                            (-(y as i128)) as u64
                        };
                        let qm = xm / ym;
                        let neg = (x < 0) != (y < 0);
                        proof {
                            assert(xm == abs_int(x as int));
                            assert(ym == abs_int(y as int));
                            assert(qm == abs_int(x as int) / abs_int(y as int));
                        }
                        if neg {
                            proof {
                                assert(qm <= xm) by (nonlinear_arith)
                                    requires
                                        ym >= 1,
                                        qm == xm / ym,
                                ;
                            }
                            if qm == 0 {
                                Object::Int(0)
                            } else {
                                Object::Int((-(qm as i128)) as i64)
                            }
                        } else {
                            proof {
                                assert(qm <= xm) by (nonlinear_arith)
                                    requires
                                        ym >= 1,
                                        qm == xm / ym,
                                ;
                            }
                            if qm > i64::MAX as u64 {
                                Object::Error(String::from_str("integer overflow"))
                            } else {
                                Object::Int(qm as i64)
                            }
                        }
                    }
                },
                Infix::Equal => Object::Bool(x == y),
                Infix::NotEqual => Object::Bool(x != y),
                Infix::LessThan => Object::Bool(x < y),
                Infix::LessThanEqual => Object::Bool(x <= y),
                Infix::GreaterThan => Object::Bool(x > y),
                Infix::GreaterThanEqual => Object::Bool(x >= y),
            }
        },
        (Object::String(a), Object::String(b)) => {
            match op {
                Infix::Plus => Object::String(a.clone().concat(b.as_str())),
                _ => mismatch(op, l, r),
            }
        },
        (Object::Bool(a), Object::Bool(b)) => {
            match op {
                Infix::Equal => Object::Bool(*a == *b),
                Infix::NotEqual => Object::Bool(*a != *b),
                _ => mismatch(op, l, r),
            }
        },
        _ => mismatch(op, l, r),
    }
}

/// What a prefix operation yields: `!` negates under the truthiness rule,
/// `-` and `+` require an integer operand.
#[verifier::opaque]
pub open spec fn spec_prefix_op(op: Prefix, v: ObjV) -> ObjV {
    match op {
        Prefix::Not => ObjV::Bool(!truthy(v)),
        Prefix::PrefixMinus => match v {
            ObjV::Int(i) => if i == i64::MIN {
                ObjV::Error("integer overflow"@)
            } else {
                ObjV::Int((-i) as i64)
            },
            x => ObjV::Error("unknown operator: -"@ + obj_type_name_v(x)),
        },
        Prefix::PrefixPlus => match v {
            ObjV::Int(i) => ObjV::Int(i),
            x => ObjV::Error("unknown operator: +"@ + obj_type_name_v(x)),
        },
    }
}

/// Applies a prefix operator to an evaluated operand.
pub fn eval_prefix_op(op: Prefix, v: &Object) -> (res: Object)
    ensures
        obj_v(res) == spec_prefix_op(op, obj_v(*v)),
{
    proof {
        reveal(spec_prefix_op);
    }
    match op {
        Prefix::Not => Object::Bool(!is_truthy(v)),
        Prefix::PrefixMinus => {
            match v {
                Object::Int(i) => {
                    if *i == i64::MIN {
                        Object::Error(String::from_str("integer overflow"))
                    } else {
                        Object::Int(-*i)
                    }
                },
                x => {
                    let t = obj_type_name(x);
                    let m = String::from_str("unknown operator: -").concat(t.as_str());
                    proof {
                        assert(m@ =~= "unknown operator: -"@ + obj_type_name_v(obj_v(*x)));
                    }
                    Object::Error(m)
                },
            }
        },
        Prefix::PrefixPlus => {
            match v {
                Object::Int(i) => Object::Int(*i),
                x => {
                    let t = obj_type_name(x);
                    let m = String::from_str("unknown operator: +").concat(t.as_str());
                    proof {
                        assert(m@ =~= "unknown operator: +"@ + obj_type_name_v(obj_v(*x)));
                    }
                    Object::Error(m)
                },
            }
        },
    }
}

/// The value a map object holds for a key: the latest pair wins; absent
/// keys are not an error.
pub open spec fn hash_lookup(ps: Seq<(KeyV, ObjV)>, k: KeyV) -> Option<ObjV>
    decreases ps.len(),
{
    if ps.len() == 0 {
        None
    } else if ps.last().0 == k {
        Some(ps.last().1)
    } else {
        hash_lookup(ps.drop_last(), k)
    }
}

/// Whether two map keys are the same key.
fn hash_key_eq(a: &HashKey, b: &HashKey) -> (r: bool)
    ensures
        r == (key_v(*a) == key_v(*b)),
{
    match (a, b) {
        (HashKey::Int(x), HashKey::Int(y)) => *x == *y,
        (HashKey::Bool(x), HashKey::Bool(y)) => *x == *y,
        (HashKey::Str(x), HashKey::Str(y)) => x.eq(y),
        _ => false,
    }
}

/// The latest value for a key in a map object, cloned.
fn hash_get(ps: &Vec<(HashKey, Object)>, k: &HashKey) -> (r: Option<Object>)
    ensures
        (match r {
            Some(o) => hash_lookup(hpairs_v(ps@), key_v(*k)) == Some(obj_v(o)),
            None => hash_lookup(hpairs_v(ps@), key_v(*k)) is None,
        }),
{
    proof {
        lemma_hpairs_v_props(ps@);
        assert(hpairs_v(ps@).subrange(0, ps@.len() as int) =~= hpairs_v(ps@));
    }
    let mut i = ps.len();
    loop
        invariant
            i <= ps.len(),
            hash_lookup(hpairs_v(ps@), key_v(*k)) == hash_lookup(
                hpairs_v(ps@).subrange(0, i as int),
                key_v(*k),
            ),
        decreases i,
    {
        if i == 0 {
            return None;
        }
        i = i - 1;
        let p = &ps[i];
        proof {
            lemma_hpairs_v_props(ps@);
            assert(hpairs_v(ps@).subrange(0, i as int + 1).last() == (key_v(p.0), obj_v(p.1)));
            assert(hpairs_v(ps@).subrange(0, i as int + 1).drop_last() =~= hpairs_v(
                ps@,
            ).subrange(0, i as int));
        }
        if hash_key_eq(&p.0, k) {
            return Some(clone_obj(&p.1));
        }
    }
}

/// What indexing yields: an array indexed by an integer, null when out of
/// range; a map indexed by a hashable key, null when absent; a type error
/// otherwise.
#[verifier::opaque]
pub open spec fn spec_index_op(base: ObjV, idx: ObjV) -> ObjV {
    match base {
        ObjV::Array(es) => match idx {
            ObjV::Int(i) => if 0 <= i < es.len() {
                es[i as int]
            } else {
                ObjV::Null
            },
            x => ObjV::Error("unsupported index type: "@ + obj_type_name_v(x)),
        },
        ObjV::Hash(ps) => {
            let k = match idx {
                ObjV::Int(i) => Some(KeyV::Int(i)),
                ObjV::Bool(b) => Some(KeyV::Bool(b)),
                ObjV::Str(s) => Some(KeyV::Str(s)),
                _ => None,
            };
            match k {
                Some(key) => match hash_lookup(ps, key) {
                    Some(v) => v,
                    None => ObjV::Null,
                },
                None => ObjV::Error("unusable as hash key: "@ + obj_type_name_v(idx)),
            }
        },
        b => ObjV::Error("index operator not supported for "@ + obj_type_name_v(b)),
    }
}

/// Applies the index operator to evaluated operands.
pub fn eval_index_op(base: &Object, idx: &Object) -> (res: Object)
    ensures
        obj_v(res) == spec_index_op(obj_v(*base), obj_v(*idx)),
{
    proof {
        reveal(spec_index_op);
    }
    match base {
        Object::Array(es) => {
            match idx {
                Object::Int(i) => {
                    proof {
                        lemma_objs_v_props(es@);
                    }
                    if *i >= 0 && (*i as u64) < (es.len() as u64) {
                        clone_obj(&es[*i as usize])
                    } else {
                        Object::Null
                    }
                },
                x => {
                    let t = obj_type_name(x);
                    let m = String::from_str("unsupported index type: ").concat(t.as_str());
                    proof {
                        assert(m@ =~= "unsupported index type: "@ + obj_type_name_v(obj_v(*x)));
                    }
                    Object::Error(m)
                },
            }
        },
        Object::Hash(ps) => {
            let key = match idx {
                Object::Int(i) => Some(HashKey::Int(*i)),
                Object::Bool(b) => Some(HashKey::Bool(*b)),
                Object::String(s) => Some(HashKey::Str(s.clone())),
                _ => None,
            };
            match key {
                Some(k) => {
                    match hash_get(ps, &k) {
                        Some(v) => v,
                        None => Object::Null,
                    }
                },
                None => {
                    let t = obj_type_name(idx);
                    let m = String::from_str("unusable as hash key: ").concat(t.as_str());
                    proof {
                        assert(m@ =~= "unusable as hash key: "@ + obj_type_name_v(obj_v(*idx)));
                    }
                    Object::Error(m)
                },
            }
        },
        b => {
            let t = obj_type_name(b);
            let m = String::from_str("index operator not supported for ").concat(t.as_str());
            proof {
                assert(m@ =~= "index operator not supported for "@ + obj_type_name_v(obj_v(*b)));
            }
            Object::Error(m)
        },
    }
}

/// The model of the evaluator's state: the environment arena and the
/// values printed so far.
#[verifier::ext_equal]
pub struct StV {
    pub env: Seq<FrameV>,
    pub out: Seq<ObjV>,
}

/// The model of one view of `Option<Object>`.
pub open spec fn opt_obj_v(r: Option<Object>) -> Option<ObjV> {
    match r {
        Some(o) => Some(obj_v(o)),
        None => None,
    }
}

/// The model of one view of an argument-evaluation result.
pub open spec fn res_objs_v(r: Result<Vec<Object>, Object>) -> Result<Seq<ObjV>, ObjV> {
    match r {
        Ok(vs) => Ok(objs_v(vs@)),
        Err(a) => Err(obj_v(a)),
    }
}

/// The model of one view of a map-pair-evaluation result.
pub open spec fn res_hpairs_v(r: Result<Vec<(HashKey, Object)>, Object>) -> Result<
    Seq<(KeyV, ObjV)>,
    ObjV,
> {
    match r {
        Ok(ps) => Ok(hpairs_v(ps@)),
        Err(a) => Err(obj_v(a)),
    }
}

/// The map key a literal denotes: literal keys are exactly the hashable
/// types.
pub open spec fn lit_key(l: LitV) -> KeyV {
    match l {
        LitV::Int(i) => KeyV::Int(i),
        LitV::Bool(b) => KeyV::Bool(b),
        LitV::Str(s) => KeyV::Str(s),
    }
}

/// What a statement list evaluates to, from index `i` on: statements run
/// in order; a return marker or error stops the rest and is the value;
/// otherwise the value is the last expression statement's (carried in
/// `last` past trailing `let`s), absent if none produced one.
pub open spec fn spec_eval_stmts(
    stmts: Seq<StmtV>,
    i: int,
    last: Option<ObjV>,
    st: StV,
    frame: int,
    fuel: nat,
) -> (StV, Option<ObjV>)
    decreases fuel,
{
    if fuel == 0 {
        (st, Some(ObjV::Error("evaluation depth limit reached"@)))
    } else {
        let sub = (fuel - 1) as nat;
        if i >= stmts.len() {
            (st, last)
        } else {
            let (st1, v) = spec_eval_stmt(stmts[i], st, frame, sub);
            match v {
                Some(x) => if aborts(x) {
                    (st1, Some(x))
                } else {
                    spec_eval_stmts(stmts, i + 1, Some(x), st1, frame, sub)
                },
                None => spec_eval_stmts(stmts, i + 1, last, st1, frame, sub),
            }
        }
    }
}

/// What one statement evaluates to: a `let` binds in the current frame and
/// yields nothing (an error in its expression propagates unbound); `return`
/// wraps its value in the marker; an expression statement yields its value.
pub open spec fn spec_eval_stmt(s: StmtV, st: StV, frame: int, fuel: nat) -> (StV, Option<ObjV>)
    decreases fuel,
{
    if fuel == 0 {
        (st, Some(ObjV::Error("evaluation depth limit reached"@)))
    } else {
        let sub = (fuel - 1) as nat;
        match s {
            StmtV::Let(name, e) => {
                let (st1, v) = spec_eval_expr(e, st, frame, sub);
                if aborts(v) {
                    (st1, Some(v))
                } else {
                    (StV { env: env_set(st1.env, frame, name, v), out: st1.out }, None)
                }
            },
            StmtV::Return(e) => {
                let (st1, v) = spec_eval_expr(e, st, frame, sub);
                if aborts(v) {
                    (st1, Some(v))
                } else {
                    (st1, Some(ObjV::Return(Box::new(v))))
                }
            },
            StmtV::Expr(e) => {
                let (st1, v) = spec_eval_expr(e, st, frame, sub);
                (st1, Some(v))
            },
        }
    }
}

/// What one expression evaluates to.  Identifiers look outward through the
/// scopes; conditionals choose by truthiness and run their block in a
/// fresh child scope; function literals capture the frame active at their
/// definition; calls evaluate the callee and arguments left to right and
/// apply; array and map literals evaluate eagerly in source order.  An
/// error or return marker in any sub-evaluation propagates unchanged.
pub open spec fn spec_eval_expr(e: ExprV, st: StV, frame: int, fuel: nat) -> (StV, ObjV)
    decreases fuel,
{
    if fuel == 0 {
        (st, ObjV::Error("evaluation depth limit reached"@))
    } else {
        let sub = (fuel - 1) as nat;
        match e {
            ExprV::Ident(n) => (
                st,
                match lookup(st.env, frame, n) {
                    Some(v) => v,
                    None => ObjV::Error("identifier not found: "@ + n),
                },
            ),
            ExprV::Lit(l) => (
                st,
                match l {
                    LitV::Int(i) => ObjV::Int(i),
                    LitV::Bool(b) => ObjV::Bool(b),
                    LitV::Str(str0) => ObjV::Str(str0),
                },
            ),
            ExprV::Prefix(op, inner) => {
                let (st1, v) = spec_eval_expr(*inner, st, frame, sub);
                if aborts(v) {
                    (st1, v)
                } else {
                    (st1, spec_prefix_op(op, v))
                }
            },
            ExprV::Infix(op, l, r) => {
                let (st1, lv) = spec_eval_expr(*l, st, frame, sub);
                if aborts(lv) {
                    (st1, lv)
                } else {
                    let (st2, rv) = spec_eval_expr(*r, st1, frame, sub);
                    if aborts(rv) {
                        (st2, rv)
                    } else {
                        (st2, spec_infix_op(op, lv, rv))
                    }
                }
            },
            ExprV::If { cond, consequence, alternative } => {
                let (st1, c) = spec_eval_expr(*cond, st, frame, sub);
                if aborts(c) {
                    (st1, c)
                } else if truthy(c) {
                    let child = st1.env.len() as int;
                    let st2 = StV { env: env_push(st1.env, frame), out: st1.out };
                    let (st3, r) = spec_eval_stmts(consequence, 0, None, st2, child, sub);
                    (
                        st3,
                        match r {
                            Some(v) => v,
                            None => ObjV::Null,
                        },
                    )
                } else {
                    match alternative {
                        Some(alt) => {
                            let child = st1.env.len() as int;
                            let st2 = StV { env: env_push(st1.env, frame), out: st1.out };
                            let (st3, r) = spec_eval_stmts(alt, 0, None, st2, child, sub);
                            (
                                st3,
                                match r {
                                    Some(v) => v,
                                    None => ObjV::Null,
                                },
                            )
                        },
                        None => (st1, ObjV::Null),
                    }
                }
            },
            ExprV::Func { params, body } => (st, ObjV::Func(params, body, frame)),
            ExprV::Call { function, arguments } => {
                let (st1, f) = spec_eval_expr(*function, st, frame, sub);
                if aborts(f) {
                    (st1, f)
                } else {
                    let (st2, ar) = spec_eval_args(arguments, 0, st1, frame, sub);
                    match ar {
                        Err(a) => (st2, a),
                        Ok(vs) => spec_apply(f, vs, st2, sub),
                    }
                }
            },
            ExprV::Array(es) => {
                let (st1, ar) = spec_eval_args(es, 0, st, frame, sub);
                match ar {
                    Err(a) => (st1, a),
                    Ok(vs) => (st1, ObjV::Array(vs)),
                }
            },
            ExprV::Hash(ps) => {
                let (st1, pr) = spec_eval_hash_pairs(ps, 0, st, frame, sub);
                match pr {
                    Err(a) => (st1, a),
                    Ok(kvs) => (st1, ObjV::Hash(kvs)),
                }
            },
            ExprV::Index(a, ix) => {
                let (st1, base) = spec_eval_expr(*a, st, frame, sub);
                if aborts(base) {
                    (st1, base)
                } else {
                    let (st2, idx) = spec_eval_expr(*ix, st1, frame, sub);
                    if aborts(idx) {
                        (st2, idx)
                    } else {
                        (st2, spec_index_op(base, idx))
                    }
                }
            },
        }
    }
}

/// What argument expressions from index `i` on evaluate to: their values
/// in order, or the first error or return marker.
pub open spec fn spec_eval_args(args: Seq<ExprV>, i: int, st: StV, frame: int, fuel: nat) -> (
    StV,
    Result<Seq<ObjV>, ObjV>,
)
    decreases fuel,
{
    if fuel == 0 {
        (st, Err(ObjV::Error("evaluation depth limit reached"@)))
    } else {
        let sub = (fuel - 1) as nat;
        if i >= args.len() {
            (st, Ok(Seq::empty()))
        } else {
            let (st1, v) = spec_eval_expr(args[i], st, frame, sub);
            if aborts(v) {
                (st1, Err(v))
            } else {
                let (st2, rest) = spec_eval_args(args, i + 1, st1, frame, sub);
                match rest {
                    Ok(vs) => (st2, Ok(seq![v] + vs)),
                    Err(a) => (st2, Err(a)),
                }
            }
        }
    }
}

/// What the pairs of a map literal from index `i` on evaluate to: each
/// literal key with its value, in source order, or the first error or
/// return marker among the values.
pub open spec fn spec_eval_hash_pairs(
    ps: Seq<(LitV, ExprV)>,
    i: int,
    st: StV,
    frame: int,
    fuel: nat,
) -> (StV, Result<Seq<(KeyV, ObjV)>, ObjV>)
    decreases fuel,
{
    if fuel == 0 {
        (st, Err(ObjV::Error("evaluation depth limit reached"@)))
    } else {
        let sub = (fuel - 1) as nat;
        if i >= ps.len() {
            (st, Ok(Seq::empty()))
        } else {
            let (st1, v) = spec_eval_expr(ps[i].1, st, frame, sub);
            if aborts(v) {
                (st1, Err(v))
            } else {
                let (st2, rest) = spec_eval_hash_pairs(ps, i + 1, st1, frame, sub);
                match rest {
                    Ok(kvs) => (st2, Ok(seq![(lit_key(ps[i].0), v)] + kvs)),
                    Err(a) => (st2, Err(a)),
                }
            }
        }
    }
}

/// The arena after binding parameters positionally, from index `i` on, in
/// one frame.
pub open spec fn spec_bind_params(
    ev: Seq<FrameV>,
    frame: int,
    params: Seq<Seq<char>>,
    args: Seq<ObjV>,
    i: int,
) -> Seq<FrameV>
    decreases params.len() - i,
{
    if 0 <= i < params.len() {
        spec_bind_params(env_set(ev, frame, params[i], args[i]), frame, params, args, i + 1)
    } else {
        ev
    }
}

/// What applying a value to evaluated arguments yields.  A closure runs
/// its body in a fresh child of its captured frame with the parameters
/// bound positionally; a return marker is unwrapped at this boundary and
/// an unreturned body's trailing value is the result.  A builtin checks
/// its declared arity (negative accepting any count) and dispatches.
/// Anything else is an error.
pub open spec fn spec_apply(f: ObjV, args: Seq<ObjV>, st: StV, fuel: nat) -> (StV, ObjV)
    decreases fuel,
{
    if fuel == 0 {
        (st, ObjV::Error("evaluation depth limit reached"@))
    } else {
        let sub = (fuel - 1) as nat;
        match f {
            ObjV::Func(params, body, cenv) => {
                if params.len() != args.len() {
                    (st, ObjV::Error("wrong number of arguments"@))
                } else {
                    let child = st.env.len() as int;
                    let env1 = env_push(st.env, cenv);
                    let env2 = spec_bind_params(env1, child, params, args, 0);
                    let (st3, r) = spec_eval_stmts(
                        body,
                        0,
                        None,
                        StV { env: env2, out: st.out },
                        child,
                        sub,
                    );
                    (
                        st3,
                        match r {
                            Some(ObjV::Return(b)) => *b,
                            Some(v) => v,
                            None => ObjV::Null,
                        },
                    )
                }
            },
            ObjV::Builtin(arity, kind) => {
                if arity >= 0 && arity != args.len() {
                    (st, ObjV::Error("wrong number of arguments"@))
                } else {
                    spec_call_builtin(kind, args, st, sub)
                }
            },
            other => (st, ObjV::Error("not a function: "@ + obj_type_name_v(other))),
        }
    }
}

/// What one builtin yields on evaluated arguments.  The pure transforms
/// are their `spec_lang_*` results after an exact argument-count check;
/// `print` appends its arguments to the output; `map` and `filter`
/// re-enter evaluation; the interactive and file builtins need a host and
/// report so.
pub open spec fn spec_call_builtin(kind: BuiltinKind, args: Seq<ObjV>, st: StV, fuel: nat) -> (
    StV,
    ObjV,
)
    decreases fuel,
{
    if fuel == 0 {
        (st, ObjV::Error("evaluation depth limit reached"@))
    } else {
        let sub = (fuel - 1) as nat;
        match kind {
            BuiltinKind::Len => (
                st,
                if args.len() == 1 {
                    crate::builtins::spec_lang_len(args)
                } else {
                    ObjV::Error("wrong number of arguments"@)
                },
            ),
            BuiltinKind::First => (
                st,
                if args.len() == 1 {
                    crate::builtins::spec_lang_first(args)
                } else {
                    ObjV::Error("wrong number of arguments"@)
                },
            ),
            BuiltinKind::Last => (
                st,
                if args.len() == 1 {
                    crate::builtins::spec_lang_last(args)
                } else {
                    ObjV::Error("wrong number of arguments"@)
                },
            ),
            BuiltinKind::Tail => (
                st,
                if args.len() == 1 {
                    crate::builtins::spec_lang_tail(args)
                } else {
                    ObjV::Error("wrong number of arguments"@)
                },
            ),
            BuiltinKind::Get => (
                st,
                if args.len() == 2 {
                    crate::builtins::spec_lang_get(args)
                } else {
                    ObjV::Error("wrong number of arguments"@)
                },
            ),
            BuiltinKind::Push => (
                st,
                if args.len() == 2 {
                    crate::builtins::spec_lang_push(args)
                } else {
                    ObjV::Error("wrong number of arguments"@)
                },
            ),
            BuiltinKind::Reverse => (
                st,
                if args.len() == 1 {
                    crate::builtins::spec_lang_reverse(args)
                } else {
                    ObjV::Error("wrong number of arguments"@)
                },
            ),
            BuiltinKind::Trim => (
                st,
                if args.len() == 1 {
                    crate::builtins::spec_lang_trim(args)
                } else {
                    ObjV::Error("wrong number of arguments"@)
                },
            ),
            BuiltinKind::Lowercase => (
                st,
                if args.len() == 1 {
                    crate::builtins::spec_lang_lowercase(args)
                } else {
                    ObjV::Error("wrong number of arguments"@)
                },
            ),
            BuiltinKind::Uppercase => (
                st,
                if args.len() == 1 {
                    crate::builtins::spec_lang_uppercase(args)
                } else {
                    ObjV::Error("wrong number of arguments"@)
                },
            ),
            BuiltinKind::ParseNumber => (
                st,
                if args.len() == 1 {
                    crate::builtins::spec_lang_parse_number(args)
                } else {
                    ObjV::Error("wrong number of arguments"@)
                },
            ),
            BuiltinKind::Explode => (
                st,
                if args.len() == 1 {
                    crate::builtins::spec_lang_explode(args)
                } else {
                    ObjV::Error("wrong number of arguments"@)
                },
            ),
            BuiltinKind::ReplaceString => (
                st,
                if args.len() == 3 {
                    crate::builtins::spec_lang_replace(args)
                } else {
                    ObjV::Error("wrong number of arguments"@)
                },
            ),
            BuiltinKind::ReplaceN => (
                st,
                if args.len() == 4 {
                    crate::builtins::spec_lang_replacen(args)
                } else {
                    ObjV::Error("wrong number of arguments"@)
                },
            ),
            BuiltinKind::Sort => (st, crate::builtins::spec_lang_sort(args)),
            BuiltinKind::Print => (StV { env: st.env, out: st.out + args }, ObjV::Null),
            BuiltinKind::MapFn => spec_lang_map(args, st, sub),
            BuiltinKind::FilterFn => spec_lang_filter(args, st, sub),
            BuiltinKind::Read => (
                st,
                ObjV::Error("builtin `read` needs an interactive host"@),
            ),
            BuiltinKind::ReadFile => (st, ObjV::Error("builtin `readFile` needs a file host"@)),
            BuiltinKind::WriteFile => (st, ObjV::Error("builtin `writeFile` needs a file host"@)),
        }
    }
}

/// What `map` yields: the array of the per-element closure-body values
/// (return markers unwrapped), or its argument-validation errors.
pub open spec fn spec_lang_map(args: Seq<ObjV>, st: StV, fuel: nat) -> (StV, ObjV)
    decreases fuel,
{
    if fuel == 0 {
        (st, ObjV::Error("evaluation depth limit reached"@))
    } else if args.len() != 2 {
        (st, ObjV::Error("wrong number of arguments to map"@))
    } else {
        let sub = (fuel - 1) as nat;
        match (args[0], args[1]) {
            (ObjV::Array(arr), ObjV::Func(params, body, cenv)) => {
                if params.len() != 1 {
                    (
                        st,
                        ObjV::Error("map function expects a function with exactly one parameter"@),
                    )
                } else {
                    let (st1, r) = spec_map_elems(arr, 0, params[0], body, cenv, st, sub);
                    match r {
                        Ok(vs) => (st1, ObjV::Array(vs)),
                        Err(a) => (st1, a),
                    }
                }
            },
            (ObjV::Array(_), ObjV::Builtin(_, _)) => (
                st,
                ObjV::Error("cannot use builtin functions with map yet; use a function literal"@),
            ),
            (ObjV::Array(_), nf) => (
                st,
                ObjV::Error("second argument to `map` must be a function, got "@ + obj_type_name_v(nf)),
            ),
            (na, _) => (
                st,
                ObjV::Error("first argument to `map` must be an array, got "@ + obj_type_name_v(na)),
            ),
        }
    }
}

/// The per-element evaluations of `map`, from index `i` on: each element
/// bound to the closure's parameter in a fresh child of its captured
/// frame, the body's value (return markers unwrapped) collected; the
/// first error aborts the whole operation.
pub open spec fn spec_map_elems(
    arr: Seq<ObjV>,
    i: int,
    pname: Seq<char>,
    body: Seq<StmtV>,
    cenv: int,
    st: StV,
    fuel: nat,
) -> (StV, Result<Seq<ObjV>, ObjV>)
    decreases fuel,
{
    if fuel == 0 {
        (st, Err(ObjV::Error("evaluation depth limit reached"@)))
    } else if i >= arr.len() {
        (st, Ok(Seq::empty()))
    } else {
        let sub = (fuel - 1) as nat;
        let child = st.env.len() as int;
        let env1 = env_push(st.env, cenv);
        let env2 = env_set(env1, child, pname, arr[i]);
        let (st1, rv) = spec_eval_stmts(
            body,
            0,
            None,
            StV { env: env2, out: st.out },
            child,
            sub,
        );
        let got = match rv {
            Some(ObjV::Return(b)) => *b,
            Some(v) => v,
            None => ObjV::Null,
        };
        if got is Error {
            (st1, Err(got))
        } else {
            let (st2, rest) = spec_map_elems(arr, i + 1, pname, body, cenv, st1, sub);
            match rest {
                Ok(vs) => (st2, Ok(seq![got] + vs)),
                Err(a) => (st2, Err(a)),
            }
        }
    }
}

/// What `filter` yields: the elements whose closure-body value is truthy,
/// in order, or its argument-validation errors.
pub open spec fn spec_lang_filter(args: Seq<ObjV>, st: StV, fuel: nat) -> (StV, ObjV)
    decreases fuel,
{
    if fuel == 0 {
        (st, ObjV::Error("evaluation depth limit reached"@))
    } else if args.len() != 2 {
        (st, ObjV::Error("wrong number of arguments to filter"@))
    } else {
        let sub = (fuel - 1) as nat;
        match (args[0], args[1]) {
            (ObjV::Array(arr), ObjV::Func(params, body, cenv)) => {
                if params.len() != 1 {
                    (
                        st,
                        ObjV::Error(
                            "filter function expects a function with exactly one parameter"@,
                        ),
                    )
                } else {
                    let (st1, r) = spec_filter_elems(arr, 0, params[0], body, cenv, st, sub);
                    match r {
                        Ok(vs) => (st1, ObjV::Array(vs)),
                        Err(a) => (st1, a),
                    }
                }
            },
            (ObjV::Array(_), ObjV::Builtin(_, _)) => (
                st,
                ObjV::Error(
                    "cannot use builtin functions with filter yet; use a function literal"@,
                ),
            ),
            (ObjV::Array(_), nf) => (
                st,
                ObjV::Error(
                    "second argument to `filter` must be a function, got "@ + obj_type_name_v(nf),
                ),
            ),
            (na, _) => (
                st,
                ObjV::Error(
                    "first argument to `filter` must be an array, got "@ + obj_type_name_v(na),
                ),
            ),
        }
    }
}

/// The per-element evaluations of `filter`, from index `i` on: the
/// element is kept when the closure-body value is truthy; the first error
/// aborts the whole operation.
pub open spec fn spec_filter_elems(
    arr: Seq<ObjV>,
    i: int,
    pname: Seq<char>,
    body: Seq<StmtV>,
    cenv: int,
    st: StV,
    fuel: nat,
) -> (StV, Result<Seq<ObjV>, ObjV>)
    decreases fuel,
{
    if fuel == 0 {
        (st, Err(ObjV::Error("evaluation depth limit reached"@)))
    } else if i >= arr.len() {
        (st, Ok(Seq::empty()))
    } else {
        let sub = (fuel - 1) as nat;
        let child = st.env.len() as int;
        let env1 = env_push(st.env, cenv);
        let env2 = env_set(env1, child, pname, arr[i]);
        let (st1, rv) = spec_eval_stmts(
            body,
            0,
            None,
            StV { env: env2, out: st.out },
            child,
            sub,
        );
        let got = match rv {
            Some(ObjV::Return(b)) => *b,
            Some(v) => v,
            None => ObjV::Null,
        };
        if got is Error {
            (st1, Err(got))
        } else {
            let (st2, rest) = spec_filter_elems(arr, i + 1, pname, body, cenv, st1, sub);
            match rest {
                Ok(vs) => if truthy(got) {
                    (st2, Ok(seq![arr[i]] + vs))
                } else {
                    (st2, Ok(vs))
                },
                Err(a) => (st2, Err(a)),
            }
        }
    }
}

/// What a whole program evaluates to in the global scope: its statements
/// in order, the value being its last expression statement's or an early
/// return's, the return marker unwrapped at the top.
pub open spec fn spec_eval_program(prog: Seq<StmtV>, st: StV, fuel: nat) -> (StV, Option<ObjV>) {
    let (st1, r) = spec_eval_stmts(prog, 0, None, st, 0, fuel);
    (
        st1,
        match r {
            Some(ObjV::Return(b)) => Some(*b),
            x => x,
        },
    )
}

/// The evaluator: the environment arena and the values printed so far.
/// The host drains the output after each evaluation.
pub struct Evaluator {
    env: Env,
    output: Vec<Object>,
}

impl Evaluator {
    /// The arena's model.
    pub closed spec fn envv(&self) -> Seq<FrameV> {
        self.env@
    }

    /// The printed values' models, in order.
    pub closed spec fn outv(&self) -> Seq<ObjV> {
        objs_v(self.output@)
    }

    /// The whole state's model.
    pub open spec fn stv(&self) -> StV {
        StV { env: self.envv(), out: self.outv() }
    }

    /// The arena is well formed and the global frame exists.
    pub open spec fn wf(&self) -> bool {
        env_wf(self.envv()) && self.envv().len() >= 1
    }

    /// An evaluator over an environment whose global frame is frame zero.
    pub fn new(env: Env) -> (ev: Evaluator)
        requires
            env.wf(),
            env@.len() >= 1,
        ensures
            ev.wf(),
            ev.envv() == env@,
            ev.outv() == Seq::<ObjV>::empty(),
    {
        Evaluator { env, output: Vec::new() }
    }

    /// Takes the values printed so far, leaving the buffer empty.
    pub fn take_output(&mut self) -> (out: Vec<Object>)
        ensures
            objs_v(out@) == old(self).outv(),
            final(self).outv() == Seq::<ObjV>::empty(),
            final(self).envv() == old(self).envv(),
    {
        let mut out: Vec<Object> = Vec::new();
        std::mem::swap(&mut out, &mut self.output);
        proof {
            assert(objs_v(self.output@) =~= Seq::<ObjV>::empty());
        }
        out
    }

    /// Binds a name in the global frame: used by the host to register the
    /// `print` builtin.
    pub fn set_global(&mut self, name: String, value: Object)
        requires
            old(self).wf(),
            obj_wf(obj_v(value), old(self).envv().len() as int),
        ensures
            final(self).wf(),
            final(self).envv() == env_set(old(self).envv(), 0, name@, obj_v(value)),
            final(self).outv() == old(self).outv(),
    {
        self.env.set(0, name, value);
    }

    /// Evaluates a program in the global scope: the result and the state
    /// after are exactly `spec_eval_program` of the statements' model over
    /// the state's model.  All failure comes back as an `Error` object.
    pub fn eval(&mut self, prog: &Program) -> (r: Option<Object>)
        requires
            old(self).wf(),
        ensures
            final(self).wf(),
            final(self).envv().len() >= old(self).envv().len(),
            final(self).stv() == spec_eval_program(
                stmts_v(prog@),
                old(self).stv(),
                EVAL_FUEL as nat,
            ).0,
            opt_obj_v(r) == spec_eval_program(stmts_v(prog@), old(self).stv(), EVAL_FUEL as nat).1,
    {
        let v = self.eval_stmts(prog, 0, None, 0, EVAL_FUEL);
        match v {
            Some(Object::ReturnValue(b)) => Some(*b),
            x => x,
        }
    }

    /// Evaluates the statements from index `i` on, carrying the last
    /// expression value produced so far.
    #[verifier::rlimit(100)]
    fn eval_stmts(
        &mut self,
        stmts: &Vec<Statement>,
        i: usize,
        last: Option<Object>,
        frame: usize,
        fuel: u64,
    ) -> (r: Option<Object>)
        requires
            old(self).wf(),
            frame < old(self).envv().len(),
            (match last {
                Some(o) => obj_wf(obj_v(o), old(self).envv().len() as int),
                None => true,
            }),
        ensures
            final(self).wf(),
            final(self).envv().len() >= old(self).envv().len(),
            (match r {
                Some(o) => obj_wf(obj_v(o), final(self).envv().len() as int),
                None => true,
            }),
            final(self).stv() == spec_eval_stmts(
                stmts_v(stmts@),
                i as int,
                opt_obj_v(last),
                old(self).stv(),
                frame as int,
                fuel as nat,
            ).0,
            opt_obj_v(r) == spec_eval_stmts(
                stmts_v(stmts@),
                i as int,
                opt_obj_v(last),
                old(self).stv(),
                frame as int,
                fuel as nat,
            ).1,
        decreases fuel,
    {
        proof {
            crate::ast::lemma_stmts_v_props(stmts@);
        }
        if fuel == 0 {
            return Some(Object::Error(String::from_str("evaluation depth limit reached")));
        }
        if i >= stmts.len() {
            return last;
        }
        proof {
            vstd::std_specs::vec::axiom_vec_index_decreases(*stmts, i as int);
        }
        let ghost n0 = self.envv().len() as int;
        let v = self.eval_stmt(&stmts[i], frame, fuel - 1);
        match v {
            Some(x) => {
                if is_abort(&x) {
                    return Some(x);
                }
                self.eval_stmts(stmts, i + 1, Some(x), frame, fuel - 1)
            },
            None => {
                proof {
                    if last is Some {
                        lemma_obj_wf_mono(obj_v(last->0), n0, self.envv().len() as int);
                    }
                }
                self.eval_stmts(stmts, i + 1, last, frame, fuel - 1)
            },
        }
    }

    /// Evaluates one statement.
    #[verifier::rlimit(100)]
    fn eval_stmt(&mut self, s: &Statement, frame: usize, fuel: u64) -> (r: Option<Object>)
        requires
            old(self).wf(),
            frame < old(self).envv().len(),
        ensures
            final(self).wf(),
            final(self).envv().len() >= old(self).envv().len(),
            (match r {
                Some(o) => obj_wf(obj_v(o), final(self).envv().len() as int),
                None => true,
            }),
            final(self).stv() == spec_eval_stmt(
                stmt_v(*s),
                old(self).stv(),
                frame as int,
                fuel as nat,
            ).0,
            opt_obj_v(r) == spec_eval_stmt(
                stmt_v(*s),
                old(self).stv(),
                frame as int,
                fuel as nat,
            ).1,
        decreases fuel,
    {
        if fuel == 0 {
            return Some(Object::Error(String::from_str("evaluation depth limit reached")));
        }
        match s {
            Statement::LetStmt(name, e) => {
                let v = self.eval_expr(e, frame, fuel - 1);
                if is_abort(&v) {
                    return Some(v);
                }
                self.env.set(frame, name.0.clone(), v);
                None
            },
            Statement::ReturnStmt(e) => {
                let v = self.eval_expr(e, frame, fuel - 1);
                if is_abort(&v) {
                    return Some(v);
                }
                Some(Object::ReturnValue(Box::new(v)))
            },
            Statement::ExprStmt(e) => Some(self.eval_expr(e, frame, fuel - 1)),
        }
    }

    /// Evaluates one expression to a value.
    #[verifier::rlimit(100)]
    #[verifier::spinoff_prover]
    fn eval_expr(&mut self, e: &Expression, frame: usize, fuel: u64) -> (r: Object)
        requires
            old(self).wf(),
            frame < old(self).envv().len(),
        ensures
            final(self).wf(),
            final(self).envv().len() >= old(self).envv().len(),
            obj_wf(obj_v(r), final(self).envv().len() as int),
            final(self).stv() == spec_eval_expr(
                expr_v(*e),
                old(self).stv(),
                frame as int,
                fuel as nat,
            ).0,
            obj_v(r) == spec_eval_expr(expr_v(*e), old(self).stv(), frame as int, fuel as nat).1,
        decreases fuel,
    {
        if fuel == 0 {
            return Object::Error(String::from_str("evaluation depth limit reached"));
        }
        match e {
            Expression::IdentExpr(id) => {
                let found = self.env.get(frame, &id.0);
                match found {
                    Some(v) => {
                        proof {
                            lemma_lookup_wf(self.envv(), frame as int, id.0@);
                        }
                        v
                    },
                    None => {
                        let m = String::from_str("identifier not found: ").concat(id.0.as_str());
                        proof {
                            assert(m@ =~= "identifier not found: "@ + id.0@);
                        }
                        Object::Error(m)
                    },
                }
            },
            Expression::LitExpr(l) => match l {
                Literal::IntLiteral(i) => Object::Int(*i),
                Literal::BoolLiteral(b) => Object::Bool(*b),
                Literal::StringLiteral(s) => Object::String(s.clone()),
            },
            Expression::PrefixExpr(op, inner) => {
                let v = self.eval_expr(&**inner, frame, fuel - 1);
                if is_abort(&v) {
                    return v;
                }
                proof {
                    lemma_prefix_wf(*op, obj_v(v), self.envv().len() as int);
                }
                eval_prefix_op(*op, &v)
            },
            Expression::InfixExpr(op, l, r) => {
                let lv = self.eval_expr(&**l, frame, fuel - 1);
                if is_abort(&lv) {
                    return lv;
                }
                let rv = self.eval_expr(&**r, frame, fuel - 1);
                if is_abort(&rv) {
                    return rv;
                }
                proof {
                    lemma_infix_wf(*op, obj_v(lv), obj_v(rv), self.envv().len() as int);
                }
                eval_infix_op(*op, &lv, &rv)
            },
            Expression::IfExpr { cond, consequence, alternative } => {
                let c = self.eval_expr(&**cond, frame, fuel - 1);
                if is_abort(&c) {
                    return c;
                }
                if is_truthy(&c) {
                    let child = self.env.child_of(frame);
                    let r = self.eval_stmts(consequence, 0, None, child, fuel - 1);
                    match r {
                        Some(v) => v,
                        None => Object::Null,
                    }
                } else {
                    match alternative {
                        Some(alt) => {
                            let child = self.env.child_of(frame);
                            let r = self.eval_stmts(alt, 0, None, child, fuel - 1);
                            match r {
                                Some(v) => v,
                                None => Object::Null,
                            }
                        },
                        None => Object::Null,
                    }
                }
            },
            Expression::FnExpr { params, body } => Object::Func(
                clone_idents(params),
                clone_stmts(body),
                frame,
            ),
            Expression::CallExpr { function, arguments } => {
                let f = self.eval_expr(&**function, frame, fuel - 1);
                if is_abort(&f) {
                    return f;
                }
                let ghost n_f = self.envv().len() as int;
                let args = match self.eval_args(arguments, 0, frame, fuel - 1) {
                    Ok(vs) => vs,
                    Err(a) => {
                        return a;
                    },
                };
                proof {
                    lemma_obj_wf_mono(obj_v(f), n_f, self.envv().len() as int);
                }
                self.apply_function(f, args, fuel - 1)
            },
            Expression::ArrayExpr(es) => {
                let vals = match self.eval_args(es, 0, frame, fuel - 1) {
                    Ok(vs) => vs,
                    Err(a) => {
                        return a;
                    },
                };
                Object::Array(vals)
            },
            Expression::HashExpr(ps) => {
                match self.eval_hash_pairs(ps, 0, frame, fuel - 1) {
                    Ok(kvs) => Object::Hash(kvs),
                    Err(a) => a,
                }
            },
            Expression::IndexExpr { array, index } => {
                let base = self.eval_expr(&**array, frame, fuel - 1);
                if is_abort(&base) {
                    return base;
                }
                let ghost n_b = self.envv().len() as int;
                let idx = self.eval_expr(&**index, frame, fuel - 1);
                if is_abort(&idx) {
                    return idx;
                }
                let res = eval_index_op(&base, &idx);
                proof {
                    lemma_obj_wf_mono(obj_v(base), n_b, self.envv().len() as int);
                    lemma_index_wf(obj_v(base), obj_v(idx), self.envv().len() as int);
                }
                res
            },
        }
    }

    /// Evaluates argument expressions left to right from index `i`.
    #[verifier::rlimit(100)]
    fn eval_args(&mut self, args: &Vec<Expression>, i: usize, frame: usize, fuel: u64) -> (r:
        Result<Vec<Object>, Object>)
        requires
            old(self).wf(),
            frame < old(self).envv().len(),
        ensures
            final(self).wf(),
            final(self).envv().len() >= old(self).envv().len(),
            (match r {
                Ok(vs) => objs_wf(objs_v(vs@), final(self).envv().len() as int),
                Err(a) => obj_wf(obj_v(a), final(self).envv().len() as int),
            }),
            final(self).stv() == spec_eval_args(
                crate::ast::exprs_v(args@),
                i as int,
                old(self).stv(),
                frame as int,
                fuel as nat,
            ).0,
            res_objs_v(r) == spec_eval_args(
                crate::ast::exprs_v(args@),
                i as int,
                old(self).stv(),
                frame as int,
                fuel as nat,
            ).1,
        decreases fuel,
    {
        proof {
            crate::ast::lemma_exprs_v_props(args@);
        }
        if fuel == 0 {
            return Err(Object::Error(String::from_str("evaluation depth limit reached")));
        }
        if i >= args.len() {
            let empty: Vec<Object> = Vec::new();
            proof {
                assert(objs_v(empty@) =~= Seq::<ObjV>::empty());
            }
            return Ok(empty);
        }
        proof {
            vstd::std_specs::vec::axiom_vec_index_decreases(*args, i as int);
        }
        let v = self.eval_expr(&args[i], frame, fuel - 1);
        if is_abort(&v) {
            return Err(v);
        }
        let ghost n_v = self.envv().len() as int;
        let ghost vv = obj_v(v);
        let rest = match self.eval_args(args, i + 1, frame, fuel - 1) {
            Ok(vs) => vs,
            Err(a) => {
                return Err(a);
            },
        };
        let ghost n = self.envv().len() as int;
        let mut out: Vec<Object> = Vec::new();
        out.push(v);
        let ghost out_one = out@;
        let mut rest = rest;
        let ghost rest_pre = rest@;
        out.append(&mut rest);
        proof {
            lemma_objs_v_props(out@);
            lemma_objs_v_props(rest_pre);
            lemma_objs_wf_props(objs_v(rest_pre), n);
            lemma_obj_wf_mono(vv, n_v, n);
            assert(obj_v(out_one[0]) == vv);
            assert forall|j: int| 0 <= j < objs_v(out@).len() implies obj_wf(
                #[trigger] objs_v(out@)[j],
                n,
            ) by {
                if j > 0 {
                    assert(out@[j] == rest_pre[j - 1]);
                    assert(objs_v(rest_pre)[j - 1] == obj_v(rest_pre[j - 1]));
                } else {
                    assert(out@[0] == out_one[0]);
                }
            }
            lemma_objs_wf_intro(objs_v(out@), n);
            assert(objs_v(out@) =~= seq![vv] + objs_v(rest_pre));
        }
        Ok(out)
    }

    /// Evaluates the pairs of a map literal from index `i` on, in source
    /// order.
    #[verifier::rlimit(100)]
    fn eval_hash_pairs(&mut self, ps: &Vec<(Literal, Expression)>, i: usize, frame: usize, fuel: u64)
        -> (r: Result<Vec<(HashKey, Object)>, Object>)
        requires
            old(self).wf(),
            frame < old(self).envv().len(),
        ensures
            final(self).wf(),
            final(self).envv().len() >= old(self).envv().len(),
            (match r {
                Ok(kvs) => crate::object::hpairs_wf(
                    hpairs_v(kvs@),
                    final(self).envv().len() as int,
                ),
                Err(a) => obj_wf(obj_v(a), final(self).envv().len() as int),
            }),
            final(self).stv() == spec_eval_hash_pairs(
                crate::ast::pairs_v(ps@),
                i as int,
                old(self).stv(),
                frame as int,
                fuel as nat,
            ).0,
            res_hpairs_v(r) == spec_eval_hash_pairs(
                crate::ast::pairs_v(ps@),
                i as int,
                old(self).stv(),
                frame as int,
                fuel as nat,
            ).1,
        decreases fuel,
    {
        proof {
            crate::ast::lemma_pairs_v_props(ps@);
        }
        if fuel == 0 {
            return Err(Object::Error(String::from_str("evaluation depth limit reached")));
        }
        if i >= ps.len() {
            let empty: Vec<(HashKey, Object)> = Vec::new();
            proof {
                assert(hpairs_v(empty@) =~= Seq::<(KeyV, ObjV)>::empty());
            }
            return Ok(empty);
        }
        proof {
            vstd::std_specs::vec::axiom_vec_index_decreases(*ps, i as int);
        }
        let pair = &ps[i];
        let key = match &pair.0 {
            Literal::IntLiteral(x) => HashKey::Int(*x),
            Literal::BoolLiteral(b) => HashKey::Bool(*b),
            Literal::StringLiteral(s) => HashKey::Str(s.clone()),
        };
        let v = self.eval_expr(&pair.1, frame, fuel - 1);
        if is_abort(&v) {
            return Err(v);
        }
        let ghost n_v = self.envv().len() as int;
        let ghost vv = obj_v(v);
        let ghost kv = key_v(key);
        let rest = match self.eval_hash_pairs(ps, i + 1, frame, fuel - 1) {
            Ok(kvs) => kvs,
            Err(a) => {
                return Err(a);
            },
        };
        let ghost n = self.envv().len() as int;
        let mut out: Vec<(HashKey, Object)> = Vec::new();
        out.push((key, v));
        let ghost out_one = out@;
        let mut rest = rest;
        let ghost rest_pre = rest@;
        out.append(&mut rest);
        proof {
            lemma_hpairs_v_props(out@);
            lemma_hpairs_v_props(rest_pre);
            lemma_hpairs_wf_props(hpairs_v(rest_pre), n);
            lemma_obj_wf_mono(vv, n_v, n);
            assert(key_v(out_one[0].0) == kv && obj_v(out_one[0].1) == vv);
            assert forall|j: int| 0 <= j < hpairs_v(out@).len() implies obj_wf(
                #[trigger] hpairs_v(out@)[j].1,
                n,
            ) by {
                if j > 0 {
                    assert(out@[j] == rest_pre[j - 1]);
                    assert(hpairs_v(rest_pre)[j - 1] == (
                        key_v(rest_pre[j - 1].0),
                        obj_v(rest_pre[j - 1].1),
                    ));
                } else {
                    assert(out@[0] == out_one[0]);
                }
            }
            lemma_hpairs_wf_intro(hpairs_v(out@), n);
            assert(hpairs_v(out@) =~= seq![(kv, vv)] + hpairs_v(rest_pre));
        }
        Ok(out)
    }

    /// Binds the parameters positionally in one frame, from index `k` on.
    fn bind_params(&mut self, params: &Vec<Ident>, args: &Vec<Object>, frame: usize, k: usize)
        requires
            old(self).wf(),
            frame < old(self).envv().len(),
            params@.len() == args@.len(),
            objs_wf(objs_v(args@), old(self).envv().len() as int),
        ensures
            final(self).wf(),
            final(self).envv() == spec_bind_params(
                old(self).envv(),
                frame as int,
                crate::ast::idents_v(params@),
                objs_v(args@),
                k as int,
            ),
            final(self).envv().len() == old(self).envv().len(),
            final(self).outv() == old(self).outv(),
        decreases params@.len() - k,
    {
        proof {
            lemma_objs_v_props(args@);
            lemma_objs_wf_props(objs_v(args@), self.envv().len() as int);
        }
        if k >= params.len() {
            return ;
        }
        proof {
            assert(crate::ast::idents_v(params@)[k as int] == crate::ast::ident_v(
                params@[k as int],
            ));
            assert(objs_v(args@)[k as int] == obj_v(args@[k as int]));
        }
        let value = clone_obj(&args[k]);
        self.env.set(frame, params[k].0.clone(), value);
        proof {
            lemma_objs_v_props(args@);
            assert forall|t: int| 0 <= t < objs_v(args@).len() implies obj_wf(
                #[trigger] objs_v(args@)[t],
                self.envv().len() as int,
            ) by {
                lemma_objs_wf_props(objs_v(args@), old(self).envv().len() as int);
            }
            lemma_objs_wf_intro(objs_v(args@), self.envv().len() as int);
        }
        self.bind_params(params, args, frame, k + 1);
    }

    /// Applies a closure or builtin to evaluated arguments.
    #[verifier::rlimit(100)]
    #[verifier::spinoff_prover]
    fn apply_function(&mut self, f: Object, args: Vec<Object>, fuel: u64) -> (r: Object)
        requires
            old(self).wf(),
            obj_wf(obj_v(f), old(self).envv().len() as int),
            objs_wf(objs_v(args@), old(self).envv().len() as int),
        ensures
            final(self).wf(),
            final(self).envv().len() >= old(self).envv().len(),
            obj_wf(obj_v(r), final(self).envv().len() as int),
            final(self).stv() == spec_apply(
                obj_v(f),
                objs_v(args@),
                old(self).stv(),
                fuel as nat,
            ).0,
            obj_v(r) == spec_apply(obj_v(f), objs_v(args@), old(self).stv(), fuel as nat).1,
        decreases fuel,
    {
        if fuel == 0 {
            return Object::Error(String::from_str("evaluation depth limit reached"));
        }
        proof {
            lemma_objs_v_props(args@);
        }
        match f {
            Object::Func(params, body, cenv) => {
                if params.len() != args.len() {
                    return Object::Error(String::from_str("wrong number of arguments"));
                }
                let child = self.env.child_of(cenv);
                let ghost n0 = old(self).envv().len() as int;
                proof {
                    crate::object::lemma_objs_wf_mono(objs_v(args@), n0, self.envv().len() as int);
                }
                self.bind_params(&params, &args, child, 0);
                let r = self.eval_stmts(&body, 0, None, child, fuel - 1);
                match r {
                    Some(Object::ReturnValue(b)) => *b,
                    Some(v) => v,
                    None => Object::Null,
                }
            },
            Object::Builtin(arity, kind) => {
                if arity >= 0 && !(arity as u64 == args.len() as u64) {
                    return Object::Error(String::from_str("wrong number of arguments"));
                }
                self.call_builtin(kind, args, fuel - 1)
            },
            other => {
                let t = obj_type_name(&other);
                let m = String::from_str("not a function: ").concat(t.as_str());
                proof {
                    assert(m@ =~= "not a function: "@ + obj_type_name_v(obj_v(other)));
                }
                Object::Error(m)
            },
        }
    }

    /// Appends evaluated arguments to the printed output, from index `k`
    /// on.
    fn push_output(&mut self, args: &Vec<Object>, k: usize)
        requires
            k <= args@.len(),
        ensures
            final(self).envv() == old(self).envv(),
            final(self).outv() == old(self).outv() + objs_v(
                args@.subrange(k as int, args@.len() as int),
            ),
        decreases args@.len() - k,
    {
        proof {
            lemma_objs_v_props(args@);
        }
        if k >= args.len() {
            proof {
                assert(args@.subrange(k as int, args@.len() as int) =~= Seq::<Object>::empty());
                assert(objs_v(Seq::<Object>::empty()) =~= Seq::<ObjV>::empty());
                assert(old(self).outv() + Seq::<ObjV>::empty() =~= old(self).outv());
            }
            return ;
        }
        proof {
            vstd::std_specs::vec::axiom_vec_index_decreases(*args, k as int);
        }
        let ghost out0 = self.outv();
        let ghost outseq0 = self.output@;
        let v = clone_obj(&args[k]);
        let ghost vv = obj_v(v);
        self.output.push(v);
        proof {
            lemma_objs_v_props(self.output@);
            lemma_objs_v_props(outseq0);
            assert(objs_v(self.output@) =~= out0.push(vv));
        }
        self.push_output(args, k + 1);
        proof {
            let sub = args@.subrange(k as int, args@.len() as int);
            let tail = args@.subrange(k as int + 1, args@.len() as int);
            lemma_objs_v_props(tail);
            lemma_objs_v_props(sub);
            assert(objs_v(sub) =~= seq![vv] + objs_v(tail));
            assert((out0.push(vv)) + objs_v(tail) =~= out0 + objs_v(sub));
        }
    }

    /// Dispatches a builtin on evaluated arguments.
    #[verifier::rlimit(100)]
    #[verifier::spinoff_prover]
    fn call_builtin(&mut self, kind: BuiltinKind, args: Vec<Object>, fuel: u64) -> (r: Object)
        requires
            old(self).wf(),
            objs_wf(objs_v(args@), old(self).envv().len() as int),
        ensures
            final(self).wf(),
            final(self).envv().len() >= old(self).envv().len(),
            obj_wf(obj_v(r), final(self).envv().len() as int),
            final(self).stv() == spec_call_builtin(
                kind,
                objs_v(args@),
                old(self).stv(),
                fuel as nat,
            ).0,
            obj_v(r) == spec_call_builtin(kind, objs_v(args@), old(self).stv(), fuel as nat).1,
        decreases fuel,
    {
        if fuel == 0 {
            return Object::Error(String::from_str("evaluation depth limit reached"));
        }
        proof {
            lemma_objs_v_props(args@);
            lemma_objs_wf_props(objs_v(args@), old(self).envv().len() as int);
            lemma_pure_builtin_wf(objs_v(args@), old(self).envv().len() as int);
        }
        match kind {
            BuiltinKind::Len => {
                if args.len() == 1 {
                    lang_len(args)
                } else {
                    Object::Error(String::from_str("wrong number of arguments"))
                }
            },
            BuiltinKind::First => {
                if args.len() == 1 {
                    lang_first(args)
                } else {
                    Object::Error(String::from_str("wrong number of arguments"))
                }
            },
            BuiltinKind::Last => {
                if args.len() == 1 {
                    lang_last(args)
                } else {
                    Object::Error(String::from_str("wrong number of arguments"))
                }
            },
            BuiltinKind::Tail => {
                if args.len() == 1 {
                    lang_tail(args)
                } else {
                    Object::Error(String::from_str("wrong number of arguments"))
                }
            },
            BuiltinKind::Get => {
                if args.len() == 2 {
                    lang_get(args)
                } else {
                    Object::Error(String::from_str("wrong number of arguments"))
                }
            },
            BuiltinKind::Push => {
                if args.len() == 2 {
                    lang_push(args)
                } else {
                    Object::Error(String::from_str("wrong number of arguments"))
                }
            },
            BuiltinKind::Reverse => {
                if args.len() == 1 {
                    lang_reverse(args)
                } else {
                    Object::Error(String::from_str("wrong number of arguments"))
                }
            },
            BuiltinKind::Trim => {
                if args.len() == 1 {
                    lang_trim(args)
                } else {
                    Object::Error(String::from_str("wrong number of arguments"))
                }
            },
            BuiltinKind::Lowercase => {
                if args.len() == 1 {
                    lang_to_lowercase(args)
                } else {
                    Object::Error(String::from_str("wrong number of arguments"))
                }
            },
            BuiltinKind::Uppercase => {
                if args.len() == 1 {
                    lang_to_uppercase(args)
                } else {
                    Object::Error(String::from_str("wrong number of arguments"))
                }
            },
            BuiltinKind::ParseNumber => {
                if args.len() == 1 {
                    lang_parse_number(args)
                } else {
                    Object::Error(String::from_str("wrong number of arguments"))
                }
            },
            BuiltinKind::Explode => {
                if args.len() == 1 {
                    lang_explode(args)
                } else {
                    Object::Error(String::from_str("wrong number of arguments"))
                }
            },
            BuiltinKind::ReplaceString => {
                if args.len() == 3 {
                    lang_replace_substring(args)
                } else {
                    Object::Error(String::from_str("wrong number of arguments"))
                }
            },
            BuiltinKind::ReplaceN => {
                if args.len() == 4 {
                    lang_replace_n_substring(args)
                } else {
                    Object::Error(String::from_str("wrong number of arguments"))
                }
            },
            BuiltinKind::Sort => lang_sort(args),
            BuiltinKind::Print => {
                self.push_output(&args, 0);
                proof {
                    assert(args@.subrange(0, args@.len() as int) =~= args@);
                    assert(self.stv() =~= StV {
                        env: old(self).envv(),
                        out: old(self).outv() + objs_v(args@),
                    });
                }
                Object::Null
            },
            BuiltinKind::MapFn => self.lang_map(args, fuel - 1),
            BuiltinKind::FilterFn => self.lang_filter(args, fuel - 1),
            BuiltinKind::Read => Object::Error(
                String::from_str("builtin `read` needs an interactive host"),
            ),
            BuiltinKind::ReadFile => Object::Error(
                String::from_str("builtin `readFile` needs a file host"),
            ),
            BuiltinKind::WriteFile => Object::Error(
                String::from_str("builtin `writeFile` needs a file host"),
            ),
        }
    }

    /// The elements of `map`, from index `i` on: each element bound to the
    /// closure's parameter in a fresh child of its captured frame, the
    /// body's value collected; the first error aborts.
    #[verifier::rlimit(100)]
    fn map_elems(
        &mut self,
        arr: &Vec<Object>,
        i: usize,
        param: &Ident,
        body: &Vec<Statement>,
        cenv: usize,
        fuel: u64,
    ) -> (r: Result<Vec<Object>, Object>)
        requires
            old(self).wf(),
            cenv < old(self).envv().len(),
            objs_wf(objs_v(arr@), old(self).envv().len() as int),
        ensures
            final(self).wf(),
            final(self).envv().len() >= old(self).envv().len(),
            (match r {
                Ok(vs) => objs_wf(objs_v(vs@), final(self).envv().len() as int),
                Err(a) => obj_wf(obj_v(a), final(self).envv().len() as int),
            }),
            final(self).stv() == spec_map_elems(
                objs_v(arr@),
                i as int,
                crate::ast::ident_v(*param),
                stmts_v(body@),
                cenv as int,
                old(self).stv(),
                fuel as nat,
            ).0,
            res_objs_v(r) == spec_map_elems(
                objs_v(arr@),
                i as int,
                crate::ast::ident_v(*param),
                stmts_v(body@),
                cenv as int,
                old(self).stv(),
                fuel as nat,
            ).1,
        decreases fuel,
    {
        proof {
            lemma_objs_v_props(arr@);
            lemma_objs_wf_props(objs_v(arr@), old(self).envv().len() as int);
        }
        if fuel == 0 {
            return Err(Object::Error(String::from_str("evaluation depth limit reached")));
        }
        if i >= arr.len() {
            let empty: Vec<Object> = Vec::new();
            proof {
                assert(objs_v(empty@) =~= Seq::<ObjV>::empty());
            }
            return Ok(empty);
        }
        proof {
            vstd::std_specs::vec::axiom_vec_index_decreases(*arr, i as int);
        }
        let child = self.env.child_of(cenv);
        let item = clone_obj(&arr[i]);
        proof {
            lemma_obj_wf_mono(obj_v(arr@[i as int]), old(self).envv().len() as int, self.envv().len() as int);
        }
        self.env.set(child, param.0.clone(), item);
        let rv = self.eval_stmts(body, 0, None, child, fuel - 1);
        let got = match rv {
            Some(Object::ReturnValue(b)) => *b,
            Some(v) => v,
            None => Object::Null,
        };
        if matches!(got, Object::Error(_)) {
            return Err(got);
        }
        let ghost n_g = self.envv().len() as int;
        let ghost gv = obj_v(got);
        proof {
            crate::object::lemma_objs_wf_mono(
                objs_v(arr@),
                old(self).envv().len() as int,
                self.envv().len() as int,
            );
        }
        let rest = match self.map_elems(arr, i + 1, param, body, cenv, fuel - 1) {
            Ok(vs) => vs,
            Err(a) => {
                return Err(a);
            },
        };
        let ghost n = self.envv().len() as int;
        let mut out: Vec<Object> = Vec::new();
        out.push(got);
        let ghost out_one = out@;
        let mut rest = rest;
        let ghost rest_pre = rest@;
        out.append(&mut rest);
        proof {
            lemma_objs_v_props(out@);
            lemma_objs_v_props(rest_pre);
            lemma_objs_wf_props(objs_v(rest_pre), n);
            lemma_obj_wf_mono(gv, n_g, n);
            assert(obj_v(out_one[0]) == gv);
            assert forall|j: int| 0 <= j < objs_v(out@).len() implies obj_wf(
                #[trigger] objs_v(out@)[j],
                n,
            ) by {
                if j > 0 {
                    assert(out@[j] == rest_pre[j - 1]);
                    assert(objs_v(rest_pre)[j - 1] == obj_v(rest_pre[j - 1]));
                } else {
                    assert(out@[0] == out_one[0]);
                }
            }
            lemma_objs_wf_intro(objs_v(out@), n);
            assert(objs_v(out@) =~= seq![gv] + objs_v(rest_pre));
        }
        Ok(out)
    }

    /// The elements of `filter`, from index `i` on: an element is kept
    /// when the closure-body value is truthy; the first error aborts.
    #[verifier::rlimit(100)]
    fn filter_elems(
        &mut self,
        arr: &Vec<Object>,
        i: usize,
        param: &Ident,
        body: &Vec<Statement>,
        cenv: usize,
        fuel: u64,
    ) -> (r: Result<Vec<Object>, Object>)
        requires
            old(self).wf(),
            cenv < old(self).envv().len(),
            objs_wf(objs_v(arr@), old(self).envv().len() as int),
        ensures
            final(self).wf(),
            final(self).envv().len() >= old(self).envv().len(),
            (match r {
                Ok(vs) => objs_wf(objs_v(vs@), final(self).envv().len() as int),
                Err(a) => obj_wf(obj_v(a), final(self).envv().len() as int),
            }),
            final(self).stv() == spec_filter_elems(
                objs_v(arr@),
                i as int,
                crate::ast::ident_v(*param),
                stmts_v(body@),
                cenv as int,
                old(self).stv(),
                fuel as nat,
            ).0,
            res_objs_v(r) == spec_filter_elems(
                objs_v(arr@),
                i as int,
                crate::ast::ident_v(*param),
                stmts_v(body@),
                cenv as int,
                old(self).stv(),
                fuel as nat,
            ).1,
        decreases fuel,
    {
        proof {
            lemma_objs_v_props(arr@);
            lemma_objs_wf_props(objs_v(arr@), old(self).envv().len() as int);
        }
        if fuel == 0 {
            return Err(Object::Error(String::from_str("evaluation depth limit reached")));
        }
        if i >= arr.len() {
            let empty: Vec<Object> = Vec::new();
            proof {
                assert(objs_v(empty@) =~= Seq::<ObjV>::empty());
            }
            return Ok(empty);
        }
        proof {
            vstd::std_specs::vec::axiom_vec_index_decreases(*arr, i as int);
        }
        let child = self.env.child_of(cenv);
        let item = clone_obj(&arr[i]);
        proof {
            lemma_obj_wf_mono(obj_v(arr@[i as int]), old(self).envv().len() as int, self.envv().len() as int);
        }
        self.env.set(child, param.0.clone(), item);
        let rv = self.eval_stmts(body, 0, None, child, fuel - 1);
        let got = match rv {
            Some(Object::ReturnValue(b)) => *b,
            Some(v) => v,
            None => Object::Null,
        };
        if matches!(got, Object::Error(_)) {
            return Err(got);
        }
        let keep = is_truthy(&got);
        let ghost n_g = self.envv().len() as int;
        proof {
            crate::object::lemma_objs_wf_mono(
                objs_v(arr@),
                old(self).envv().len() as int,
                self.envv().len() as int,
            );
        }
        let rest = match self.filter_elems(arr, i + 1, param, body, cenv, fuel - 1) {
            Ok(vs) => vs,
            Err(a) => {
                return Err(a);
            },
        };
        let ghost n = self.envv().len() as int;
        if !keep {
            return Ok(rest);
        }
        let kept = clone_obj(&arr[i]);
        let ghost kv = obj_v(kept);
        let mut out: Vec<Object> = Vec::new();
        out.push(kept);
        let ghost out_one = out@;
        let mut rest = rest;
        let ghost rest_pre = rest@;
        out.append(&mut rest);
        proof {
            lemma_objs_v_props(out@);
            lemma_objs_v_props(rest_pre);
            lemma_objs_wf_props(objs_v(rest_pre), n);
            lemma_obj_wf_mono(obj_v(arr@[i as int]), old(self).envv().len() as int, n);
            assert(obj_v(out_one[0]) == kv);
            assert forall|j: int| 0 <= j < objs_v(out@).len() implies obj_wf(
                #[trigger] objs_v(out@)[j],
                n,
            ) by {
                if j > 0 {
                    assert(out@[j] == rest_pre[j - 1]);
                    assert(objs_v(rest_pre)[j - 1] == obj_v(rest_pre[j - 1]));
                } else {
                    assert(out@[0] == out_one[0]);
                }
            }
            lemma_objs_wf_intro(objs_v(out@), n);
            assert(objs_v(out@) =~= seq![kv] + objs_v(rest_pre));
        }
        Ok(out)
    }

    /// `map`: applies a user-defined one-parameter closure to every
    /// element of an array.
    #[verifier::rlimit(100)]
    #[verifier::spinoff_prover]
    fn lang_map(&mut self, args: Vec<Object>, fuel: u64) -> (r: Object)
        requires
            old(self).wf(),
            objs_wf(objs_v(args@), old(self).envv().len() as int),
        ensures
            final(self).wf(),
            final(self).envv().len() >= old(self).envv().len(),
            obj_wf(obj_v(r), final(self).envv().len() as int),
            final(self).stv() == spec_lang_map(objs_v(args@), old(self).stv(), fuel as nat).0,
            obj_v(r) == spec_lang_map(objs_v(args@), old(self).stv(), fuel as nat).1,
        decreases fuel,
    {
        if fuel == 0 {
            return Object::Error(String::from_str("evaluation depth limit reached"));
        }
        proof {
            lemma_objs_v_props(args@);
        }
        if args.len() != 2 {
            return Object::Error(String::from_str("wrong number of arguments to map"));
        }
        proof {
            lemma_objs_wf_props(objs_v(args@), old(self).envv().len() as int);
            assert(objs_v(args@)[0] == obj_v(args@[0]));
            assert(objs_v(args@)[1] == obj_v(args@[1]));
        }
        match (&args[0], &args[1]) {
            (Object::Array(arr), Object::Func(params, body, cenv)) => {
                if params.len() != 1 {
                    return Object::Error(
                        String::from_str(
                            "map function expects a function with exactly one parameter",
                        ),
                    );
                }
                proof {
                    assert(crate::ast::idents_v(params@)[0] == crate::ast::ident_v(params@[0]));
                }
                match self.map_elems(arr, 0, &params[0], body, *cenv, fuel - 1) {
                    Ok(vs) => Object::Array(vs),
                    Err(a) => a,
                }
            },
            (Object::Array(_), Object::Builtin(_, _)) => Object::Error(
                String::from_str("cannot use builtin functions with map yet; use a function literal"),
            ),
            (Object::Array(_), not_func) => {
                let t = obj_type_name(not_func);
                let m = String::from_str("second argument to `map` must be a function, got ")
                    .concat(t.as_str());
                proof {
                    assert(m@ =~= "second argument to `map` must be a function, got "@
                        + obj_type_name_v(obj_v(*not_func)));
                }
                Object::Error(m)
            },
            (not_array, _) => {
                let t = obj_type_name(not_array);
                let m = String::from_str("first argument to `map` must be an array, got ").concat(
                    t.as_str(),
                );
                proof {
                    assert(m@ =~= "first argument to `map` must be an array, got "@
                        + obj_type_name_v(obj_v(*not_array)));
                }
                Object::Error(m)
            },
        }
    }

    /// `filter`: keeps the elements of an array for which a user-defined
    /// one-parameter closure yields a truthy value.
    #[verifier::rlimit(100)]
    #[verifier::spinoff_prover]
    fn lang_filter(&mut self, args: Vec<Object>, fuel: u64) -> (r: Object)
        requires
            old(self).wf(),
            objs_wf(objs_v(args@), old(self).envv().len() as int),
        ensures
            final(self).wf(),
            final(self).envv().len() >= old(self).envv().len(),
            obj_wf(obj_v(r), final(self).envv().len() as int),
            final(self).stv() == spec_lang_filter(objs_v(args@), old(self).stv(), fuel as nat).0,
            obj_v(r) == spec_lang_filter(objs_v(args@), old(self).stv(), fuel as nat).1,
        decreases fuel,
    {
        if fuel == 0 {
            return Object::Error(String::from_str("evaluation depth limit reached"));
        }
        proof {
            lemma_objs_v_props(args@);
        }
        if args.len() != 2 {
            return Object::Error(String::from_str("wrong number of arguments to filter"));
        }
        proof {
            lemma_objs_wf_props(objs_v(args@), old(self).envv().len() as int);
            assert(objs_v(args@)[0] == obj_v(args@[0]));
            assert(objs_v(args@)[1] == obj_v(args@[1]));
        }
        match (&args[0], &args[1]) {
            (Object::Array(arr), Object::Func(params, body, cenv)) => {
                if params.len() != 1 {
                    return Object::Error(
                        String::from_str(
                            "filter function expects a function with exactly one parameter",
                        ),
                    );
                }
                proof {
                    assert(crate::ast::idents_v(params@)[0] == crate::ast::ident_v(params@[0]));
                }
                match self.filter_elems(arr, 0, &params[0], body, *cenv, fuel - 1) {
                    Ok(vs) => Object::Array(vs),
                    Err(a) => a,
                }
            },
            (Object::Array(_), Object::Builtin(_, _)) => Object::Error(
                String::from_str(
                    "cannot use builtin functions with filter yet; use a function literal",
                ),
            ),
            (Object::Array(_), not_func) => {
                let t = obj_type_name(not_func);
                let m = String::from_str("second argument to `filter` must be a function, got ")
                    .concat(t.as_str());
                proof {
                    assert(m@ =~= "second argument to `filter` must be a function, got "@
                        + obj_type_name_v(obj_v(*not_func)));
                }
                Object::Error(m)
            },
            (not_array, _) => {
                let t = obj_type_name(not_array);
                let m = String::from_str("first argument to `filter` must be an array, got ")
                    .concat(t.as_str());
                proof {
                    assert(m@ =~= "first argument to `filter` must be an array, got "@
                        + obj_type_name_v(obj_v(*not_array)));
                }
                Object::Error(m)
            },
        }
    }
}

/// The well-formedness lemmas the evaluator leans on for indexing results.
/// A binary operation yields a scalar, a string or an error: well formed
/// in any arena.
proof fn lemma_infix_wf(op: Infix, l: ObjV, r: ObjV, n: int)
    ensures
        obj_wf(spec_infix_op(op, l, r), n),
{
    reveal(spec_infix_op);
    reveal(spec_int_infix);
}

/// A prefix operation yields a scalar or an error: well formed in any
/// arena.
proof fn lemma_prefix_wf(op: Prefix, v: ObjV, n: int)
    ensures
        obj_wf(spec_prefix_op(op, v), n),
{
    reveal(spec_prefix_op);
}

proof fn lemma_index_wf(base: ObjV, idx: ObjV, n: int)
    requires
        obj_wf(base, n),
    ensures
        obj_wf(spec_index_op(base, idx), n),
{
    reveal(spec_index_op);
    match base {
        ObjV::Array(es) => {
            match idx {
                ObjV::Int(i) => {
                    if 0 <= i < es.len() {
                        lemma_seq_objs_wf_index(es, i as int, n);
                    }
                },
                _ => {},
            }
        },
        ObjV::Hash(ps) => {
            let k = match idx {
                ObjV::Int(i) => Some(KeyV::Int(i)),
                ObjV::Bool(b) => Some(KeyV::Bool(b)),
                ObjV::Str(s) => Some(KeyV::Str(s)),
                _ => None,
            };
            match k {
                Some(key) => {
                    if hash_lookup(ps, key) is Some {
                        lemma_hash_lookup_wf(ps, key, n);
                    }
                },
                None => {},
            }
        },
        _ => {},
    }
}

proof fn lemma_seq_objs_wf_index(es: Seq<ObjV>, i: int, n: int)
    requires
        objs_wf(es, n),
        0 <= i < es.len(),
    ensures
        obj_wf(es[i], n),
{
    lemma_objs_wf_props(es, n);
}

proof fn lemma_hash_lookup_wf(ps: Seq<(KeyV, ObjV)>, k: KeyV, n: int)
    requires
        crate::object::hpairs_wf(ps, n),
        hash_lookup(ps, k) is Some,
    ensures
        obj_wf(hash_lookup(ps, k)->0, n),
    decreases ps.len(),
{
    lemma_hpairs_wf_props(ps, n);
    lemma_hash_lookup_wf_rec(ps, k, n);
}

proof fn lemma_hash_lookup_wf_rec(ps: Seq<(KeyV, ObjV)>, k: KeyV, n: int)
    requires
        forall|i: int| 0 <= i < ps.len() ==> obj_wf(#[trigger] ps[i].1, n),
        hash_lookup(ps, k) is Some,
    ensures
        obj_wf(hash_lookup(ps, k)->0, n),
    decreases ps.len(),
{
    if ps.len() > 0 && ps.last().0 != k {
        assert(forall|i: int|
            0 <= i < ps.drop_last().len() ==> obj_wf(#[trigger] ps.drop_last()[i].1, n));
        lemma_hash_lookup_wf_rec(ps.drop_last(), k, n);
    }
}

/// Elementwise well-formedness of map pairs.
pub proof fn lemma_hpairs_wf_props(ps: Seq<(KeyV, ObjV)>, n: int)
    requires
        crate::object::hpairs_wf(ps, n),
    ensures
        forall|i: int| 0 <= i < ps.len() ==> obj_wf(#[trigger] ps[i].1, n),
    decreases ps,
{
    if ps.len() > 0 {
        let rest = ps.subrange(1, ps.len() as int);
        lemma_hpairs_wf_props(rest, n);
        assert forall|i: int| 0 <= i < ps.len() implies obj_wf(#[trigger] ps[i].1, n) by {
            if i > 0 {
                assert(ps[i] == rest[i - 1]);
            }
        }
    }
}

/// Map pairs with elementwise well-formed values are well formed.
pub proof fn lemma_hpairs_wf_intro(ps: Seq<(KeyV, ObjV)>, n: int)
    requires
        forall|i: int| 0 <= i < ps.len() ==> obj_wf(#[trigger] ps[i].1, n),
    ensures
        crate::object::hpairs_wf(ps, n),
    decreases ps,
{
    if ps.len() > 0 {
        let rest = ps.subrange(1, ps.len() as int);
        assert forall|i: int| 0 <= i < rest.len() implies obj_wf(#[trigger] rest[i].1, n) by {
            assert(rest[i] == ps[i + 1]);
        }
        lemma_hpairs_wf_intro(rest, n);
    }
}

/// The results of the pure builtins are well formed: they are sub-values
/// of well-formed arguments, fresh scalars, or error objects.
proof fn lemma_pure_builtin_wf(av: Seq<ObjV>, n: int)
    requires
        objs_wf(av, n),
    ensures
        av.len() >= 1 ==> obj_wf(crate::builtins::spec_lang_len(av), n),
        av.len() >= 1 ==> obj_wf(crate::builtins::spec_lang_first(av), n),
        av.len() >= 1 ==> obj_wf(crate::builtins::spec_lang_last(av), n),
        av.len() >= 1 ==> obj_wf(crate::builtins::spec_lang_tail(av), n),
        av.len() >= 1 ==> obj_wf(crate::builtins::spec_lang_reverse(av), n),
        av.len() >= 1 ==> obj_wf(crate::builtins::spec_lang_trim(av), n),
        av.len() >= 1 ==> obj_wf(crate::builtins::spec_lang_lowercase(av), n),
        av.len() >= 1 ==> obj_wf(crate::builtins::spec_lang_uppercase(av), n),
        av.len() >= 1 ==> obj_wf(crate::builtins::spec_lang_parse_number(av), n),
        av.len() >= 1 ==> obj_wf(crate::builtins::spec_lang_explode(av), n),
        av.len() >= 2 ==> obj_wf(crate::builtins::spec_lang_get(av), n),
        av.len() >= 2 ==> obj_wf(crate::builtins::spec_lang_push(av), n),
        av.len() >= 3 ==> obj_wf(crate::builtins::spec_lang_replace(av), n),
        av.len() >= 4 ==> obj_wf(crate::builtins::spec_lang_replacen(av), n),
        obj_wf(crate::builtins::spec_lang_sort(av), n),
{
    reveal(crate::builtins::spec_lang_len);
    reveal(crate::builtins::spec_lang_first);
    reveal(crate::builtins::spec_lang_last);
    reveal(crate::builtins::spec_lang_tail);
    reveal(crate::builtins::spec_lang_reverse);
    reveal(crate::builtins::spec_lang_trim);
    reveal(crate::builtins::spec_lang_lowercase);
    reveal(crate::builtins::spec_lang_uppercase);
    reveal(crate::builtins::spec_lang_parse_number);
    reveal(crate::builtins::spec_lang_explode);
    reveal(crate::builtins::spec_lang_get);
    reveal(crate::builtins::spec_lang_push);
    reveal(crate::builtins::spec_lang_replace);
    reveal(crate::builtins::spec_lang_replacen);
    reveal(crate::builtins::spec_lang_sort);
    reveal(crate::builtins::arg_err_v);
    lemma_objs_wf_props(av, n);
    if av.len() >= 1 {
        match av[0] {
            ObjV::Array(es) => {
                lemma_objs_wf_props(es, n);
                if es.len() > 0 {
                    let tail = es.subrange(1, es.len() as int);
                    assert forall|i: int| 0 <= i < tail.len() implies obj_wf(
                        #[trigger] tail[i],
                        n,
                    ) by {
                        assert(tail[i] == es[i + 1]);
                    }
                    lemma_objs_wf_intro(tail, n);
                }
                let rev = es.reverse();
                assert forall|i: int| 0 <= i < rev.len() implies obj_wf(#[trigger] rev[i], n) by {
                    assert(rev[i] == es[es.len() - 1 - i]);
                }
                lemma_objs_wf_intro(rev, n);
                if av.len() >= 2 {
                    let pushed = es.push(av[1]);
                    assert forall|i: int| 0 <= i < pushed.len() implies obj_wf(
                        #[trigger] pushed[i],
                        n,
                    ) by {
                        if i < es.len() {
                            assert(pushed[i] == es[i]);
                        } else {
                            assert(pushed[i] == av[1]);
                        }
                    }
                    lemma_objs_wf_intro(pushed, n);
                }
            },
            ObjV::Str(str0) => {
                let ex = Seq::new(str0.len(), |i: int| ObjV::Str(seq![str0[i]]));
                assert(forall|i: int| 0 <= i < ex.len() ==> obj_wf(#[trigger] ex[i], n));
                lemma_objs_wf_intro(ex, n);
            },
            _ => {},
        }
    }
}

} // verus!
