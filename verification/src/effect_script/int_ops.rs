//! The integer work of the sample interpreter: checked arithmetic and
//! comparisons on integer registers, and the budget of loop iterations.
use vstd::prelude::*;
use crate::effect_script::bytecode::BinaryInstruction;
use crate::effect_script::diag::RuntimeError;

verus! {

/// How many loop iterations one sample may run.
pub const MAX_LOOP_ITERATIONS: usize = 4096;

/// `x / d` rounded toward zero, for `d != 0`.
pub open spec fn truncated_quotient(x: int, d: int) -> int {
    if x == 0 {
        0
    } else if x > 0 && d > 0 {
        x / d
    } else if x < 0 && d < 0 {
        (x * -1) / (d * -1)
    } else if x < 0 {
        ((x * -1) / d) * -1
    } else {
        (x / (d * -1)) * -1
    }
}

pub open spec fn in_i64(v: int) -> bool {
    i64::MIN <= v <= i64::MAX
}

pub open spec fn checked(v: int) -> Result<i64, Seq<char>> {
    if in_i64(v) {
        Ok(v as i64)
    } else {
        Err("integer overflow"@)
    }
}

/// What an integer arithmetic instruction gives for `left` and `right`: the
/// exact result when it fits, an overflow error when it does not, and an
/// error for a division by zero; `None` for any other instruction.
pub open spec fn spec_int_arith(op: BinaryInstruction, left: i64, right: i64) -> Option<Result<i64, Seq<char>>> {
    match op {
        BinaryInstruction::IntAdd => Some(checked(left + right)),
        BinaryInstruction::IntSubtract => Some(checked(left - right)),
        BinaryInstruction::IntMultiply => Some(checked(left * right)),
        BinaryInstruction::IntDivide => Some(
            if right == 0 {
                Err("integer divide by zero"@)
            } else {
                checked(truncated_quotient(left as int, right as int))
            },
        ),
        _ => None,
    }
}

/// What an integer comparison instruction gives; `None` for any other
/// instruction.
pub open spec fn spec_int_compare(op: BinaryInstruction, left: i64, right: i64) -> Option<bool> {
    match op {
        BinaryInstruction::IntLess => Some(left < right),
        BinaryInstruction::IntLessEqual => Some(left <= right),
        BinaryInstruction::IntGreater => Some(left > right),
        BinaryInstruction::IntGreaterEqual => Some(left >= right),
        BinaryInstruction::IntEqual => Some(left == right),
        BinaryInstruction::IntNotEqual => Some(left != right),
        _ => None,
    }
}

pub open spec fn arith_view(r: Option<Result<i64, RuntimeError>>) -> Option<Result<i64, Seq<char>>> {
    match r {
        None => None,
        Some(Ok(v)) => Some(Ok(v)),
        Some(Err(e)) => Some(Err(e.message@)),
    }
}

fn overflow(v: Option<i64>) -> (r: Result<i64, RuntimeError>)
    ensures
        match v {
            Some(x) => r == Ok::<i64, RuntimeError>(x),
            None => r matches Err(e) && e.message@ == "integer overflow"@,
        },
{
    match v {
        Some(x) => Ok(x),
        None => Err(RuntimeError { message: String::from_str("integer overflow") }),
    }
}

/// Runs the integer arithmetic instruction `op` on `left` and `right`.
pub fn int_arith(op: BinaryInstruction, left: i64, right: i64) -> (r: Option<Result<i64, RuntimeError>>)
    ensures
        arith_view(r) == spec_int_arith(op, left, right),
{
    match op {
        BinaryInstruction::IntAdd => Some(overflow(left.checked_add(right))),
        BinaryInstruction::IntSubtract => Some(overflow(left.checked_sub(right))),
        BinaryInstruction::IntMultiply => Some(overflow(left.checked_mul(right))),
        BinaryInstruction::IntDivide => {
            if right == 0 {
                Some(Err(RuntimeError { message: String::from_str("integer divide by zero") }))
            } else {
                Some(overflow(left.checked_div(right)))
            }
        },
        _ => None,
    }
}

/// Runs the integer comparison instruction `op` on `left` and `right`.
pub fn int_compare(op: BinaryInstruction, left: i64, right: i64) -> (r: Option<bool>)
    ensures
        r == spec_int_compare(op, left, right),
{
    match op {
        BinaryInstruction::IntLess => Some(left < right),
        BinaryInstruction::IntLessEqual => Some(left <= right),
        BinaryInstruction::IntGreater => Some(left > right),
        BinaryInstruction::IntGreaterEqual => Some(left >= right),
        BinaryInstruction::IntEqual => Some(left == right),
        BinaryInstruction::IntNotEqual => Some(left != right),
        _ => None,
    }
}

/// Counts one more loop iteration after `count`: the new count, or an error
/// once it would pass the budget.
pub fn loop_tick(count: usize) -> (r: Result<usize, RuntimeError>)
    ensures
        count < MAX_LOOP_ITERATIONS ==> r == Ok::<usize, RuntimeError>((count + 1) as usize),
        count >= MAX_LOOP_ITERATIONS ==> (r matches Err(e) && e.message@
            == "effect exceeded the maximum loop iteration count"@),
{
    if count < MAX_LOOP_ITERATIONS {
        Ok(count + 1)
    } else {
        Err(RuntimeError { message: String::from_str("effect exceeded the maximum loop iteration count") })
    }
}

/// The integer comparisons order integers: `>=` and `<` are complements,
/// `<=` and `>` are them with the operands swapped, `>=` is reflexive,
/// `==` holds exactly when both `<=` and `>=` do, `!=` is its complement, and
/// of `<`, `==` and `>` exactly one holds.
pub proof fn lemma_int_comparisons_order(a: i64, b: i64)
    ensures
        spec_int_compare(BinaryInstruction::IntGreaterEqual, a, a) == Some(true),
        spec_int_compare(BinaryInstruction::IntLess, a, a) == Some(false),
        spec_int_compare(BinaryInstruction::IntLess, a, b) == Some(a < b),
        spec_int_compare(BinaryInstruction::IntGreaterEqual, a, b) == Some(!(a < b)),
        spec_int_compare(BinaryInstruction::IntLessEqual, a, b) == spec_int_compare(
            BinaryInstruction::IntGreaterEqual,
            b,
            a,
        ),
        spec_int_compare(BinaryInstruction::IntGreater, a, b) == spec_int_compare(BinaryInstruction::IntLess, b, a),
        spec_int_compare(BinaryInstruction::IntEqual, a, b) == Some(
            spec_int_compare(BinaryInstruction::IntLessEqual, a, b) == Some(true) && spec_int_compare(
                BinaryInstruction::IntGreaterEqual,
                a,
                b,
            ) == Some(true),
        ),
        spec_int_compare(BinaryInstruction::IntNotEqual, a, b) == Some(
            spec_int_compare(BinaryInstruction::IntEqual, a, b) == Some(false),
        ),
        spec_int_compare(BinaryInstruction::IntEqual, a, b) == Some(a == b),
{
}

/// Integer arithmetic is exact where it fits: addition and multiplication
/// commute, subtracting what was added gives back the first operand, a sum
/// that does not fit is an overflow, and a quotient `q` of `a` by `b` leaves
/// a remainder `a - q * b` smaller than `b` in size and of the sign of `a`.
pub proof fn lemma_int_arithmetic(a: i64, b: i64)
    ensures
        spec_int_arith(BinaryInstruction::IntAdd, a, b) == spec_int_arith(BinaryInstruction::IntAdd, b, a),
        spec_int_arith(BinaryInstruction::IntMultiply, a, b) == spec_int_arith(BinaryInstruction::IntMultiply, b, a),
        spec_int_arith(BinaryInstruction::IntAdd, a, b) matches Some(Ok(s)) ==> s == a + b && spec_int_arith(
            BinaryInstruction::IntSubtract,
            s,
            b,
        ) == Some(Ok::<i64, Seq<char>>(a)),
        (a + b > i64::MAX || a + b < i64::MIN) ==> spec_int_arith(BinaryInstruction::IntAdd, a, b) matches Some(
            Err(_),
        ),
        i64::MIN <= a + b <= i64::MAX ==> spec_int_arith(BinaryInstruction::IntAdd, a, b) matches Some(Ok(_)),
        i64::MIN <= a - b <= i64::MAX ==> spec_int_arith(BinaryInstruction::IntSubtract, a, b) matches Some(Ok(_)),
        i64::MIN <= a * b <= i64::MAX ==> spec_int_arith(BinaryInstruction::IntMultiply, a, b) matches Some(Ok(_)),
        (a - b > i64::MAX || a - b < i64::MIN) ==> spec_int_arith(BinaryInstruction::IntSubtract, a, b) matches Some(
            Err(_),
        ),
        (a * b > i64::MAX || a * b < i64::MIN) ==> spec_int_arith(BinaryInstruction::IntMultiply, a, b) matches Some(
            Err(_),
        ),
        spec_int_arith(BinaryInstruction::IntSubtract, a, b) matches Some(Ok(d)) ==> d == a - b,
        spec_int_arith(BinaryInstruction::IntMultiply, a, b) matches Some(Ok(p)) ==> p == a * b,
        b == 0 ==> spec_int_arith(BinaryInstruction::IntDivide, a, b) matches Some(Err(_)),
        b != 0 && a != i64::MIN ==> spec_int_arith(BinaryInstruction::IntDivide, a, b) matches Some(Ok(_)),
        spec_int_arith(BinaryInstruction::IntDivide, a, b) matches Some(Ok(q)) ==> {
            let r = a - q * b;
            &&& b != 0
            &&& (if r >= 0 { r } else { -r }) < (if b >= 0 { b as int } else { -b })
            &&& (r == 0 || (r > 0) == (a > 0))
        },
{
    if b != 0 {
        lemma_truncated_quotient(a as int, b as int);
        lemma_quotient_bound(a as int, b as int);
    }
}

proof fn lemma_quotient_bound(x: int, d: int)
    requires
        d != 0,
    ensures
        -(if x >= 0 { x } else { -x }) <= truncated_quotient(x, d) <= (if x >= 0 { x } else { -x }),
{
    let ax = if x >= 0 { x } else { -x };
    let ad = if d >= 0 { d } else { -d };
    if x != 0 {
        let q1 = ax / ad;
        let m = ax % ad;
        vstd::arithmetic::div_mod::lemma_fundamental_div_mod(ax, ad);
        assert(0 <= q1 <= ax) by (nonlinear_arith)
            requires
                ax == ad * q1 + m,
                0 <= m < ad,
                ad >= 1,
                ax >= 1,
        ;
        if x > 0 && d > 0 {
            assert(truncated_quotient(x, d) == q1);
        } else if x < 0 && d < 0 {
            assert(truncated_quotient(x, d) == q1);
        } else if x < 0 {
            assert(truncated_quotient(x, d) == -q1);
        } else {
            assert(truncated_quotient(x, d) == -q1);
        }
    }
}

proof fn lemma_truncated_quotient(x: int, d: int)
    requires
        d != 0,
    ensures
        ({
            let r = x - truncated_quotient(x, d) * d;
            &&& (if r >= 0 { r } else { -r }) < (if d >= 0 { d } else { -d })
            &&& (r == 0 || (r > 0) == (x > 0))
        }),
{
    let q = truncated_quotient(x, d);
    let r = x - q * d;
    if x == 0 {
        assert(r == 0);
    } else if x > 0 && d > 0 {
        let q1 = x / d;
        let m = x % d;
        vstd::arithmetic::div_mod::lemma_fundamental_div_mod(x, d);
        assert(r == m) by (nonlinear_arith)
            requires
                x == d * q1 + m,
                q == q1,
                r == x - q * d,
        ;
    } else if x < 0 && d < 0 {
        let nx = -x;
        let nd = -d;
        let q1 = nx / nd;
        let m = nx % nd;
        vstd::arithmetic::div_mod::lemma_fundamental_div_mod(nx, nd);
        assert(q == q1);
        assert(r == -m) by (nonlinear_arith)
            requires
                nx == nd * q1 + m,
                q == q1,
                r == x - q * d,
                nx == -x,
                nd == -d,
        ;
    } else if x < 0 {
        let nx = -x;
        let q1 = nx / d;
        let m = nx % d;
        vstd::arithmetic::div_mod::lemma_fundamental_div_mod(nx, d);
        assert(q == -q1);
        assert(r == -m) by (nonlinear_arith)
            requires
                nx == d * q1 + m,
                q == -q1,
                r == x - q * d,
                nx == -x,
        ;
    } else {
        let nd = -d;
        let q1 = x / nd;
        let m = x % nd;
        vstd::arithmetic::div_mod::lemma_fundamental_div_mod(x, nd);
        assert(q == -q1);
        assert(r == m) by (nonlinear_arith)
            requires
                x == nd * q1 + m,
                q == -q1,
                r == x - q * d,
                nd == -d,
        ;
    }
}

} // verus!
