//! The built-in words: what each does to a stack, and the functions that do it.

use vstd::prelude::*;
use crate::model::{ErrorView, ForthError, NativeOp, Outcome, State};

verus! {

/// The 64-bit two's complement value of an integer.
pub open spec fn wrap(v: int) -> i64 {
    let m = v % 0x1_0000_0000_0000_0000;
    if m > i64::MAX {
        (m - 0x1_0000_0000_0000_0000) as i64
    } else {
        m as i64
    }
}

/// The quotient of `a` by `b`, rounded toward zero.
pub open spec fn truncated_quotient(a: int, b: int) -> int
    recommends
        b != 0,
{
    if a >= 0 && b > 0 {
        a / b
    } else if a < 0 && b < 0 {
        (-a) / (-b)
    } else if a < 0 {
        -((-a) / b)
    } else {
        -(a / (-b))
    }
}

/// Whether `lhs / rhs` has a value that fits in 64 bits.
pub open spec fn divisible(lhs: i64, rhs: i64) -> bool {
    rhs != 0 && !(lhs == i64::MIN && rhs == -1)
}

/// 1 for true, 0 for false.
pub open spec fn flag(b: bool) -> i64 {
    if b {
        1
    } else {
        0
    }
}

/// What a two-operand word computes from the value below the top (`lhs`)
/// and the top (`rhs`); `None` where a division has no value.
pub open spec fn binary_value(op: NativeOp, lhs: i64, rhs: i64) -> Option<i64> {
    match op {
        NativeOp::Add => Some(wrap(lhs + rhs)),
        NativeOp::Sub => Some(wrap(lhs - rhs)),
        NativeOp::Mul => Some(wrap(lhs * rhs)),
        NativeOp::Div => if divisible(lhs, rhs) {
            Some(truncated_quotient(lhs as int, rhs as int) as i64)
        } else {
            None
        },
        NativeOp::Equal => Some(flag(lhs == rhs)),
        NativeOp::NotEqual => Some(flag(lhs != rhs)),
        NativeOp::Less => Some(flag(lhs < rhs)),
        NativeOp::Greater => Some(flag(lhs > rhs)),
        _ => None,
    }
}

/// Whether the word takes the two topmost values and leaves one.
pub open spec fn is_binary(op: NativeOp) -> bool {
    !(op is Dup || op is Drop || op is Swap || op is Print)
}

/// The stack that a built-in word leaves, or the error it fails with. On
/// an error the stack stays as it was.
pub open spec fn native_stack(op: NativeOp, stack: Seq<i64>) -> Result<Seq<i64>, ErrorView> {
    let n = stack.len() as int;
    match op {
        NativeOp::Dup => if n < 1 {
            Err(ErrorView::StackUnderflow)
        } else {
            Ok(stack.push(stack[n - 1]))
        },
        NativeOp::Drop => if n < 1 {
            Ok(stack)
        } else {
            Ok(stack.take(n - 1))
        },
        NativeOp::Swap => if n < 2 {
            Err(ErrorView::StackUnderflow)
        } else {
            Ok(stack.take(n - 2).push(stack[n - 1]).push(stack[n - 2]))
        },
        NativeOp::Print => if n < 1 {
            Err(ErrorView::StackUnderflow)
        } else {
            Ok(stack)
        },
        _ => if n < 2 {
            Err(ErrorView::StackUnderflow)
        } else {
            match binary_value(op, stack[n - 2], stack[n - 1]) {
                Some(v) => Ok(stack.take(n - 2).push(v)),
                None => Err(ErrorView::DivByZero),
            }
        },
    }
}

/// The printed values after a built-in word ran on `stack`: only `.`, on a
/// stack that is not empty, adds one, the top of the stack.
pub open spec fn native_output(op: NativeOp, stack: Seq<i64>, output: Seq<i64>) -> Seq<i64> {
    if op is Print && stack.len() > 0 {
        output.push(stack.last())
    } else {
        output
    }
}

/// The outcome of a built-in word on a state.
pub open spec fn apply_native(op: NativeOp, st: State) -> Outcome {
    match native_stack(op, st.stack) {
        Ok(stack) => Outcome {
            state: State { stack, dict: st.dict, output: native_output(op, st.stack, st.output) },
            result: Ok(()),
        },
        Err(e) => Outcome { state: st, result: Err(e) },
    }
}

/// Whether `after` and `r` are what the word `op` makes of the stack `before`.
pub open spec fn stack_effect(
    op: NativeOp,
    before: Seq<i64>,
    after: Seq<i64>,
    r: Result<(), ForthError>,
) -> bool {
    match native_stack(op, before) {
        Ok(stack) => r is Ok && after == stack,
        Err(e) => r is Err && r->Err_0@ == e && after == before,
    }
}

/// A quotient rounded toward zero fits in 64 bits on every pair but a zero
/// divisor and the least value divided by -1.
pub proof fn lemma_quotient_fits(lhs: i64, rhs: i64)
    requires
        rhs != 0,
    ensures
        divisible(lhs, rhs) <==> i64::MIN <= truncated_quotient(lhs as int, rhs as int)
            <= i64::MAX,
{
    let a = lhs as int;
    let b = rhs as int;
    let n = if a < 0 { -a } else { a };
    let d = if b < 0 { -b } else { b };
    assert(0 <= n / d <= n) by (nonlinear_arith)
        requires
            n >= 0,
            d > 0,
    ;
    assert(d >= 2 ==> 2 * (n / d) <= n) by (nonlinear_arith)
        requires
            n >= 0,
            d > 0,
    ;
    assert(d == 1 ==> n / d == n) by (nonlinear_arith);
}

/// Takes the two topmost values off the stack, if there are two: the one
/// below the top first, then the top.
fn take_two(stack: &mut Vec<i64>) -> (pair: Option<(i64, i64)>)
    ensures
        match pair {
            Some((lhs, rhs)) => {
                &&& old(stack)@.len() >= 2
                &&& lhs == old(stack)@[old(stack)@.len() - 2]
                &&& rhs == old(stack)@[old(stack)@.len() - 1]
                &&& final(stack)@ == old(stack)@.take(old(stack)@.len() - 2)
            },
            None => old(stack)@.len() < 2 && final(stack)@ == old(stack)@,
        },
{
    if stack.len() < 2 {
        return None;
    }
    let rhs = stack.pop().unwrap();
    let lhs = stack.pop().unwrap();
    Some((lhs, rhs))
}

/// `+`: replaces the two topmost values by their sum, wrapped to 64 bits.
pub fn add(stack: &mut Vec<i64>) -> (r: Result<(), ForthError>)
    ensures
        stack_effect(NativeOp::Add, old(stack)@, final(stack)@, r),
{
    match take_two(stack) {
        Some((lhs, rhs)) => {
            stack.push(lhs.wrapping_add(rhs));
            Ok(())
        },
        None => Err(ForthError::StackUnderflow),
    }
}

/// `-`: replaces the two topmost values by the lower minus the top, wrapped
/// to 64 bits.
pub fn sub(stack: &mut Vec<i64>) -> (r: Result<(), ForthError>)
    ensures
        stack_effect(NativeOp::Sub, old(stack)@, final(stack)@, r),
{
    match take_two(stack) {
        Some((lhs, rhs)) => {
            stack.push(lhs.wrapping_sub(rhs));
            Ok(())
        },
        None => Err(ForthError::StackUnderflow),
    }
}

/// `*`: replaces the two topmost values by their product, wrapped to 64 bits.
pub fn mul(stack: &mut Vec<i64>) -> (r: Result<(), ForthError>)
    ensures
        stack_effect(NativeOp::Mul, old(stack)@, final(stack)@, r),
{
    match take_two(stack) {
        Some((lhs, rhs)) => {
            stack.push(lhs.wrapping_mul(rhs));
            Ok(())
        },
        None => Err(ForthError::StackUnderflow),
    }
}

/// `/`: replaces the two topmost values by the lower divided by the top,
/// rounded toward zero. Fails with `DivByZero`, leaving the stack as it was,
/// where the quotient has no 64-bit value.
pub fn div(stack: &mut Vec<i64>) -> (r: Result<(), ForthError>)
    ensures
        stack_effect(NativeOp::Div, old(stack)@, final(stack)@, r),
{
    let n = stack.len();
    if n < 2 {
        return Err(ForthError::StackUnderflow);
    }
    let rhs = stack[n - 1];
    let lhs = stack[n - 2];
    proof {
        if rhs != 0 {
            lemma_quotient_fits(lhs, rhs);
        }
    }
    match lhs.checked_div(rhs) {
        Some(q) => {
            stack.pop();
            stack.pop();
            stack.push(q);
            assert(final(stack)@ =~= old(stack)@.take(n - 2).push(q));
            Ok(())
        },
        None => Err(ForthError::DivByZero),
    }
}

/// `dup`: pushes a copy of the top.
pub fn dup(stack: &mut Vec<i64>) -> (r: Result<(), ForthError>)
    ensures
        stack_effect(NativeOp::Dup, old(stack)@, final(stack)@, r),
{
    let n = stack.len();
    if n < 1 {
        return Err(ForthError::StackUnderflow);
    }
    let top = stack[n - 1];
    stack.push(top);
    Ok(())
}

/// `drop`: removes the top; on an empty stack it does nothing.
pub fn drop_top(stack: &mut Vec<i64>) -> (r: Result<(), ForthError>)
    ensures
        stack_effect(NativeOp::Drop, old(stack)@, final(stack)@, r),
{
    let n = stack.len();
    if n >= 1 {
        stack.pop();
    }
    Ok(())
}

/// `swap`: exchanges the two topmost values.
pub fn swap(stack: &mut Vec<i64>) -> (r: Result<(), ForthError>)
    ensures
        stack_effect(NativeOp::Swap, old(stack)@, final(stack)@, r),
{
    match take_two(stack) {
        Some((lhs, rhs)) => {
            stack.push(rhs);
            stack.push(lhs);
            Ok(())
        },
        None => Err(ForthError::StackUnderflow),
    }
}

/// `.`: appends the top of the stack to the printed values. The stack is
/// only read.
pub fn print(stack: &Vec<i64>, output: &mut Vec<i64>) -> (r: Result<(), ForthError>)
    ensures
        stack_effect(NativeOp::Print, stack@, stack@, r),
        final(output)@ == native_output(NativeOp::Print, stack@, old(output)@),
{
    let n = stack.len();
    if n < 1 {
        return Err(ForthError::StackUnderflow);
    }
    output.push(stack[n - 1]);
    Ok(())
}

/// `=`: replaces the two topmost values by 1 where they are equal, by 0
/// where they are not.
pub fn equal(stack: &mut Vec<i64>) -> (r: Result<(), ForthError>)
    ensures
        stack_effect(NativeOp::Equal, old(stack)@, final(stack)@, r),
{
    compare(NativeOp::Equal, stack)
}

/// `<>`: replaces the two topmost values by 1 where they differ, by 0
/// where they do not.
pub fn not_equal(stack: &mut Vec<i64>) -> (r: Result<(), ForthError>)
    ensures
        stack_effect(NativeOp::NotEqual, old(stack)@, final(stack)@, r),
{
    compare(NativeOp::NotEqual, stack)
}

/// `<`: replaces the two topmost values by 1 where the lower is less than
/// the top, by 0 where it is not.
pub fn less(stack: &mut Vec<i64>) -> (r: Result<(), ForthError>)
    ensures
        stack_effect(NativeOp::Less, old(stack)@, final(stack)@, r),
{
    compare(NativeOp::Less, stack)
}

/// `>`: replaces the two topmost values by 1 where the lower is greater
/// than the top, by 0 where it is not.
pub fn greater(stack: &mut Vec<i64>) -> (r: Result<(), ForthError>)
    ensures
        stack_effect(NativeOp::Greater, old(stack)@, final(stack)@, r),
{
    compare(NativeOp::Greater, stack)
}

/// The four comparisons: replace the two topmost values by 1 where the
/// lower stands in the relation `op` to the top, by 0 where it does not.
fn compare(op: NativeOp, stack: &mut Vec<i64>) -> (r: Result<(), ForthError>)
    requires
        op is Equal || op is NotEqual || op is Less || op is Greater,
    ensures
        stack_effect(op, old(stack)@, final(stack)@, r),
{
    match take_two(stack) {
        Some((lhs, rhs)) => {
            let holds = match op {
                NativeOp::Equal => lhs == rhs,
                NativeOp::NotEqual => lhs != rhs,
                NativeOp::Less => lhs < rhs,
                _ => lhs > rhs,
            };
            stack.push(if holds { 1 } else { 0 });
            Ok(())
        },
        None => Err(ForthError::StackUnderflow),
    }
}

/// Runs a built-in word on the stack and the printed values.
pub fn apply(op: NativeOp, stack: &mut Vec<i64>, output: &mut Vec<i64>) -> (r: Result<
    (),
    ForthError,
>)
    ensures
        stack_effect(op, old(stack)@, final(stack)@, r),
        final(output)@ == native_output(op, old(stack)@, old(output)@),
{
    match op {
        NativeOp::Add => self::add(stack),
        NativeOp::Sub => self::sub(stack),
        NativeOp::Mul => self::mul(stack),
        NativeOp::Div => div(stack),
        NativeOp::Dup => dup(stack),
        NativeOp::Drop => drop_top(stack),
        NativeOp::Swap => swap(stack),
        NativeOp::Print => print(stack, output),
        NativeOp::Equal => equal(stack),
        NativeOp::NotEqual => not_equal(stack),
        NativeOp::Less => less(stack),
        NativeOp::Greater => greater(stack),
    }
}

} // verus!
