//! The compute-cell function interface and ready-made arithmetic
//! functions over `i64` values.
//!
//! A compute cell's function is a capability: callable with the sequence
//! of dependency values, returning one value. `CellFunc::spec_call` is the
//! function's mathematical meaning; `CellFunc::call` must return exactly
//! that, so every implementation is a pure, deterministic function of its
//! arguments.
use vstd::prelude::*;

verus! {

/// A pure function from a sequence of dependency values to one value.
///
/// Implementations must be total: the reactor hands `call` exactly one
/// argument per declared dependency, but `spec_call` is defined on every
/// argument sequence.
pub trait CellFunc<T>: Sized {
    /// The mathematical meaning of this function.
    spec fn spec_call(&self, args: Seq<T>) -> T;

    /// Applies the function; returns exactly its mathematical meaning.
    fn call(&self, args: &Vec<T>) -> (r: T)
        ensures
            r == self.spec_call(args@),
    ;
}

/// The wrapped sum of a sequence of `i64` values.
pub open spec fn wrap_sum(s: Seq<i64>) -> i64
    decreases s.len(),
{
    if s.len() == 0 {
        0i64
    } else {
        wrap_sum(s.drop_last()).wrapping_add(s.last())
    }
}

/// Ready-made compute-cell functions over `i64` values, covering constant
/// cells, affine functions of the first dependency, and sums.
///
/// Arithmetic wraps on overflow, so every variant is total. A variant that
/// reads a missing argument treats it as zero.
#[derive(Clone, Copy, Debug)]
pub enum ArithFunc {
    /// Ignores its arguments and returns the constant.
    Const(i64),
    /// Adds the constant to the first argument.
    AddConst(i64),
    /// Multiplies the first argument by the constant.
    MulConst(i64),
    /// The sum of all arguments.
    Sum,
}

impl CellFunc<i64> for ArithFunc {
    open spec fn spec_call(&self, args: Seq<i64>) -> i64 {
        let first: i64 = if args.len() > 0 {
            args[0]
        } else {
            0i64
        };
        match *self {
            ArithFunc::Const(c) => c,
            ArithFunc::AddConst(c) => first.wrapping_add(c),
            ArithFunc::MulConst(c) => first.wrapping_mul(c),
            ArithFunc::Sum => wrap_sum(args),
        }
    }

    fn call(&self, args: &Vec<i64>) -> (r: i64)
        ensures
            r == self.spec_call(args@),
    {
        match *self {
            ArithFunc::Const(c) => c,
            ArithFunc::AddConst(c) => {
                let first: i64 = if args.len() > 0 {
                    args[0]
                } else {
                    0i64
                };
                first.wrapping_add(c)
            },
            ArithFunc::MulConst(c) => {
                let first: i64 = if args.len() > 0 {
                    args[0]
                } else {
                    0i64
                };
                first.wrapping_mul(c)
            },
            ArithFunc::Sum => {
                let mut acc: i64 = 0;
                let mut k: usize = 0;
                while k < args.len()
                    invariant
                        0 <= k <= args@.len(),
                        acc == wrap_sum(args@.take(k as int)),
                    decreases args@.len() - k,
                {
                    proof {
                        assert(args@.take(k + 1).drop_last() =~= args@.take(k as int));
                        assert(args@.take(k + 1).last() == args@[k as int]);
                    }
                    acc = acc.wrapping_add(args[k]);
                    k = k + 1;
                }
                proof {
                    assert(args@.take(args@.len() as int) =~= args@);
                }
                acc
            },
        }
    }
}

} // verus!
