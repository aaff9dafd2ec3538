//! The primitive signature transforms.
//!
//! A provider's descrambling routine is decomposed into an ordered list of
//! these three operations; replaying them on the scrambled signature yields
//! the playable one.  An index that reaches past the end of the signature
//! is a hard error, never clamped.

use vstd::prelude::*;
use crate::error::{Error, ErrorKind};
use crate::scan::{is_digit_byte, subvec};

verus! {

/// One primitive transform of the descrambling routine.
#[derive(Clone, Copy, Debug, PartialEq, Eq, Structural)]
pub enum CryptOp {
    /// Reverses the entire signature.
    Reverse,
    /// Exchanges the first element with the one at the given index.
    Swap(usize),
    /// Discards every element before the given index.
    Slice(usize),
}

/// The effect of one transform on a signature, or `None` when its index
/// reaches past the end.
pub open spec fn apply_op(op: CryptOp, s: Seq<u8>) -> Option<Seq<u8>> {
    match op {
        CryptOp::Reverse => Some(s.reverse()),
        CryptOp::Swap(i) => if (i as int) < s.len() {
            Some(s.update(0, s[i as int]).update(i as int, s[0]))
        } else {
            None
        },
        CryptOp::Slice(i) => if (i as int) < s.len() {
            Some(s.skip(i as int))
        } else {
            None
        },
    }
}

/// The effect of a whole transform sequence, applied in order; `None` as
/// soon as any step's index is out of range.
pub open spec fn apply_ops(ops: Seq<CryptOp>, s: Seq<u8>) -> Option<Seq<u8>>
    decreases ops.len(),
{
    if ops.len() == 0 {
        Some(s)
    } else {
        match apply_op(ops[0], s) {
            Some(t) => apply_ops(ops.skip(1), t),
            None => None,
        }
    }
}

/// The decimal value of a run of digit bytes.
pub open spec fn digits_val(ds: Seq<u8>) -> nat
    decreases ds.len(),
{
    if ds.len() == 0 {
        0
    } else {
        digits_val(ds.drop_last()) * 10 + (ds.last() - 48) as nat
    }
}

/// The numeric argument embedded in a statement: all its digit bytes run
/// together and read as one decimal number.  `None` when the statement
/// holds no digit, or the number does not fit the machine.
pub open spec fn stmt_arg(s: Seq<u8>) -> Option<int> {
    let ds = s.filter(|b: u8| is_digit_byte(b));
    if ds.len() == 0 || digits_val(ds) > usize::MAX {
        None
    } else {
        Some(digits_val(ds) as int)
    }
}

/// Reads the numeric argument out of a statement's text.
fn parse_arg(s: &Vec<u8>) -> (r: Result<usize, Error>)
    ensures
        match stmt_arg(s@) {
            Some(v) => r matches Ok(u) && u == v,
            None => r matches Err(e) && e.kind == ErrorKind::UnknownTransform,
        },
{
    let mut val: usize = 0;
    let mut seen: bool = false;
    let mut over: bool = false;
    let mut i: usize = 0;
    let ghost pred = |b: u8| is_digit_byte(b);
    proof {
        assert(s@.take(0).filter(pred) =~= Seq::<u8>::empty());
    }
    while i < s.len()
        invariant
            i <= s@.len(),
            seen == (s@.take(i as int).filter(pred).len() > 0),
            !over ==> val == digits_val(s@.take(i as int).filter(pred)),
            over ==> digits_val(s@.take(i as int).filter(pred)) > usize::MAX,
            pred == |b: u8| is_digit_byte(b),
        decreases s@.len() - i,
    {
        let b = s[i];
        let ghost prev = s@.take(i as int).filter(pred);
        proof {
            assert(s@.take(i as int + 1).drop_last() =~= s@.take(i as int));
            assert(s@.take(i as int + 1).last() == s@[i as int]);
            reveal_with_fuel(Seq::filter, 2);
            if pred(s@[i as int]) {
                assert(s@.take(i as int + 1).filter(pred) =~= prev.push(s@[i as int]));
                assert(prev.push(s@[i as int]).drop_last() =~= prev);
            } else {
                assert(s@.take(i as int + 1).filter(pred) =~= prev);
            }
        }
        if 48 <= b && b <= 57 {
            seen = true;
            let d = (b - 48) as usize;
            if !over {
                if val > (usize::MAX - d) / 10 {
                    over = true;
                    proof {
                        assert(10 * ((usize::MAX - d) as int / 10) + 9 >= usize::MAX - d);
                        assert(val * 10 + d > usize::MAX);
                    }
                } else {
                    proof {
                        assert(10 * ((usize::MAX - d) as int / 10) <= usize::MAX - d);
                        assert(val * 10 + d <= usize::MAX);
                    }
                    val = val * 10 + d;
                }
            } else {
                proof {
                    assert(digits_val(prev.push(s@[i as int])) >= digits_val(prev));
                }
            }
        }
        i += 1;
    }
    proof {
        assert(s@.take(s@.len() as int) =~= s@);
    }
    if seen && !over {
        Ok(val)
    } else {
        Err(Error::new(ErrorKind::UnknownTransform, "transform argument is not a number"))
    }
}

impl CryptOp {
    /// Builds the swap operation a statement invokes, reading its index
    /// from the statement's digit run.
    pub fn swap(s: &Vec<u8>) -> (r: Result<CryptOp, Error>)
        ensures
            match stmt_arg(s@) {
                Some(v) => r matches Ok(op) && op == CryptOp::Swap(v as usize),
                None => r matches Err(e) && e.kind == ErrorKind::UnknownTransform,
            },
    {
        match parse_arg(s) {
            Ok(v) => Ok(CryptOp::Swap(v)),
            Err(e) => Err(e),
        }
    }

    /// Builds the drop-prefix operation a statement invokes, reading its
    /// index from the statement's digit run.
    pub fn slice(s: &Vec<u8>) -> (r: Result<CryptOp, Error>)
        ensures
            match stmt_arg(s@) {
                Some(v) => r matches Ok(op) && op == CryptOp::Slice(v as usize),
                None => r matches Err(e) && e.kind == ErrorKind::UnknownTransform,
            },
    {
        match parse_arg(s) {
            Ok(v) => Ok(CryptOp::Slice(v)),
            Err(e) => Err(e),
        }
    }

    /// Applies this transform to the signature in place.  An index at or
    /// past the end of the signature is refused with `IndexOutOfRange`
    /// and leaves the signature unchanged.
    pub fn apply(&self, sig: &mut Vec<u8>) -> (r: Result<(), Error>)
        ensures
            match apply_op(*self, old(sig)@) {
                Some(t) => r matches Ok(u) && final(sig)@ == t,
                None => (r matches Err(e) && e.kind == ErrorKind::IndexOutOfRange)
                    && final(sig)@ == old(sig)@,
            },
    {
        match *self {
            CryptOp::Reverse => {
                let n = sig.len();
                let mut out: Vec<u8> = Vec::new();
                let mut k: usize = 0;
                while k < n
                    invariant
                        k <= n,
                        n == sig@.len(),
                        out@.len() == k,
                        forall|t: int| 0 <= t < k ==> out@[t] == sig@[n - 1 - t],
                    decreases n - k,
                {
                    out.push(sig[n - 1 - k]);
                    k += 1;
                }
                proof {
                    assert(out@ =~= sig@.reverse());
                }
                *sig = out;
                Ok(())
            },
            CryptOp::Swap(i) => {
                if i >= sig.len() {
                    return Err(
                        Error::new(ErrorKind::IndexOutOfRange, "swap index is out of range"),
                    );
                }
                let n = sig.len();
                let first = sig[0];
                let other = sig[i];
                let mut out: Vec<u8> = Vec::new();
                let mut k: usize = 0;
                while k < n
                    invariant
                        k <= n,
                        i < n,
                        n == sig@.len(),
                        first == sig@[0],
                        other == sig@[i as int],
                        out@.len() == k,
                        forall|t: int|
                            0 <= t < k ==> out@[t] == (if t == 0 {
                                sig@[i as int]
                            } else if t == i {
                                sig@[0]
                            } else {
                                sig@[t]
                            }),
                    decreases n - k,
                {
                    if k == 0 {
                        out.push(other);
                    } else if k == i {
                        out.push(first);
                    } else {
                        out.push(sig[k]);
                    }
                    k += 1;
                }
                proof {
                    assert(out@ =~= sig@.update(0, sig@[i as int]).update(i as int, sig@[0]));
                }
                *sig = out;
                Ok(())
            },
            CryptOp::Slice(i) => {
                if i >= sig.len() {
                    return Err(
                        Error::new(ErrorKind::IndexOutOfRange, "drop index is out of range"),
                    );
                }
                let out = subvec(sig, i, sig.len());
                proof {
                    assert(out@ =~= sig@.skip(i as int));
                }
                *sig = out;
                Ok(())
            },
        }
    }
}

/// Applies a whole transform sequence to a signature, in order.  Fails
/// with `IndexOutOfRange` as soon as any step's index is out of range.
pub fn apply_all(ops: &Vec<CryptOp>, sig: Vec<u8>) -> (r: Result<Vec<u8>, Error>)
    ensures
        match apply_ops(ops@, sig@) {
            Some(t) => r matches Ok(v) && v@ == t,
            None => r matches Err(e) && e.kind == ErrorKind::IndexOutOfRange,
        },
{
    let ghost sig0 = sig@;
    let mut cur = sig;
    let mut i: usize = 0;
    proof {
        assert(ops@.skip(0) =~= ops@);
    }
    while i < ops.len()
        invariant
            i <= ops@.len(),
            sig0 == sig@,
            apply_ops(ops@, sig0) == apply_ops(ops@.skip(i as int), cur@),
        decreases ops@.len() - i,
    {
        let ghost prev = cur@;
        let op = ops[i];
        proof {
            assert(ops@.skip(i as int)[0] == ops@[i as int]);
            assert(ops@.skip(i as int).skip(1) =~= ops@.skip(i as int + 1));
        }
        match op.apply(&mut cur) {
            Ok(_) => {},
            Err(e) => {
                proof {
                    assert(apply_op(ops@[i as int], prev) is None);
                    assert(apply_ops(ops@.skip(i as int), prev) is None);
                }
                return Err(e);
            },
        }
        i += 1;
    }
    Ok(cur)
}

} // verus!
