//! List elements and their mathematical values.
//!
//! An element is null, a fixed-width integer (carried as its bit pattern),
//! or a byte string. Text elements travel as byte strings: the processing
//! path is shared with opaque binary, and only the array's element-type tag
//! tells the two apart. Null is a first-class set member: two nulls in one
//! row are equal and deduplicate to one.

use vstd::prelude::*;

verus! {

/// A single (possibly null) list element.
#[derive(Debug, PartialEq, Eq)]
pub enum Elem {
    Null,
    Num(u64),
    Bytes(Vec<u8>),
}

/// The mathematical value of an element.
#[verifier::ext_equal]
pub enum ElemV {
    Null,
    Num(u64),
    Bytes(Seq<u8>),
}

impl View for Elem {
    type V = ElemV;

    open spec fn view(&self) -> ElemV {
        match self {
            Elem::Null => ElemV::Null,
            Elem::Num(v) => ElemV::Num(*v),
            Elem::Bytes(b) => ElemV::Bytes(b@),
        }
    }
}

/// Byte strings are equal when they have the same length and contents.
pub fn bytes_eq(x: &Vec<u8>, y: &Vec<u8>) -> (r: bool)
    ensures
        r == (x@ == y@),
{
    if x.len() != y.len() {
        return false;
    }
    let mut i: usize = 0;
    while i < x.len()
        invariant
            x@.len() == y@.len(),
            i <= x@.len(),
            forall|k: int| 0 <= k < i ==> x@[k] == y@[k],
        decreases x@.len() - i,
    {
        if x[i] != y[i] {
            return false;
        }
        i += 1;
    }
    proof {
        assert(x@ =~= y@);
    }
    true
}

fn copy_bytes(b: &Vec<u8>) -> (r: Vec<u8>)
    ensures
        r@ == b@,
{
    let mut out: Vec<u8> = Vec::new();
    let mut i: usize = 0;
    while i < b.len()
        invariant
            i <= b@.len(),
            out@ == b@.take(i as int),
        decreases b@.len() - i,
    {
        out.push(b[i]);
        proof {
            assert(b@.take(i + 1 as int) =~= b@.take(i as int).push(b@[i as int]));
        }
        i += 1;
    }
    proof {
        assert(b@.take(b@.len() as int) =~= b@);
    }
    out
}

impl Elem {
    /// Elements are equal when their mathematical values are; in particular
    /// null equals null.
    pub fn eq_elem(&self, other: &Elem) -> (r: bool)
        ensures
            r == (self@ == other@),
    {
        match (self, other) {
            (Elem::Null, Elem::Null) => true,
            (Elem::Num(x), Elem::Num(y)) => x == y,
            (Elem::Bytes(x), Elem::Bytes(y)) => bytes_eq(x, y),
            _ => false,
        }
    }

    /// A fresh element with the same mathematical value.
    pub fn dup(&self) -> (r: Elem)
        ensures
            r@ == self@,
    {
        match self {
            Elem::Null => Elem::Null,
            Elem::Num(v) => Elem::Num(*v),
            Elem::Bytes(b) => Elem::Bytes(copy_bytes(b)),
        }
    }
}

} // verus!
