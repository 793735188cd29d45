// Copyright 2023 Memgraph Ltd.
//
// Use of this software is governed by the Business Source License
// included in the file licenses/BSL.txt; by using this file, you agree to be bound by the terms of the Business Source
// License, and you may not use this file except in compliance with the Business Source License.
//
// As of the Change Date specified in that file, in accordance with
// the Business Source License, use of this software will be governed
// by the Apache License, Version 2.0, included in the file
// licenses/APL.txt.

//! Ranges over fixed-width keys, built from raw generator bytes: the start
//! key, a per-byte distance to the end key, and one byte that picks which
//! ends are included, excluded or open.
use vstd::prelude::*;

verus! {

/// One end of a key range.
#[derive(Debug, Clone, Copy)]
pub enum Bound<T> {
    Included(T),
    Excluded(T),
    Unbounded,
}

/// A range of eleven-byte keys.
#[derive(Debug, Clone, Copy)]
pub struct B {
    pub start: Bound<[u8; 11]>,
    pub end: Bound<[u8; 11]>,
}

/// Each byte of `a` plus the byte of `add` at the same place, held at 255.
pub open spec fn saturating_sums(a: Seq<u8>, add: Seq<u8>) -> Seq<u8> {
    Seq::new(
        a.len(),
        |i: int|
            if a[i] + add[i] > 255 {
                255u8
            } else {
                (a[i] + add[i]) as u8
            },
    )
}

/// The start that the shape byte `information` picks for start key `a`.
pub open spec fn start_for(information: u8, a: [u8; 11]) -> Bound<[u8; 11]> {
    let shape = information % 8;
    if shape <= 2 {
        Bound::Included(a)
    } else if shape <= 4 {
        Bound::Excluded(a)
    } else {
        Bound::Unbounded
    }
}

/// Whether `end` is the end that the shape byte `information` picks, its key
/// being `sums`.
pub open spec fn end_fits(information: u8, end: Bound<[u8; 11]>, sums: Seq<u8>) -> bool {
    let shape = information % 8;
    if shape == 0 || shape == 3 || shape == 5 {
        end matches Bound::Included(b) && b@ == sums
    } else if shape == 1 || shape == 6 {
        end matches Bound::Excluded(b) && b@ == sums
    } else {
        end is Unbounded
    }
}

/// A bound over a borrowed key, of the same kind as `bound`.
pub fn ref_bound<T>(bound: &Bound<T>) -> (r: Bound<&T>)
    ensures
        match *bound {
            Bound::Unbounded => r is Unbounded,
            Bound::Included(x) => r matches Bound::Included(y) && *y == x,
            Bound::Excluded(x) => r matches Bound::Excluded(y) && *y == x,
        },
{
    match bound {
        Bound::Unbounded => Bound::Unbounded,
        Bound::Included(x) => Bound::Included(x),
        Bound::Excluded(x) => Bound::Excluded(x),
    }
}

impl B {
    /// The start of the range, borrowed.
    pub fn start_bound(&self) -> (r: Bound<&[u8; 11]>)
        ensures
            match self.start {
                Bound::Unbounded => r is Unbounded,
                Bound::Included(x) => r matches Bound::Included(y) && *y == x,
                Bound::Excluded(x) => r matches Bound::Excluded(y) && *y == x,
            },
    {
        ref_bound(&self.start)
    }

    /// The end of the range, borrowed.
    pub fn end_bound(&self) -> (r: Bound<&[u8; 11]>)
        ensures
            match self.end {
                Bound::Unbounded => r is Unbounded,
                Bound::Included(x) => r matches Bound::Included(y) && *y == x,
                Bound::Excluded(x) => r matches Bound::Excluded(y) && *y == x,
            },
    {
        ref_bound(&self.end)
    }

    /// The range that generator bytes describe: `a` is the start key, the end
    /// key adds `add` to it byte by byte (held at 255), and `information`
    /// modulo 8 picks one of the eight shapes. A range excluded at both ends is
    /// never made.
    pub fn arbitrary(information: u8, a: [u8; 11], add: [u8; 11]) -> (r: B)
        ensures
            r.start == start_for(information, a),
            end_fits(information, r.end, saturating_sums(a@, add@)),
            !(r.start is Excluded && r.end is Excluded),
    {
        let mut b: [u8; 11] = [0; 11];
        let mut i: usize = 0;
        while i < 11
            invariant
                i <= 11,
                b@.len() == 11,
                forall|j: int| 0 <= j < i ==> b@[j] == saturating_sums(a@, add@)[j],
            decreases 11 - i,
        {
            let sum = a[i].saturating_add(add[i]);
            b.set(i, sum);
            i = i + 1;
        }
        assert(b@ =~= saturating_sums(a@, add@));
        let shape = information % 8;
        if shape == 0 {
            B { start: Bound::Included(a), end: Bound::Included(b) }
        } else if shape == 1 {
            B { start: Bound::Included(a), end: Bound::Excluded(b) }
        } else if shape == 2 {
            B { start: Bound::Included(a), end: Bound::Unbounded }
        } else if shape == 3 {
            B { start: Bound::Excluded(a), end: Bound::Included(b) }
        } else if shape == 4 {
            B { start: Bound::Excluded(a), end: Bound::Unbounded }
        } else if shape == 5 {
            B { start: Bound::Unbounded, end: Bound::Included(b) }
        } else if shape == 6 {
            B { start: Bound::Unbounded, end: Bound::Excluded(b) }
        } else {
            B { start: Bound::Unbounded, end: Bound::Unbounded }
        }
    }
}

} // verus!
