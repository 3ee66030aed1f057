use vstd::prelude::*;

verus! {

/// The values one parameter of a sweep takes, and which one is current.
pub struct ParamVec<T> {
    pub data: Vec<T>,
    pub index: usize,
}

impl<T: Copy> ParamVec<T> {
    pub open spec fn wf(&self) -> bool {
        self.index < self.data@.len()
    }

    /// The values `data`, starting at the first.
    pub fn from_vec(data: Vec<T>) -> (r: ParamVec<T>)
        ensures
            r.data@ == data@,
            r.index == 0,
    {
        ParamVec { data, index: 0 }
    }

    pub fn current(&self) -> (r: T)
        requires
            self.wf(),
        ensures
            r == self.data@[self.index as int],
    {
        self.data[self.index]
    }

    /// Moves to the next value; past the last it wraps to the first and
    /// returns false, so that the next parameter of the sweep moves on.
    pub fn next(&mut self) -> (r: bool)
        requires
            old(self).wf(),
        ensures
            final(self).wf(),
            final(self).data@ == old(self).data@,
            r == (old(self).index + 1 < old(self).data@.len()),
            r ==> final(self).index == old(self).index + 1,
            !r ==> final(self).index == 0,
    {
        let n = self.data.len();
        if self.index >= n - 1 {
            self.index = 0;
            false
        } else {
            self.index = self.index + 1;
            true
        }
    }
}

/// A parameter held at one value.
pub fn fixed<T: Copy>(value: T) -> (r: ParamVec<T>)
    ensures
        r.data@ == seq![value],
        r.index == 0,
{
    let mut v: Vec<T> = Vec::new();
    v.push(value);
    assert(v@ =~= seq![value]);
    ParamVec::from_vec(v)
}

/// A parameter that is off, then on.
pub fn flip() -> (r: ParamVec<bool>)
    ensures
        r.data@ == seq![false, true],
        r.index == 0,
{
    let mut v: Vec<bool> = Vec::new();
    v.push(false);
    v.push(true);
    assert(v@ =~= seq![false, true]);
    ParamVec::from_vec(v)
}

/// The values `start`, `start + increment`, ... below `end`.
pub fn range(start: u64, end: u64, increment: u64) -> (r: ParamVec<u64>)
    requires
        increment > 0,
    ensures
        r.index == 0,
        forall|i: int| 0 <= i < r.data@.len() ==> r.data@[i] == start + i * increment && r.data@[i] < end,
        start + r.data@.len() * increment >= end,
{
    let mut v: Vec<u64> = Vec::new();
    let mut x: u64 = start;
    assert(start + v@.len() * increment == start) by (nonlinear_arith)
        requires
            v@.len() == 0,
    ;
    while x < end
        invariant
            increment > 0,
            x == start + v@.len() * increment,
            forall|i: int| 0 <= i < v@.len() ==> v@[i] == start + i * increment && v@[i] < end,
        decreases end as int - x as int + increment as int,
    {
        let ghost k = v@.len();
        v.push(x);
        assert(start + v@.len() * increment == x + increment) by (nonlinear_arith)
            requires
                x == start + k * increment,
                v@.len() == k + 1,
        ;
        if x > u64::MAX - increment {
            return ParamVec::from_vec(v);
        }
        x = x + increment;
    }
    ParamVec::from_vec(v)
}

} // verus!
