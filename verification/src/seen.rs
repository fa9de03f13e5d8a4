use vstd::prelude::*;

verus! {

/// The set of grid cells currently visible to the player. The visibility
/// oracle itself is an outside collaborator; it reports each visible cell
/// through `insert`, and the turn engine only ever asks membership.
pub struct SeenSet {
    pub cells: Vec<(i32, i32)>,
}

impl SeenSet {
    /// Whether `(x, y)` is recorded as visible.
    pub open spec fn sees(&self, x: int, y: int) -> bool {
        exists|k: int|
            0 <= k < self.cells@.len() && (#[trigger] self.cells@[k]).0 == x && self.cells@[k].1
                == y
    }

    /// An empty visible-set.
    pub fn new() -> (s: SeenSet)
        ensures
            forall|x: int, y: int| !s.sees(x, y),
    {
        SeenSet { cells: Vec::new() }
    }

    /// Record `(x, y)` as visible.
    pub fn insert(&mut self, x: i32, y: i32)
        ensures
            forall|a: int, b: int|
                final(self).sees(a, b) <==> old(self).sees(a, b) || (a == x && b == y),
    {
        self.cells.push((x, y));
        proof {
            assert forall|a: int, b: int|
                final(self).sees(a, b) <==> old(self).sees(a, b) || (a == x && b == y) by {
                if old(self).sees(a, b) {
                    let k = choose|k: int|
                        0 <= k < old(self).cells@.len() && (#[trigger] old(self).cells@[k]).0 == a
                            && old(self).cells@[k].1 == b;
                    assert(self.cells@[k].0 == a && self.cells@[k].1 == b);
                }
                if a == x && b == y {
                    assert(self.cells@[self.cells@.len() - 1].0 == a && self.cells@[self.cells@.len()
                        - 1].1 == b);
                }
            }
        }
    }

    /// Forget everything; ready for the next turn's recompute.
    pub fn clear(&mut self)
        ensures
            forall|x: int, y: int| !final(self).sees(x, y),
    {
        self.cells.clear();
    }

    /// Ask whether `(x, y)` is visible.
    pub fn contains(&self, x: i32, y: i32) -> (b: bool)
        ensures
            b == self.sees(x as int, y as int),
    {
        let mut i: usize = 0;
        while i < self.cells.len()
            invariant
                i <= self.cells@.len(),
                forall|k: int|
                    0 <= k < i ==> !((#[trigger] self.cells@[k]).0 == x && self.cells@[k].1 == y),
            decreases self.cells@.len() - i,
        {
            let (cx, cy) = self.cells[i];
            if cx == x && cy == y {
                return true;
            }
            i = i + 1;
        }
        false
    }
}

} // verus!
