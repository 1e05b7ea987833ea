//! Ports and messages.
//!
//! A port is a per-cycle bag of values: it holds values produced only within
//! the current simulation cycle and is unconditionally cleared before the
//! next cycle begins.  A message pairs a value with the index of the port it
//! travels on.

use vstd::prelude::*;

verus! {

/// A value leaving or entering a model on a numbered port.
#[derive(Clone, Copy, Debug)]
pub struct Msg<V> {
    /// Index of the port within the owning model's declarations.
    pub port: usize,
    /// The value carried.
    pub value: V,
}

/// The declaration of one port: a name, unique per model and role, and a tag
/// naming the value type the port carries.  Two coupled ports must declare
/// the same tag.
#[derive(Clone, Debug)]
pub struct PortDecl {
    pub name: String,
    pub tag: u32,
}

/// A per-cycle bag of values.  A port is "empty" if no value was written to
/// it this cycle.
#[derive(Debug)]
pub struct Port<V> {
    values: Vec<V>,
}

impl<V> View for Port<V> {
    type V = Seq<V>;

    closed spec fn view(&self) -> Seq<V> {
        self.values@
    }
}

impl<V> Port<V> {
    pub fn new() -> (p: Self)
        ensures
            p@ == Seq::<V>::empty(),
    {
        Port { values: Vec::new() }
    }

    pub fn len(&self) -> (n: usize)
        ensures
            n == self@.len(),
    {
        self.values.len()
    }

    pub fn is_empty(&self) -> (b: bool)
        ensures
            b == (self@.len() == 0),
    {
        self.values.len() == 0
    }

    pub fn get(&self, i: usize) -> (v: &V)
        requires
            i < self@.len(),
        ensures
            *v == self@[i as int],
    {
        &self.values[i]
    }

    pub fn push(&mut self, v: V)
        ensures
            final(self)@ == old(self)@.push(v),
    {
        self.values.push(v);
    }

    pub fn clear(&mut self)
        ensures
            final(self)@ == Seq::<V>::empty(),
    {
        self.values = Vec::new();
    }
}

impl<V: Copy> Port<V> {
    /// A copy of the values currently in the bag, in arrival order.
    pub fn to_vec(&self) -> (r: Vec<V>)
        ensures
            r@ == self@,
    {
        let mut r: Vec<V> = Vec::new();
        let n = self.values.len();
        let mut i: usize = 0;
        while i < n
            invariant
                i <= n,
                n == self@.len(),
                r@ == self@.take(i as int),
            decreases n - i,
        {
            r.push(self.values[i]);
            proof {
                assert(self@.take(i + 1 as int) == self@.take(i as int).push(self@[i as int]));
            }
            i = i + 1;
        }
        proof {
            assert(self@.take(n as int) == self@);
        }
        r
    }
}

/// The bags of a family of ports, as one sequence of value sequences.
pub open spec fn bags_view<V>(bags: Seq<Port<V>>) -> Seq<Seq<V>> {
    Seq::new(bags.len(), |p: int| bags[p]@)
}

/// Whether at least one bag in the family is non-empty.
pub open spec fn some_input<V>(bags: Seq<Seq<V>>) -> bool {
    exists|p: int| 0 <= p < bags.len() && #[trigger] bags[p].len() > 0
}

} // verus!
