//! Uniform random draws, taken from the generator of the running thread.
use rand::Rng;
use vstd::prelude::*;
use crate::geometry::{Domain, Point};

verus! {

/// Calls `rand::Rng::gen_range` on `rand::thread_rng()` with the range
/// `low..=high`, which panics on an empty range. Whatever is drawn lies in
/// the range; nothing else is known of it, and two calls may differ.
#[verifier::external_body]
fn uniform_between(low: u64, high: u64) -> (drawn: u64)
    requires
        low <= high,
    ensures
        low <= drawn <= high,
{
    rand::thread_rng().gen_range(low..=high)
}

/// A whole number between `low` and `high`, both included.
pub fn random_between(low: u32, high: u32) -> (drawn: u32)
    requires
        low <= high,
    ensures
        low <= drawn <= high,
{
    uniform_between(low as u64, high as u64) as u32
}

/// An index into a list of `len` items.
pub fn random_index(len: usize) -> (index: usize)
    requires
        len >= 1,
    ensures
        index < len,
{
    uniform_between(0, (len - 1) as u64) as usize
}

/// Values that can be drawn at random from a rectangle.
pub trait Samplable: Sized {
    /// Whether the value lies in `domain`.
    spec fn lies_in(self, domain: Domain) -> bool;

    /// A value drawn from `domain`, its edges included.
    fn random_from_domain(domain: &Domain) -> (sample: Self)
        requires
            domain.left <= domain.right,
            domain.bottom <= domain.top,
        ensures
            sample.lies_in(*domain),
    ;
}

impl Samplable for Point {
    open spec fn lies_in(self, domain: Domain) -> bool {
        domain.spec_contains(self)
    }

    fn random_from_domain(domain: &Domain) -> (sample: Point) {
        let dx: u64 = uniform_between(0, domain.w() as u64);
        let dy: u64 = uniform_between(0, domain.h() as u64);
        Point {
            x: (domain.left as i64 + dx as i64) as i32,
            y: (domain.bottom as i64 + dy as i64) as i32,
        }
    }
}

} // verus!
