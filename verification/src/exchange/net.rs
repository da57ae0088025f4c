//! Which subscription of a venue is the present one.

use crate::text::same;
use vstd::prelude::*;

verus! {

/// A new subscription makes the loops of the earlier ones stop.
#[derive(Debug)]
pub struct FeedGuard {
    generation: u64,
    fingerprint: String,
}

/// The present subscription: its number and what it is for.
pub struct FeedModel {
    pub generation: int,
    pub fingerprint: Seq<char>,
}

impl View for FeedGuard {
    type V = FeedModel;

    closed spec fn view(&self) -> FeedModel {
        FeedModel { generation: self.generation as int, fingerprint: self.fingerprint@ }
    }
}

/// What a subscription for `fp` makes of the guard.
pub open spec fn begun(m: FeedModel, fp: Seq<char>) -> FeedModel {
    if m.fingerprint == fp {
        m
    } else {
        FeedModel { generation: m.generation + 1, fingerprint: fp }
    }
}

impl FeedGuard {
    pub fn new() -> (r: FeedGuard)
        ensures
            r@.generation == 0,
            r@.fingerprint == ""@,
    {
        FeedGuard { generation: 0, fingerprint: "".to_owned() }
    }

    pub fn generation(&self) -> (r: u64)
        ensures
            r == self@.generation,
    {
        self.generation
    }

    /// The number of the new subscription, or nothing where the markets are those
    /// that are subscribed.
    pub fn begin(&mut self, fingerprint: &str) -> (r: Option<u64>)
        requires
            old(self)@.generation < u64::MAX,
        ensures
            final(self)@ == begun(old(self)@, fingerprint@),
            match r {
                Some(g) => old(self)@.fingerprint != fingerprint@ && g == final(self)@.generation,
                None => old(self)@.fingerprint == fingerprint@,
            },
    {
        if same(self.fingerprint.as_str(), fingerprint) {
            return None;
        }
        self.fingerprint = fingerprint.to_owned();
        self.generation = self.generation + 1;
        Some(self.generation)
    }

    /// The loop of subscription `generation` has to stop.
    pub fn is_over(&self, generation: u64) -> (r: bool)
        ensures
            r == (self@.generation != generation),
    {
        self.generation != generation
    }
}

impl Default for FeedGuard {
    fn default() -> (r: FeedGuard)
        ensures
            r@.generation == 0,
            r@.fingerprint == ""@,
    {
        FeedGuard::new()
    }
}

/// Asking twice for the same markets starts one loop.
pub proof fn law_same_markets_start_nothing(m: FeedModel, fp: Seq<char>)
    ensures
        begun(begun(m, fp), fp) == begun(m, fp),
{
}

/// Asking for other markets ends the loop that ran.
pub proof fn law_new_markets_end_the_loop(m: FeedModel, fp: Seq<char>)
    requires
        m.fingerprint != fp,
    ensures
        begun(m, fp).generation != m.generation,
        begun(m, fp).fingerprint == fp,
{
}

} // verus!
