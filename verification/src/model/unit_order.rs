//! How times and distances compare: each by the whole number it holds.
use vstd::prelude::*;
use vstd::std_specs::cmp::PartialOrdSpecImpl;
use vstd::std_specs::cmp::PartialOrdIs;
use std::cmp::Ordering;
use crate::model::units::{Distance, DistanceSpan, Time, TimeSpan};

verus! {

/// How the count `a` compares with the count `b`.
pub open spec fn order_of_counts(a: u64, b: u64) -> Option<Ordering> {
    if a < b {
        Some(Ordering::Less)
    } else if a == b {
        Some(Ordering::Equal)
    } else {
        Some(Ordering::Greater)
    }
}

/// How the signed count `a` compares with the signed count `b`.
pub open spec fn order_of_signed(a: i64, b: i64) -> Option<Ordering> {
    if a < b {
        Some(Ordering::Less)
    } else if a == b {
        Some(Ordering::Equal)
    } else {
        Some(Ordering::Greater)
    }
}

fn order_u64(a: u64, b: u64) -> (r: Option<Ordering>)
    ensures
        r == order_of_counts(a, b),
{
    if a < b {
        Some(Ordering::Less)
    } else if a == b {
        Some(Ordering::Equal)
    } else {
        Some(Ordering::Greater)
    }
}

fn order_i64(a: i64, b: i64) -> (r: Option<Ordering>)
    ensures
        r == order_of_signed(a, b),
{
    if a < b {
        Some(Ordering::Less)
    } else if a == b {
        Some(Ordering::Equal)
    } else {
        Some(Ordering::Greater)
    }
}

impl PartialOrd for Time {
    fn partial_cmp(&self, other: &Self) -> (r: Option<Ordering>) {
        order_u64(self.as_nanoseconds(), other.as_nanoseconds())
    }
}

impl PartialOrdSpecImpl for Time {
    open spec fn obeys_partial_cmp_spec() -> bool {
        true
    }

    open spec fn partial_cmp_spec(&self, other: &Self) -> Option<Ordering> {
        order_of_counts(self.spec_nanoseconds(), other.spec_nanoseconds())
    }
}

impl PartialOrd for TimeSpan {
    fn partial_cmp(&self, other: &Self) -> (r: Option<Ordering>) {
        order_u64(self.as_nanoseconds(), other.as_nanoseconds())
    }
}

impl PartialOrdSpecImpl for TimeSpan {
    open spec fn obeys_partial_cmp_spec() -> bool {
        true
    }

    open spec fn partial_cmp_spec(&self, other: &Self) -> Option<Ordering> {
        order_of_counts(self.spec_nanoseconds(), other.spec_nanoseconds())
    }
}

impl PartialOrd for Distance {
    fn partial_cmp(&self, other: &Self) -> (r: Option<Ordering>) {
        order_i64(self.as_micrometers(), other.as_micrometers())
    }
}

impl PartialOrdSpecImpl for Distance {
    open spec fn obeys_partial_cmp_spec() -> bool {
        true
    }

    open spec fn partial_cmp_spec(&self, other: &Self) -> Option<Ordering> {
        order_of_signed(self.spec_micrometers(), other.spec_micrometers())
    }
}

impl PartialOrd for DistanceSpan {
    fn partial_cmp(&self, other: &Self) -> (r: Option<Ordering>) {
        order_u64(self.as_micrometers(), other.as_micrometers())
    }
}

impl PartialOrdSpecImpl for DistanceSpan {
    open spec fn obeys_partial_cmp_spec() -> bool {
        true
    }

    open spec fn partial_cmp_spec(&self, other: &Self) -> Option<Ordering> {
        order_of_counts(self.spec_micrometers(), other.spec_micrometers())
    }
}

/// Two times compare as their nanosecond counts do.
pub proof fn lemma_time_order(a: Time, b: Time)
    ensures
        a.is_le(&b) <==> a.spec_nanoseconds() <= b.spec_nanoseconds(),
        a.is_lt(&b) <==> a.spec_nanoseconds() < b.spec_nanoseconds(),
{
}

/// Two durations compare as their nanosecond counts do.
pub proof fn lemma_time_span_order(a: TimeSpan, b: TimeSpan)
    ensures
        a.is_le(&b) <==> a.spec_nanoseconds() <= b.spec_nanoseconds(),
        a.is_lt(&b) <==> a.spec_nanoseconds() < b.spec_nanoseconds(),
{
}

/// Two distances compare as their micrometer counts do.
pub proof fn lemma_distance_order(a: Distance, b: Distance)
    ensures
        a.is_le(&b) <==> a.spec_micrometers() <= b.spec_micrometers(),
        a.is_lt(&b) <==> a.spec_micrometers() < b.spec_micrometers(),
{
}

/// Two distance spans compare as their micrometer counts do.
pub proof fn lemma_distance_span_order(a: DistanceSpan, b: DistanceSpan)
    ensures
        a.is_le(&b) <==> a.spec_micrometers() <= b.spec_micrometers(),
        a.is_lt(&b) <==> a.spec_micrometers() < b.spec_micrometers(),
{
}

} // verus!
