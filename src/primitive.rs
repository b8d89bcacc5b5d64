//! The portable backend on its own: one lane at a time, in the host's byte order.
use vstd::prelude::*;
use crate::data_types::ByteOrder;
use crate::lanes::{as_offset, first_match, Query};
use crate::scan::Backend;
use crate::search::LaneValue;

verus! {

/// Searches that always use the one-lane-at-a-time backend.
pub struct Needle {}

impl Needle {
    /// The first aligned offset whose lane equals `needle`.
    pub fn find_next<T: LaneValue>(needle: T, haystack: &[u8]) -> (r: Option<usize>)
        ensures
            exists|o: ByteOrder| as_offset(r) == #[trigger] first_match(T::lane_type(), o, Query::Equal(needle.lane_bits()), haystack@),
    {
        let order = ByteOrder::native();
        let r = Backend::Scalar.find(T::data_type(), order, Query::Equal(needle.bits()), haystack);
        assert(as_offset(r) == first_match(T::lane_type(), order, Query::Equal(needle.lane_bits()), haystack@));
        r
    }

    /// The first aligned offset whose lane lies in `[lower, upper]`.
    pub fn find_inclusive_range<T: LaneValue>(lower: T, upper: T, haystack: &[u8]) -> (r: Option<usize>)
        ensures
            exists|o: ByteOrder| as_offset(r) == #[trigger] first_match(
                T::lane_type(),
                o,
                Query::Inclusive(lower.lane_bits(), upper.lane_bits()),
                haystack@,
            ),
    {
        let order = ByteOrder::native();
        let q = Query::Inclusive(lower.bits(), upper.bits());
        let r = Backend::Scalar.find(T::data_type(), order, q, haystack);
        assert(as_offset(r) == first_match(T::lane_type(), order, q, haystack@));
        r
    }

    /// The first aligned offset whose lane lies in `(lower, upper)`.
    pub fn find_exclusive_range<T: LaneValue>(lower: T, upper: T, haystack: &[u8]) -> (r: Option<usize>)
        ensures
            exists|o: ByteOrder| as_offset(r) == #[trigger] first_match(
                T::lane_type(),
                o,
                Query::Exclusive(lower.lane_bits(), upper.lane_bits()),
                haystack@,
            ),
    {
        let order = ByteOrder::native();
        let q = Query::Exclusive(lower.bits(), upper.bits());
        let r = Backend::Scalar.find(T::data_type(), order, q, haystack);
        assert(as_offset(r) == first_match(T::lane_type(), order, q, haystack@));
        r
    }
}

} // verus!
