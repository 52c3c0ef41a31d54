use vstd::prelude::*;

use crate::error::GeometryError;

verus! {

/// The track distance between two adjacent stations, in either direction.
pub struct DistanceRecord {
    pub from: String,
    pub to: String,
    pub distance: u32,
}

impl DistanceRecord {
    /// The record joins `a` and `b`, whichever way round it was written.
    pub open spec fn joins(&self, a: Seq<char>, b: Seq<char>) -> bool {
        (self.from@ == a && self.to@ == b) || (self.from@ == b && self.to@ == a)
    }

    pub fn connects(&self, a: &String, b: &String) -> (r: bool)
        ensures
            r == self.joins(a@, b@),
    {
        (self.from == *a && self.to == *b) || (self.from == *b && self.to == *a)
    }
}

/// The distance of the first record that joins `a` and `b`, if any does.
pub open spec fn find_leg(records: Seq<DistanceRecord>, a: Seq<char>, b: Seq<char>) -> Option<u32>
    decreases records.len(),
{
    if records.len() == 0 {
        None
    } else {
        match find_leg(records.drop_last(), a, b) {
            Some(d) => Some(d),
            None => if records.last().joins(a, b) {
                Some(records.last().distance)
            } else {
                None
            },
        }
    }
}

/// A match found in a prefix is the match of the whole table.
pub proof fn lemma_find_leg_prefix(records: Seq<DistanceRecord>, a: Seq<char>, b: Seq<char>, k: int)
    requires
        0 <= k <= records.len(),
        find_leg(records.subrange(0, k), a, b) is Some,
    ensures
        find_leg(records, a, b) == find_leg(records.subrange(0, k), a, b),
    decreases records.len(),
{
    if k == records.len() {
        assert(records.subrange(0, k) =~= records);
    } else {
        assert(records.drop_last().subrange(0, k) =~= records.subrange(0, k));
        lemma_find_leg_prefix(records.drop_last(), a, b, k);
    }
}

/// No record in the table joins `a` and `b` exactly when the lookup finds none.
proof fn lemma_find_leg_none(records: Seq<DistanceRecord>, a: Seq<char>, b: Seq<char>)
    ensures
        find_leg(records, a, b) is None <==> forall|j: int|
            0 <= j < records.len() ==> !(#[trigger] records[j]).joins(a, b),
    decreases records.len(),
{
    if records.len() > 0 {
        lemma_find_leg_none(records.drop_last(), a, b);
        assert forall|j: int| 0 <= j < records.len() - 1 implies records.drop_last()[j]
            == records[j] by {}
        if find_leg(records, a, b) is None {
            assert forall|j: int| 0 <= j < records.len() implies !(
            #[trigger] records[j]).joins(a, b) by {
                if j < records.len() - 1 {
                    assert(records.drop_last()[j] == records[j]);
                }
            }
        }
    }
}

/// The known distances between adjacent stations, looked up by unordered pair.
/// Where two records join the same pair, the first one counts.
pub struct DistanceIndex {
    pub records: Vec<DistanceRecord>,
}

impl DistanceIndex {
    pub fn new(records: Vec<DistanceRecord>) -> (r: DistanceIndex)
        ensures
            r.records@ == records@,
    {
        DistanceIndex { records }
    }

    /// The recorded distance between `a` and `b`, if a record joins them.
    pub open spec fn leg(&self, a: Seq<char>, b: Seq<char>) -> Option<u32> {
        find_leg(self.records@, a, b)
    }

    /// The distance between `a` and `b`; the order of the two does not matter.
    pub fn lookup(&self, a: &String, b: &String) -> (r: Result<u32, GeometryError>)
        ensures
            self.leg(a@, b@) matches Some(d) ==> r == Ok::<u32, GeometryError>(d),
            self.leg(a@, b@) is None ==> (r matches Err(
                GeometryError::MissingDistance { from, to },
            ) && from@ == a@ && to@ == b@),
            r is Err <==> forall|j: int|
                0 <= j < self.records.len() ==> !(#[trigger] self.records@[j]).joins(a@, b@),
    {
        proof {
            lemma_find_leg_none(self.records@, a@, b@);
        }
        let mut i: usize = 0;
        while i < self.records.len()
            invariant
                i <= self.records.len(),
                find_leg(self.records@.subrange(0, i as int), a@, b@) is None,
            decreases self.records.len() - i,
        {
            proof {
                assert(self.records@.subrange(0, i + 1).drop_last() =~= self.records@.subrange(
                    0,
                    i as int,
                ));
            }
            if self.records[i].connects(a, b) {
                proof {
                    lemma_find_leg_prefix(self.records@, a@, b@, i + 1);
                }
                return Ok(self.records[i].distance);
            }
            i += 1;
        }
        proof {
            assert(self.records@.subrange(0, i as int) =~= self.records@);
        }
        Err(GeometryError::MissingDistance { from: a.clone(), to: b.clone() })
    }
}

} // verus!
