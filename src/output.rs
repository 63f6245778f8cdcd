//! The joined table: one record per title of the title index, with the
//! knowledge-base id of its page where there is one.
use vstd::prelude::*;
use std::collections::BTreeMap;
use crate::index::TitleIndex;

verus! {

/// One row of the output table.
pub struct PageRecord {
    pub title: String,
    pub pageid: u32,
    pub qid: Option<u32>,
}

/// The knowledge-base id that `qids` gives a page, if any.
pub open spec fn qid_for(qids: Map<u32, u32>, pageid: u32) -> Option<u32> {
    if qids.contains_key(pageid) {
        Some(qids[pageid])
    } else {
        None
    }
}

/// `records` hold each title of `titles` exactly once, with its page id and
/// the knowledge-base id that `qids` gives that page.
pub open spec fn joins(records: Seq<PageRecord>, titles: Map<Seq<char>, u32>, qids: Map<u32, u32>) -> bool {
    &&& forall|i: int, j: int|
        0 <= i < j < records.len() ==> #[trigger] records[i].title@ != #[trigger] records[j].title@
    &&& forall|i: int|
        0 <= i < records.len() ==> {
            &&& titles.contains_key(#[trigger] records[i].title@)
            &&& titles[records[i].title@] == records[i].pageid
            &&& records[i].qid == qid_for(qids, records[i].pageid)
        }
    &&& forall|k: Seq<char>|
        titles.contains_key(k) ==> exists|i: int| 0 <= i < records.len() && #[trigger] records[i].title@ == k
}

/// One record per title of `titles`, in the index's own order.
pub fn join_records(titles: &TitleIndex, qids: &BTreeMap<u32, u32>) -> (r: Vec<PageRecord>)
    ensures
        joins(r@, titles@, qids@),
{
    broadcast use vstd::laws_cmp::group_laws_cmp;
    broadcast use vstd::std_specs::btree::group_btree_axioms;

    let entries = titles.entries();
    let mut records: Vec<PageRecord> = Vec::new();
    let mut i: usize = 0;
    while i < entries.len()
        invariant
            i <= entries.len(),
            records.len() == i,
            forall|j: int|
                0 <= j < i ==> {
                    &&& #[trigger] records@[j].title@ == entries@[j].0@
                    &&& records@[j].pageid == entries@[j].1
                    &&& records@[j].qid == qid_for(qids@, entries@[j].1)
                },
        decreases entries.len() - i,
    {
        let pageid = entries[i].1;
        let qid = match qids.get(&pageid) {
            Some(q) => Some(*q),
            None => None,
        };
        records.push(PageRecord { title: entries[i].0.clone(), pageid, qid });
        i += 1;
    }
    proof {
        assert forall|k: Seq<char>| titles@.contains_key(k) implies exists|j: int|
            0 <= j < records.len() && #[trigger] records@[j].title@ == k by {
            let j = choose|j: int| 0 <= j < entries.len() && #[trigger] entries@[j].0@ == k;
            assert(records@[j].title@ == k);
        }
        assert forall|a: int, b: int| 0 <= a < b < records.len() implies #[trigger] records@[a].title@
            != #[trigger] records@[b].title@ by {
            assert(records@[a].title@ == entries@[a].0@);
            assert(records@[b].title@ == entries@[b].0@);
        }
        assert forall|a: int| 0 <= a < records.len() implies titles@.contains_key(
            #[trigger] records@[a].title@,
        ) by {
            assert(records@[a].title@ == entries@[a].0@);
        }
    }
    records
}

/// The output format's 32-bit signed `int` for an id: the same 32 bits read
/// in two's complement, so ids above `i32::MAX` come out negative.
pub fn avro_int(x: u32) -> (r: i32)
    ensures
        r as int == if x <= i32::MAX {
            x as int
        } else {
            x as int - 0x1_0000_0000
        },
{
    if x <= 2147483647 {
        x as i32
    } else {
        (x - 2147483648) as i32 - 2147483647 - 1
    }
}

} // verus!
