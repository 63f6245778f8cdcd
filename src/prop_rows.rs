//! The knowledge-base ids of a whole property dump: exactly the pages that
//! some knowledge-base property row names.
use vstd::prelude::*;
use crate::dump::{DecodedLine, decoded_line, tuple_at};
use crate::fold::fold_tuples;
use crate::props::{KB_PROPERTY, PROPS_PREFIX, PROPS_WIDTH, prop_step, prop_stepper, qids_of};
use crate::text::marked_u32;

verus! {

/// The `j`-th row of line `i` of the property dump, where there is one.
pub open spec fn prop_row(lines: Seq<Seq<char>>, i: int, j: int) -> Option<Seq<Seq<char>>> {
    if 0 <= i < lines.len() {
        match decoded_line(lines[i], PROPS_PREFIX@, PROPS_WIDTH as nat) {
            DecodedLine::Tuples(f) => if 0 <= j < f.len() / (PROPS_WIDTH as nat) {
                Some(tuple_at(f, PROPS_WIDTH as nat, j))
            } else {
                None
            },
            _ => None,
        }
    } else {
        None
    }
}

/// A knowledge-base property row of page `id`.
pub open spec fn maps_page(t: Seq<Seq<char>>, id: u32) -> bool {
    t[1] == KB_PROPERTY@ && marked_u32(t[0]) == Some(id)
}

/// Some row of the property dump gives page `id` a knowledge-base id.
pub open spec fn mapped_in_dump(lines: Seq<Seq<char>>, id: u32) -> bool {
    exists|i: int, j: int| #[trigger] prop_row(lines, i, j) is Some && maps_page(prop_row(lines, i, j)->Some_0, id)
}

pub open spec fn mapped_in_rows(f: Seq<Seq<char>>, n: nat, id: u32) -> bool {
    exists|j: int| 0 <= j < n && maps_page(#[trigger] tuple_at(f, PROPS_WIDTH as nat, j), id)
}

proof fn lemma_prop_rows_keys(m: Map<u32, u32>, f: Seq<Seq<char>>, n: nat)
    requires
        fold_tuples(m, f, PROPS_WIDTH as nat, n, prop_stepper()) is Some,
    ensures
        forall|id: u32|
            fold_tuples(m, f, PROPS_WIDTH as nat, n, prop_stepper())->Some_0.contains_key(id) <==> m.contains_key(
                id,
            ) || mapped_in_rows(f, n, id),
    decreases n,
{
    let w = PROPS_WIDTH as nat;
    if n > 0 {
        let p = (n - 1) as nat;
        lemma_prop_rows_keys(m, f, p);
        let m1 = fold_tuples(m, f, w, p, prop_stepper())->Some_0;
        let m2 = fold_tuples(m, f, w, n, prop_stepper())->Some_0;
        let t = tuple_at(f, w, p as int);
        assert(m2 == prop_step(m1, t)->Some_0);
        if t[1] == KB_PROPERTY@ {
            assert(m2 == m1.insert(marked_u32(t[0])->Some_0, marked_u32(t[2])->Some_0));
        } else {
            assert(m2 == m1);
        }
        assert forall|id: u32| mapped_in_rows(f, n, id) <==> mapped_in_rows(f, p, id) || maps_page(t, id) by {
            if mapped_in_rows(f, n, id) {
                let j = choose|j: int| 0 <= j < n && maps_page(#[trigger] tuple_at(f, w, j), id);
                if j < p {
                    assert(mapped_in_rows(f, p, id));
                }
            }
            if mapped_in_rows(f, p, id) {
                let j = choose|j: int| 0 <= j < p && maps_page(#[trigger] tuple_at(f, w, j), id);
                assert(mapped_in_rows(f, n, id));
            }
        }
        assert forall|id: u32| m2.contains_key(id) <==> m.contains_key(id) || mapped_in_rows(f, n, id) by {
            assert(m1.contains_key(id) <==> m.contains_key(id) || mapped_in_rows(f, p, id));
            if maps_page(t, id) {
                assert(m2.contains_key(id));
            }
        }
    }
}

/// A page has a knowledge-base id after the property dump if and only if
/// some row of the dump gives it one through the knowledge-base property.
pub proof fn lemma_qids_from_rows(lines: Seq<Seq<char>>)
    requires
        qids_of(lines) is Ok,
    ensures
        forall|id: u32| #[trigger] qids_of(lines)->Ok_0.contains_key(id) <==> mapped_in_dump(lines, id),
    decreases lines.len(),
{
    let w = PROPS_WIDTH as nat;
    let qids = qids_of(lines)->Ok_0;
    if lines.len() == 0 {
        assert forall|id: u32| !mapped_in_dump(lines, id) by {
            if mapped_in_dump(lines, id) {
                let (i, j) = choose|i: int, j: int|
                    #[trigger] prop_row(lines, i, j) is Some && maps_page(prop_row(lines, i, j)->Some_0, id);
            }
        }
    } else {
        let l = lines.drop_last();
        let last = (lines.len() - 1) as int;
        lemma_qids_from_rows(l);
        let m1 = qids_of(l)->Ok_0;
        let tuples = decoded_line(lines[last], PROPS_PREFIX@, w);
        let n: nat = match tuples {
            DecodedLine::Tuples(f) => f.len() / w,
            _ => 0,
        };
        let f: Seq<Seq<char>> = match tuples {
            DecodedLine::Tuples(f) => f,
            _ => Seq::empty(),
        };
        assert(lines.last() == lines[last]);
        if tuples is Tuples {
            lemma_prop_rows_keys(m1, f, n);
            assert(qids == fold_tuples(m1, f, w, n, prop_stepper())->Some_0);
        } else {
            assert(qids == m1);
            assert forall|id: u32| !mapped_in_rows(f, n, id) by {}
        }
        assert forall|id: u32| #[trigger] qids.contains_key(id) <==> mapped_in_dump(lines, id) by {
            assert(qids.contains_key(id) <==> m1.contains_key(id) || mapped_in_rows(f, n, id));
            assert(m1.contains_key(id) <==> mapped_in_dump(l, id));
            if mapped_in_dump(lines, id) {
                let (i, j) = choose|i: int, j: int|
                    #[trigger] prop_row(lines, i, j) is Some && maps_page(prop_row(lines, i, j)->Some_0, id);
                if i == last {
                    assert(maps_page(tuple_at(f, w, j), id));
                    assert(mapped_in_rows(f, n, id));
                } else {
                    assert(l[i] == lines[i]);
                    assert(prop_row(l, i, j) == prop_row(lines, i, j));
                    assert(mapped_in_dump(l, id));
                }
            }
            if mapped_in_dump(l, id) {
                let (i, j) = choose|i: int, j: int|
                    #[trigger] prop_row(l, i, j) is Some && maps_page(prop_row(l, i, j)->Some_0, id);
                assert(l[i] == lines[i]);
                assert(prop_row(lines, i, j) == prop_row(l, i, j));
            }
            if mapped_in_rows(f, n, id) {
                let j = choose|j: int| 0 <= j < n && maps_page(#[trigger] tuple_at(f, w, j), id);
                assert(prop_row(lines, last, j) == Some(tuple_at(f, w, j)));
            }
        }
    }
}

} // verus!
