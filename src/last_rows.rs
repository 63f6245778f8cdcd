//! The title index over a whole page dump: exactly the titles of the
//! main-namespace rows, each with the id of the last row that names it.
use vstd::prelude::*;
use crate::dump::{DecodedLine, decoded_line, tuple_at};
use crate::fold::fold_tuples;
use crate::pages::{MAIN_NAMESPACE, PAGE_PREFIX, PAGE_WIDTH, page_step, page_stepper, titles_of};
use crate::text::{marked_u32, nfc_of};

verus! {

/// The `j`-th row of line `i` of the page dump, where there is one.
pub open spec fn page_row(lines: Seq<Seq<char>>, i: int, j: int) -> Option<Seq<Seq<char>>> {
    if 0 <= i < lines.len() {
        match decoded_line(lines[i], PAGE_PREFIX@, PAGE_WIDTH as nat) {
            DecodedLine::Tuples(f) => if 0 <= j < f.len() / (PAGE_WIDTH as nat) {
                Some(tuple_at(f, PAGE_WIDTH as nat, j))
            } else {
                None
            },
            _ => None,
        }
    } else {
        None
    }
}

/// A main-namespace page row whose title is `k` once normalized.
pub open spec fn names(t: Seq<Seq<char>>, k: Seq<char>) -> bool {
    t[1] == MAIN_NAMESPACE@ && nfc_of(t[2]) == k
}

/// Some row of the page dump names `k`.
pub open spec fn named_in_dump(lines: Seq<Seq<char>>, k: Seq<char>) -> bool {
    exists|i: int, j: int| #[trigger] page_row(lines, i, j) is Some && names(page_row(lines, i, j)->Some_0, k)
}

/// Row `(i, j)` names `k` with id `id`, and no later row names `k`.
pub open spec fn last_row_for(lines: Seq<Seq<char>>, k: Seq<char>, id: u32, i: int, j: int) -> bool {
    &&& page_row(lines, i, j) is Some
    &&& names(page_row(lines, i, j)->Some_0, k)
    &&& marked_u32(page_row(lines, i, j)->Some_0[0]) == Some(id)
    &&& forall|i2: int, j2: int|
        #[trigger] page_row(lines, i2, j2) is Some && names(page_row(lines, i2, j2)->Some_0, k) ==> i2 < i
            || (i2 == i && j2 <= j)
}

pub open spec fn named_in_rows(f: Seq<Seq<char>>, n: nat, k: Seq<char>) -> bool {
    exists|j: int| 0 <= j < n && names(#[trigger] tuple_at(f, PAGE_WIDTH as nat, j), k)
}

proof fn lemma_rows_last(m: Map<Seq<char>, u32>, f: Seq<Seq<char>>, n: nat)
    requires
        fold_tuples(m, f, PAGE_WIDTH as nat, n, page_stepper()) is Some,
    ensures
        ({
            let m2 = fold_tuples(m, f, PAGE_WIDTH as nat, n, page_stepper())->Some_0;
            &&& forall|k: Seq<char>| m2.contains_key(k) <==> m.contains_key(k) || named_in_rows(f, n, k)
            &&& forall|k: Seq<char>|
                #[trigger] named_in_rows(f, n, k) ==> exists|j: int|
                    0 <= j < n && names(#[trigger] tuple_at(f, PAGE_WIDTH as nat, j), k) && marked_u32(
                        tuple_at(f, PAGE_WIDTH as nat, j)[0],
                    ) == Some(m2[k]) && forall|j2: int|
                        0 <= j2 < n && names(#[trigger] tuple_at(f, PAGE_WIDTH as nat, j2), k) ==> j2 <= j
            &&& forall|k: Seq<char>| !named_in_rows(f, n, k) && m.contains_key(k) ==> m2[k] == m[k]
        }),
    decreases n,
{
    let w = PAGE_WIDTH as nat;
    if n > 0 {
        let p = (n - 1) as nat;
        lemma_rows_last(m, f, p);
        let m1 = fold_tuples(m, f, w, p, page_stepper())->Some_0;
        let m2 = fold_tuples(m, f, w, n, page_stepper())->Some_0;
        let t = tuple_at(f, w, p as int);
        assert(m2 == page_step(m1, t)->Some_0);
        assert forall|k: Seq<char>| named_in_rows(f, n, k) <==> named_in_rows(f, p, k) || names(t, k) by {
            if named_in_rows(f, n, k) {
                let j = choose|j: int| 0 <= j < n && names(#[trigger] tuple_at(f, w, j), k);
                if j < p {
                    assert(named_in_rows(f, p, k));
                }
            }
            if named_in_rows(f, p, k) {
                let j = choose|j: int| 0 <= j < p && names(#[trigger] tuple_at(f, w, j), k);
                assert(named_in_rows(f, n, k));
            }
        }
        assert forall|k: Seq<char>| #[trigger] named_in_rows(f, n, k) implies exists|j: int|
            0 <= j < n && names(#[trigger] tuple_at(f, w, j), k) && marked_u32(tuple_at(f, w, j)[0])
                == Some(m2[k]) && forall|j2: int|
                0 <= j2 < n && names(#[trigger] tuple_at(f, w, j2), k) ==> j2 <= j by {
            if names(t, k) {
                assert(m2 == m1.insert(k, marked_u32(t[0])->Some_0));
                assert(names(tuple_at(f, w, p as int), k));
            } else {
                assert(named_in_rows(f, p, k));
                let j = choose|j: int|
                    0 <= j < p && names(#[trigger] tuple_at(f, w, j), k) && marked_u32(tuple_at(f, w, j)[0])
                        == Some(m1[k]) && forall|j2: int|
                        0 <= j2 < p && names(#[trigger] tuple_at(f, w, j2), k) ==> j2 <= j;
                assert(m2[k] == m1[k]);
                assert(names(tuple_at(f, w, j), k));
            }
        }
    }
}

/// The title index of a page dump holds exactly the normalized titles of its
/// main-namespace rows; each title maps to the id of the last row, in dump
/// order, that names it.
pub proof fn lemma_titles_from_last_rows(lines: Seq<Seq<char>>)
    requires
        titles_of(lines) is Ok,
    ensures
        forall|k: Seq<char>| titles_of(lines)->Ok_0.contains_key(k) <==> named_in_dump(lines, k),
        forall|k: Seq<char>|
            #[trigger] titles_of(lines)->Ok_0.contains_key(k) ==> exists|i: int, j: int|
                last_row_for(lines, k, titles_of(lines)->Ok_0[k], i, j),
    decreases lines.len(),
{
    let w = PAGE_WIDTH as nat;
    let titles = titles_of(lines)->Ok_0;
    if lines.len() == 0 {
        assert forall|k: Seq<char>| !named_in_dump(lines, k) by {
            if named_in_dump(lines, k) {
                let (i, j) = choose|i: int, j: int|
                    #[trigger] page_row(lines, i, j) is Some && names(page_row(lines, i, j)->Some_0, k);
            }
        }
    } else {
        let l = lines.drop_last();
        let last = (lines.len() - 1) as int;
        lemma_titles_from_last_rows(l);
        let m1 = titles_of(l)->Ok_0;
        let tuples = decoded_line(lines[last], PAGE_PREFIX@, w);
        let n: nat = match tuples {
            DecodedLine::Tuples(f) => f.len() / w,
            _ => 0,
        };
        let f: Seq<Seq<char>> = match tuples {
            DecodedLine::Tuples(f) => f,
            _ => Seq::empty(),
        };
        assert(lines.last() == lines[last]);
        if tuples is Tuples {
            lemma_rows_last(m1, f, n);
            assert(titles == fold_tuples(m1, f, w, n, page_stepper())->Some_0);
        } else {
            assert(titles == m1);
            assert forall|k: Seq<char>| !named_in_rows(f, n, k) by {}
        }
        assert forall|i: int, j: int| #[trigger] page_row(lines, i, j) is Some && i != last implies page_row(l, i, j)
            == page_row(lines, i, j) by {
            assert(l[i] == lines[i]);
        }
        assert forall|i: int, j: int| #[trigger] page_row(l, i, j) is Some implies page_row(lines, i, j)
            == page_row(l, i, j) by {
            assert(l[i] == lines[i]);
        }
        assert forall|j: int| 0 <= j < n implies #[trigger] page_row(lines, last, j) == Some(tuple_at(f, w, j)) by {}
        assert forall|i: int, j: int| #[trigger] page_row(lines, i, j) is Some && i == last implies 0 <= j < n
            && page_row(lines, i, j) == Some(tuple_at(f, w, j)) by {}
        assert forall|k: Seq<char>| named_in_dump(lines, k) <==> named_in_dump(l, k) || named_in_rows(f, n, k) by {
            if named_in_dump(lines, k) {
                let (i, j) = choose|i: int, j: int|
                    #[trigger] page_row(lines, i, j) is Some && names(page_row(lines, i, j)->Some_0, k);
                if i == last {
                    assert(names(tuple_at(f, w, j), k));
                } else {
                    assert(page_row(l, i, j) is Some);
                }
            }
            if named_in_dump(l, k) {
                let (i, j) = choose|i: int, j: int|
                    #[trigger] page_row(l, i, j) is Some && names(page_row(l, i, j)->Some_0, k);
                assert(page_row(lines, i, j) is Some);
            }
            if named_in_rows(f, n, k) {
                let j = choose|j: int| 0 <= j < n && names(#[trigger] tuple_at(f, w, j), k);
                assert(page_row(lines, last, j) is Some);
            }
        }
        assert forall|k: Seq<char>| #[trigger] titles.contains_key(k) implies exists|i: int, j: int|
            last_row_for(lines, k, titles[k], i, j) by {
            if named_in_rows(f, n, k) {
                let j = choose|j: int|
                    0 <= j < n && names(#[trigger] tuple_at(f, w, j), k) && marked_u32(tuple_at(f, w, j)[0])
                        == Some(titles[k]) && forall|j2: int|
                        0 <= j2 < n && names(#[trigger] tuple_at(f, w, j2), k) ==> j2 <= j;
                assert(page_row(lines, last, j) == Some(tuple_at(f, w, j)));
                assert forall|i2: int, j2: int|
                    #[trigger] page_row(lines, i2, j2) is Some && names(page_row(lines, i2, j2)->Some_0, k)
                        implies i2 < last || (i2 == last && j2 <= j) by {
                    if i2 == last {
                        assert(names(tuple_at(f, w, j2), k));
                    }
                }
                assert(last_row_for(lines, k, titles[k], last, j));
            } else {
                assert(m1.contains_key(k));
                assert(titles[k] == m1[k]);
                let (i, j) = choose|i: int, j: int| last_row_for(l, k, m1[k], i, j);
                assert(page_row(lines, i, j) == page_row(l, i, j));
                assert forall|i2: int, j2: int|
                    #[trigger] page_row(lines, i2, j2) is Some && names(page_row(lines, i2, j2)->Some_0, k)
                        implies i2 < i || (i2 == i && j2 <= j) by {
                    if i2 == last {
                        assert(names(tuple_at(f, w, j2), k));
                        assert(named_in_rows(f, n, k));
                    } else {
                        assert(page_row(l, i2, j2) is Some);
                    }
                }
                assert(last_row_for(lines, k, titles[k], i, j));
            }
        }
    }
}

} // verus!
