//! What the redirect pass resolves: a page has a knowledge-base id afterwards
//! exactly when the property table maps it or it is the source of a followed
//! redirect to a page that the property table maps. Pages that no such
//! redirect leaves from keep the id they had.
use vstd::prelude::*;
use crate::dump::{DecodedLine, decoded_line, tuple_at};
use crate::fold::{fold_lines, fold_tuples};
use crate::redirects::{
    REDIRECT_PREFIX, REDIRECT_WIDTH, redirect_kept, redirect_step, redirect_stepper, redirect_target,
    resolved_of,
};
use crate::text::marked_u32;

verus! {

/// A redirect row that is followed, from page `src` to a title whose page id
/// in `titles` is `dst`.
pub open spec fn row_edge(
    t: Seq<Seq<char>>,
    titles: Map<Seq<char>, u32>,
    normalize: bool,
    src: u32,
    dst: u32,
) -> bool {
    &&& redirect_kept(t)
    &&& marked_u32(t[0]) == Some(src)
    &&& titles.contains_key(redirect_target(t, normalize))
    &&& titles[redirect_target(t, normalize)] == dst
}

/// The `j`-th row of line `i` of the redirect dump, where there is one.
pub open spec fn redirect_row(lines: Seq<Seq<char>>, i: int, j: int) -> Option<Seq<Seq<char>>> {
    if 0 <= i < lines.len() {
        match decoded_line(lines[i], REDIRECT_PREFIX@, REDIRECT_WIDTH as nat) {
            DecodedLine::Tuples(f) => if 0 <= j < f.len() / (REDIRECT_WIDTH as nat) {
                Some(tuple_at(f, REDIRECT_WIDTH as nat, j))
            } else {
                None
            },
            _ => None,
        }
    } else {
        None
    }
}

/// Some followed row of the redirect dump goes from `src` to page `dst`.
pub open spec fn redirect_edge(
    lines: Seq<Seq<char>>,
    titles: Map<Seq<char>, u32>,
    normalize: bool,
    src: u32,
    dst: u32,
) -> bool {
    exists|i: int, j: int|
        #[trigger] redirect_row(lines, i, j) is Some && row_edge(
            redirect_row(lines, i, j)->Some_0,
            titles,
            normalize,
            src,
            dst,
        )
}

/// Some followed row of the redirect dump goes from `src` to a page that
/// `base` maps.
pub open spec fn resolvable_from(
    lines: Seq<Seq<char>>,
    titles: Map<Seq<char>, u32>,
    normalize: bool,
    base: Map<u32, u32>,
    src: u32,
) -> bool {
    exists|d: u32| #[trigger] redirect_edge(lines, titles, normalize, src, d) && base.contains_key(d)
}

/// Some row among the first `n` of a statement is followed from `src` to a
/// page that `base` maps.
pub open spec fn resolvable_in_rows(
    f: Seq<Seq<char>>,
    n: nat,
    titles: Map<Seq<char>, u32>,
    normalize: bool,
    base: Map<u32, u32>,
    src: u32,
) -> bool {
    exists|j: int, d: u32|
        0 <= j < n && #[trigger] row_edge(tuple_at(f, REDIRECT_WIDTH as nat, j), titles, normalize, src, d)
            && base.contains_key(d)
}

proof fn lemma_tuples_resolution(
    titles: Map<Seq<char>, u32>,
    normalize: bool,
    base: Map<u32, u32>,
    m: Map<u32, u32>,
    f: Seq<Seq<char>>,
    n: nat,
)
    requires
        fold_tuples(m, f, REDIRECT_WIDTH as nat, n, redirect_stepper(titles, normalize, base)) is Some,
    ensures
        ({
            let m2 = fold_tuples(m, f, REDIRECT_WIDTH as nat, n, redirect_stepper(titles, normalize, base))->Some_0;
            &&& forall|k: u32| m.contains_key(k) ==> m2.contains_key(k)
            &&& forall|k: u32|
                #[trigger] resolvable_in_rows(f, n, titles, normalize, base, k) ==> m2.contains_key(k)
            &&& forall|k: u32|
                m2.contains_key(k) ==> m.contains_key(k) || resolvable_in_rows(f, n, titles, normalize, base, k)
            &&& forall|k: u32|
                !resolvable_in_rows(f, n, titles, normalize, base, k) && m.contains_key(k) ==> m2[k] == m[k]
        }),
    decreases n,
{
    let w = REDIRECT_WIDTH as nat;
    let step = redirect_stepper(titles, normalize, base);
    if n > 0 {
        let p = (n - 1) as nat;
        lemma_tuples_resolution(titles, normalize, base, m, f, p);
        let m1 = fold_tuples(m, f, w, p, step)->Some_0;
        let m2 = fold_tuples(m, f, w, n, step)->Some_0;
        let t = tuple_at(f, w, p as int);
        assert(m2 == redirect_step(titles, normalize, base, m1, t)->Some_0);
        let inserts = redirect_kept(t) && marked_u32(t[0]) is Some && titles.contains_key(
            redirect_target(t, normalize),
        ) && base.contains_key(titles[redirect_target(t, normalize)]);
        if inserts {
            let src = marked_u32(t[0])->Some_0;
            let d = titles[redirect_target(t, normalize)];
            assert(row_edge(tuple_at(f, w, p as int), titles, normalize, src, d));
            assert(resolvable_in_rows(f, n, titles, normalize, base, src));
            assert(m2 == m1.insert(src, base[d]));
        } else {
            assert(m2 == m1);
        }
        assert forall|k: u32| m.contains_key(k) implies m2.contains_key(k) by {
            assert(m1.contains_key(k));
        }
        assert forall|k: u32| #[trigger] resolvable_in_rows(f, n, titles, normalize, base, k) implies m2.contains_key(k) by {
            let (j, d) = choose|j: int, d: u32|
                0 <= j < n && #[trigger] row_edge(tuple_at(f, w, j), titles, normalize, k, d)
                    && base.contains_key(d);
            if j < p {
                assert(resolvable_in_rows(f, p, titles, normalize, base, k));
                assert(m1.contains_key(k));
            }
        }
        assert forall|k: u32| m2.contains_key(k) implies m.contains_key(k) || resolvable_in_rows(
            f,
            n,
            titles,
            normalize,
            base,
            k,
        ) by {
            if m1.contains_key(k) && !m.contains_key(k) {
                assert(resolvable_in_rows(f, p, titles, normalize, base, k));
                let (j, d) = choose|j: int, d: u32|
                    0 <= j < p && #[trigger] row_edge(tuple_at(f, w, j), titles, normalize, k, d)
                        && base.contains_key(d);
                assert(row_edge(tuple_at(f, w, j), titles, normalize, k, d));
            }
        }
        assert forall|k: u32|
            !resolvable_in_rows(f, n, titles, normalize, base, k) && m.contains_key(k) implies m2[k]
            == m[k] by {
            if resolvable_in_rows(f, p, titles, normalize, base, k) {
                let (j, d) = choose|j: int, d: u32|
                    0 <= j < p && #[trigger] row_edge(tuple_at(f, w, j), titles, normalize, k, d)
                        && base.contains_key(d);
                assert(row_edge(tuple_at(f, w, j), titles, normalize, k, d));
            }
        }
    }
}

/// Over the whole redirect dump, with the property table `qids`: a page has
/// a knowledge-base id afterwards if and only if `qids` maps it or it is the
/// source of a followed redirect to a page that `qids` maps; a page that no
/// such redirect leaves from keeps the id `qids` gives it.
pub proof fn lemma_resolution_bounds(
    qids: Map<u32, u32>,
    lines: Seq<Seq<char>>,
    titles: Map<Seq<char>, u32>,
    normalize: bool,
)
    requires
        resolved_of(qids, lines, titles, normalize) is Ok,
    ensures
        ({
            let resolved = resolved_of(qids, lines, titles, normalize)->Ok_0;
            &&& forall|k: u32|
                resolved.contains_key(k) <==> qids.contains_key(k) || resolvable_from(
                    lines,
                    titles,
                    normalize,
                    qids,
                    k,
                )
            &&& forall|k: u32|
                qids.contains_key(k) && !resolvable_from(lines, titles, normalize, qids, k)
                    ==> resolved[k] == qids[k]
        }),
    decreases lines.len(),
{
    let w = REDIRECT_WIDTH as nat;
    let step = redirect_stepper(titles, normalize, qids);
    let resolved = resolved_of(qids, lines, titles, normalize)->Ok_0;
    if lines.len() == 0 {
        assert forall|k: u32| !resolvable_from(lines, titles, normalize, qids, k) by {
            if resolvable_from(lines, titles, normalize, qids, k) {
                let d = choose|d: u32|
                    #[trigger] redirect_edge(lines, titles, normalize, k, d) && qids.contains_key(d);
                let (i, j) = choose|i: int, j: int|
                    #[trigger] redirect_row(lines, i, j) is Some && row_edge(
                        redirect_row(lines, i, j)->Some_0,
                        titles,
                        normalize,
                        k,
                        d,
                    );
            }
        }
    } else {
        let l = lines.drop_last();
        let last = (lines.len() - 1) as int;
        lemma_resolution_bounds(qids, l, titles, normalize);
        let m1 = resolved_of(qids, l, titles, normalize)->Ok_0;
        let tuples = decoded_line(lines[last], REDIRECT_PREFIX@, w);
        let n: nat = match tuples {
            DecodedLine::Tuples(f) => f.len() / w,
            _ => 0,
        };
        let f: Seq<Seq<char>> = match tuples {
            DecodedLine::Tuples(f) => f,
            _ => Seq::empty(),
        };
        assert(lines.last() == lines[last]);
        if tuples is Tuples {
            lemma_tuples_resolution(titles, normalize, qids, m1, f, n);
            assert(resolved == fold_tuples(m1, f, w, n, step)->Some_0);
        } else {
            assert(resolved == m1);
            assert forall|k: u32| !resolvable_in_rows(f, n, titles, normalize, qids, k) by {}
        }
        assert forall|i: int, j: int| #[trigger] redirect_row(l, i, j) is Some implies redirect_row(
            lines,
            i,
            j,
        ) == redirect_row(l, i, j) by {
            assert(l[i] == lines[i]);
        }
        assert forall|i: int, j: int|
            #[trigger] redirect_row(lines, i, j) is Some && i != last implies redirect_row(l, i, j)
            == redirect_row(lines, i, j) by {
            assert(l[i] == lines[i]);
        }
        // A followed redirect of the whole dump is one of the earlier lines
        // or one of the last line's rows, and each of those is one of the
        // whole dump.
        assert forall|k: u32|
            resolvable_from(lines, titles, normalize, qids, k) <==> resolvable_from(
                l,
                titles,
                normalize,
                qids,
                k,
            ) || resolvable_in_rows(f, n, titles, normalize, qids, k) by {
            if resolvable_from(lines, titles, normalize, qids, k) {
                let d = choose|d: u32|
                    #[trigger] redirect_edge(lines, titles, normalize, k, d) && qids.contains_key(d);
                let (i, j) = choose|i: int, j: int|
                    #[trigger] redirect_row(lines, i, j) is Some && row_edge(
                        redirect_row(lines, i, j)->Some_0,
                        titles,
                        normalize,
                        k,
                        d,
                    );
                if i == last {
                    assert(row_edge(tuple_at(f, w, j), titles, normalize, k, d));
                } else {
                    assert(redirect_row(l, i, j) is Some);
                    assert(redirect_edge(l, titles, normalize, k, d));
                }
            }
            if resolvable_from(l, titles, normalize, qids, k) {
                let d = choose|d: u32|
                    #[trigger] redirect_edge(l, titles, normalize, k, d) && qids.contains_key(d);
                let (i, j) = choose|i: int, j: int|
                    #[trigger] redirect_row(l, i, j) is Some && row_edge(
                        redirect_row(l, i, j)->Some_0,
                        titles,
                        normalize,
                        k,
                        d,
                    );
                assert(redirect_row(lines, i, j) == redirect_row(l, i, j));
                assert(redirect_edge(lines, titles, normalize, k, d));
            }
            if resolvable_in_rows(f, n, titles, normalize, qids, k) {
                let (j, d) = choose|j: int, d: u32|
                    0 <= j < n && #[trigger] row_edge(tuple_at(f, w, j), titles, normalize, k, d)
                        && qids.contains_key(d);
                assert(redirect_row(lines, last, j) == Some(tuple_at(f, w, j)));
                assert(redirect_edge(lines, titles, normalize, k, d));
            }
        }
    }
}

/// A page with no knowledge-base id of its own stays without one when no
/// followed redirect from it names a page that the property table maps, even
/// where the page it names gets an id from a redirect of its own: the pass
/// follows one hop.
pub proof fn lemma_redirect_chain_unresolved(
    qids: Map<u32, u32>,
    lines: Seq<Seq<char>>,
    titles: Map<Seq<char>, u32>,
    normalize: bool,
    page: u32,
)
    requires
        resolved_of(qids, lines, titles, normalize) is Ok,
        !qids.contains_key(page),
        forall|d: u32| #[trigger] redirect_edge(lines, titles, normalize, page, d) ==> !qids.contains_key(d),
    ensures
        !resolved_of(qids, lines, titles, normalize)->Ok_0.contains_key(page),
{
    lemma_resolution_bounds(qids, lines, titles, normalize);
}

} // verus!
