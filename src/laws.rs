//! Properties of the conversion as a whole.
use vstd::prelude::*;
use crate::output::{PageRecord, joins};
use crate::dump::tuple_at;
use crate::fold::{fold_tuples, lemma_ignored_rows_replaceable, lemma_skipped_line_ignored};
use crate::pages::{MAIN_NAMESPACE, PAGE_PREFIX, PAGE_WIDTH, page_step, page_stepper, titles_of};
use crate::props::{PROPS_PREFIX, PROPS_WIDTH, prop_stepper, qids_of, qids_of_text};
use crate::pipeline::tables_of;
use crate::resolution::{lemma_resolution_bounds, resolvable_from};
use crate::redirects::{resolved_of, REDIRECT_PREFIX, REDIRECT_WIDTH, redirect_step, redirect_stepper};
use crate::text::{lines_of, marked_u32, nfc_of, starts_with};

verus! {

/// Every title of the title index stands in exactly one record, and every
/// record's title is in the index.
pub proof fn lemma_each_title_once(
    records: Seq<PageRecord>,
    titles: Map<Seq<char>, u32>,
    qids: Map<u32, u32>,
)
    requires
        joins(records, titles, qids),
    ensures
        forall|k: Seq<char>|
            titles.contains_key(k) ==> exists|i: int|
                0 <= i < records.len() && #[trigger] records[i].title@ == k && forall|j: int|
                    0 <= j < records.len() && #[trigger] records[j].title@ == k ==> j == i,
        forall|i: int| 0 <= i < records.len() ==> titles.contains_key(#[trigger] records[i].title@),
{
    assert forall|k: Seq<char>| titles.contains_key(k) implies exists|i: int|
        0 <= i < records.len() && #[trigger] records[i].title@ == k && forall|j: int|
            0 <= j < records.len() && #[trigger] records[j].title@ == k ==> j == i by {
        let i = choose|i: int| 0 <= i < records.len() && #[trigger] records[i].title@ == k;
        assert forall|j: int| 0 <= j < records.len() && #[trigger] records[j].title@ == k implies j
            == i by {
            if j < i {
                assert(records[j].title@ != records[i].title@);
            } else if i < j {
                assert(records[i].title@ != records[j].title@);
            }
        }
    }
}

/// A page row of the main namespace sets its title's id, whatever an earlier
/// row of the same title had set: the last row of a title wins.
pub proof fn lemma_page_row_wins(m: Map<Seq<char>, u32>, t: Seq<Seq<char>>, id: u32)
    requires
        t.len() >= 3,
        t[1] == MAIN_NAMESPACE@,
        marked_u32(t[0]) == Some(id),
    ensures
        page_step(m, t) == Some(m.insert(nfc_of(t[2]), id)),
        page_step(m, t).unwrap()[nfc_of(t[2])] == id,
{
}

/// A row whose namespace is not the main one changes neither the title
/// index nor the resolved knowledge-base ids, whatever its other fields hold.
pub proof fn lemma_other_namespace_ignored(
    titles: Map<Seq<char>, u32>,
    normalize: bool,
    pages: Map<Seq<char>, u32>,
    base: Map<u32, u32>,
    qids: Map<u32, u32>,
    t: Seq<Seq<char>>,
)
    requires
        t.len() >= 3,
        t[1] != MAIN_NAMESPACE@,
    ensures
        page_step(pages, t) == Some(pages),
        redirect_step(titles, normalize, base, qids, t) == Some(qids),
{
}

/// The records as a set of (title, page id, knowledge-base id) triples.
pub open spec fn record_set(records: Seq<PageRecord>) -> Set<(Seq<char>, u32, Option<u32>)> {
    Set::new(
        |x: (Seq<char>, u32, Option<u32>)|
            exists|i: int|
                0 <= i < records.len() && x == (
                    #[trigger] records[i].title@,
                    records[i].pageid,
                    records[i].qid,
                ),
    )
}

/// Two runs on the same three dumps give the same set of records; only
/// their order may differ.
pub proof fn lemma_runs_agree(
    pages: Seq<char>,
    props: Seq<char>,
    redirects: Seq<char>,
    normalize: bool,
    first: Seq<PageRecord>,
    second: Seq<PageRecord>,
)
    requires
        tables_of(pages, props, redirects, normalize) is Ok,
        joins(
            first,
            tables_of(pages, props, redirects, normalize)->Ok_0.0,
            tables_of(pages, props, redirects, normalize)->Ok_0.1,
        ),
        joins(
            second,
            tables_of(pages, props, redirects, normalize)->Ok_0.0,
            tables_of(pages, props, redirects, normalize)->Ok_0.1,
        ),
    ensures
        record_set(first) == record_set(second),
{
    let t = tables_of(pages, props, redirects, normalize)->Ok_0;
    lemma_joins_within(first, second, t.0, t.1);
    lemma_joins_within(second, first, t.0, t.1);
    assert(record_set(first) =~= record_set(second));
}

proof fn lemma_joins_within(
    a: Seq<PageRecord>,
    b: Seq<PageRecord>,
    titles: Map<Seq<char>, u32>,
    qids: Map<u32, u32>,
)
    requires
        joins(a, titles, qids),
        joins(b, titles, qids),
    ensures
        record_set(a).subset_of(record_set(b)),
{
    assert forall|x: (Seq<char>, u32, Option<u32>)| record_set(a).contains(x) implies record_set(
        b,
    ).contains(x) by {
        let i = choose|i: int|
            0 <= i < a.len() && x == (#[trigger] a[i].title@, a[i].pageid, a[i].qid);
        let k = a[i].title@;
        assert(titles.contains_key(k));
        let j = choose|j: int| 0 <= j < b.len() && #[trigger] b[j].title@ == k;
        assert(x == (b[j].title@, b[j].pageid, b[j].qid));
    }
}

/// A record carries a knowledge-base id if and only if the property dump
/// maps its page, or its page is the source of a followed redirect to a page
/// that the property dump maps.
pub proof fn lemma_qid_presence(
    pages: Seq<char>,
    props: Seq<char>,
    redirects: Seq<char>,
    normalize: bool,
    records: Seq<PageRecord>,
)
    requires
        tables_of(pages, props, redirects, normalize) is Ok,
        joins(
            records,
            tables_of(pages, props, redirects, normalize)->Ok_0.0,
            tables_of(pages, props, redirects, normalize)->Ok_0.1,
        ),
    ensures
        forall|i: int|
            0 <= i < records.len() ==> ((#[trigger] records[i].qid is Some) <==> (qids_of_text(
                props,
            )->Ok_0.contains_key(records[i].pageid) || resolvable_from(
                lines_of(redirects),
                tables_of(pages, props, redirects, normalize)->Ok_0.0,
                normalize,
                qids_of_text(props)->Ok_0,
                records[i].pageid,
            ))),
{
    let direct = qids_of_text(props)->Ok_0;
    let titles = tables_of(pages, props, redirects, normalize)->Ok_0.0;
    let resolved = tables_of(pages, props, redirects, normalize)->Ok_0.1;
    let lines = lines_of(redirects);
    assert(resolved_of(direct, lines, titles, normalize) == Ok::<_, nat>(resolved));
    lemma_resolution_bounds(direct, lines, titles, normalize);
    assert forall|i: int| 0 <= i < records.len() implies (#[trigger] records[i].qid is Some
        <==> resolved.contains_key(records[i].pageid)) by {
        assert(titles.contains_key(records[i].title@));
    }
}

/// The result of a load, with a malformed line at or after line `i`
/// reported one line further down.
pub open spec fn shifted<M>(r: Result<M, nat>, i: int) -> Result<M, nat> {
    match r {
        Ok(v) => Ok(v),
        Err(e) => Err(if e >= i { (e + 1) as nat } else { e }),
    }
}

/// A line that is not a page statement, added anywhere to the page dump,
/// changes nothing in the title index.
pub proof fn lemma_page_dump_ignores_other_lines(lines: Seq<Seq<char>>, i: int, extra: Seq<char>)
    requires
        0 <= i <= lines.len(),
        !starts_with(extra, PAGE_PREFIX@),
    ensures
        titles_of(lines.insert(i, extra)) == shifted(titles_of(lines), i),
{
    lemma_skipped_line_ignored(Map::empty(), lines, i, extra, PAGE_PREFIX@, PAGE_WIDTH as nat, page_stepper());
}

/// A line that is not a page-property statement, added anywhere to the
/// property dump, changes nothing in the knowledge-base ids.
pub proof fn lemma_props_dump_ignores_other_lines(lines: Seq<Seq<char>>, i: int, extra: Seq<char>)
    requires
        0 <= i <= lines.len(),
        !starts_with(extra, PROPS_PREFIX@),
    ensures
        qids_of(lines.insert(i, extra)) == shifted(qids_of(lines), i),
{
    lemma_skipped_line_ignored(Map::empty(), lines, i, extra, PROPS_PREFIX@, PROPS_WIDTH as nat, prop_stepper());
}

/// A line that is not a redirect statement, added anywhere to the redirect
/// dump, changes nothing in the resolved knowledge-base ids.
pub proof fn lemma_redirect_dump_ignores_other_lines(
    qids: Map<u32, u32>,
    lines: Seq<Seq<char>>,
    titles: Map<Seq<char>, u32>,
    normalize: bool,
    i: int,
    extra: Seq<char>,
)
    requires
        0 <= i <= lines.len(),
        !starts_with(extra, REDIRECT_PREFIX@),
    ensures
        resolved_of(qids, lines.insert(i, extra), titles, normalize) == shifted(
            resolved_of(qids, lines, titles, normalize),
            i,
        ),
{
    lemma_skipped_line_ignored(
        qids,
        lines,
        i,
        extra,
        REDIRECT_PREFIX@,
        REDIRECT_WIDTH as nat,
        redirect_stepper(titles, normalize, qids),
    );
}

pub open spec fn other_namespace() -> spec_fn(Seq<Seq<char>>) -> bool {
    |t: Seq<Seq<char>>| t[1] != MAIN_NAMESPACE@
}

/// Two statements of the page table that differ only in rows outside the
/// main namespace give the same title index, whatever those rows hold.
pub proof fn lemma_page_rows_other_namespace(
    m: Map<Seq<char>, u32>,
    fields: Seq<Seq<char>>,
    other: Seq<Seq<char>>,
    n: nat,
)
    requires
        forall|j: int|
            0 <= j < n ==> #[trigger] tuple_at(fields, PAGE_WIDTH as nat, j) == tuple_at(
                other,
                PAGE_WIDTH as nat,
                j,
            ) || (tuple_at(fields, PAGE_WIDTH as nat, j)[1] != MAIN_NAMESPACE@ && tuple_at(
                other,
                PAGE_WIDTH as nat,
                j,
            )[1] != MAIN_NAMESPACE@),
    ensures
        fold_tuples(m, fields, PAGE_WIDTH as nat, n, page_stepper()) == fold_tuples(
            m,
            other,
            PAGE_WIDTH as nat,
            n,
            page_stepper(),
        ),
{
    let ignored = other_namespace();
    assert forall|a: Map<Seq<char>, u32>, t: Seq<Seq<char>>| ignored(t) implies #[trigger] page_stepper()(
        a,
        t,
    ) == Some(a) by {}
    assert forall|j: int| 0 <= j < n implies tuple_at(fields, PAGE_WIDTH as nat, j) == tuple_at(
        other,
        PAGE_WIDTH as nat,
        j,
    ) || (ignored(#[trigger] tuple_at(fields, PAGE_WIDTH as nat, j)) && ignored(
        tuple_at(other, PAGE_WIDTH as nat, j),
    )) by {}
    lemma_ignored_rows_replaceable(m, fields, other, PAGE_WIDTH as nat, n, page_stepper(), ignored);
}

/// Two statements of the redirect table that differ only in rows outside the
/// main namespace resolve the same knowledge-base ids, whatever those rows
/// hold.
pub proof fn lemma_redirect_rows_other_namespace(
    titles: Map<Seq<char>, u32>,
    normalize: bool,
    base: Map<u32, u32>,
    m: Map<u32, u32>,
    fields: Seq<Seq<char>>,
    other: Seq<Seq<char>>,
    n: nat,
)
    requires
        forall|j: int|
            0 <= j < n ==> #[trigger] tuple_at(fields, REDIRECT_WIDTH as nat, j) == tuple_at(
                other,
                REDIRECT_WIDTH as nat,
                j,
            ) || (tuple_at(fields, REDIRECT_WIDTH as nat, j)[1] != MAIN_NAMESPACE@ && tuple_at(
                other,
                REDIRECT_WIDTH as nat,
                j,
            )[1] != MAIN_NAMESPACE@),
    ensures
        fold_tuples(m, fields, REDIRECT_WIDTH as nat, n, redirect_stepper(titles, normalize, base))
            == fold_tuples(m, other, REDIRECT_WIDTH as nat, n, redirect_stepper(titles, normalize, base)),
{
    let ignored = other_namespace();
    let step = redirect_stepper(titles, normalize, base);
    assert forall|a: Map<u32, u32>, t: Seq<Seq<char>>| ignored(t) implies #[trigger] step(a, t) == Some(
        a,
    ) by {}
    assert forall|j: int| 0 <= j < n implies tuple_at(fields, REDIRECT_WIDTH as nat, j) == tuple_at(
        other,
        REDIRECT_WIDTH as nat,
        j,
    ) || (ignored(#[trigger] tuple_at(fields, REDIRECT_WIDTH as nat, j)) && ignored(
        tuple_at(other, REDIRECT_WIDTH as nat, j),
    )) by {}
    lemma_ignored_rows_replaceable(m, fields, other, REDIRECT_WIDTH as nat, n, step, ignored);
}

} // verus!
