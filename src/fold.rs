//! The model of a table load: a step applied to each tuple of each statement
//! line, in order, stopping at the first malformed line.
use vstd::prelude::*;
use crate::dump::{DecodedLine, decoded_line, tuple_at};

verus! {

/// Applies `step` to the first `n` tuples of a statement; `None` where a step
/// rejects its tuple.
pub open spec fn fold_tuples<M>(
    m: M,
    fields: Seq<Seq<char>>,
    width: nat,
    n: nat,
    step: spec_fn(M, Seq<Seq<char>>) -> Option<M>,
) -> Option<M>
    decreases n,
{
    if n == 0 {
        Some(m)
    } else {
        match fold_tuples(m, fields, width, (n - 1) as nat, step) {
            None => None,
            Some(m1) => step(m1, tuple_at(fields, width, n - 1)),
        }
    }
}

/// Applies `step` to every tuple of the table's statements among `lines`.
/// `Err(i)` where line `i` is the first that is malformed or holds a tuple
/// that `step` rejects.
pub open spec fn fold_lines<M>(
    m: M,
    lines: Seq<Seq<char>>,
    prefix: Seq<char>,
    width: nat,
    step: spec_fn(M, Seq<Seq<char>>) -> Option<M>,
) -> Result<M, nat>
    decreases lines.len(),
{
    if lines.len() == 0 {
        Ok(m)
    } else {
        match fold_lines(m, lines.drop_last(), prefix, width, step) {
            Err(i) => Err(i),
            Ok(m1) => match decoded_line(lines.last(), prefix, width) {
                DecodedLine::Skipped => Ok(m1),
                DecodedLine::Malformed => Err((lines.len() - 1) as nat),
                DecodedLine::Tuples(f) => match fold_tuples(m1, f, width, f.len() / width, step) {
                    None => Err((lines.len() - 1) as nat),
                    Some(m2) => Ok(m2),
                },
            },
        }
    }
}

/// A tuple that a step rejects fails the whole statement.
pub proof fn lemma_fold_tuples_none<M>(
    m: M,
    fields: Seq<Seq<char>>,
    width: nat,
    j: nat,
    n: nat,
    step: spec_fn(M, Seq<Seq<char>>) -> Option<M>,
)
    requires
        j <= n,
        fold_tuples(m, fields, width, j, step) is None,
    ensures
        fold_tuples(m, fields, width, n, step) is None,
    decreases n,
{
    if j < n {
        lemma_fold_tuples_none(m, fields, width, j, (n - 1) as nat, step);
    }
}

/// A failure on the first `k` lines is the failure of the whole load.
pub proof fn lemma_fold_lines_err<M>(
    m: M,
    lines: Seq<Seq<char>>,
    prefix: Seq<char>,
    width: nat,
    step: spec_fn(M, Seq<Seq<char>>) -> Option<M>,
    k: int,
)
    requires
        0 <= k <= lines.len(),
        fold_lines(m, lines.take(k), prefix, width, step) is Err,
    ensures
        fold_lines(m, lines, prefix, width, step) == fold_lines(
            m,
            lines.take(k),
            prefix,
            width,
            step,
        ),
    decreases lines.len(),
{
    if k == lines.len() {
        assert(lines.take(k) =~= lines);
    } else {
        let l = lines.drop_last();
        assert(l.take(k) =~= lines.take(k));
        lemma_fold_lines_err(m, l, prefix, width, step, k);
    }
}

/// A line that is not a statement of the table, inserted anywhere among the
/// lines, changes nothing: the same result, and a malformed line at or after
/// it is reported one line further down.
pub proof fn lemma_skipped_line_ignored<M>(
    m: M,
    lines: Seq<Seq<char>>,
    i: int,
    extra: Seq<char>,
    prefix: Seq<char>,
    width: nat,
    step: spec_fn(M, Seq<Seq<char>>) -> Option<M>,
)
    requires
        0 <= i <= lines.len(),
        decoded_line(extra, prefix, width) is Skipped,
    ensures
        fold_lines(m, lines.insert(i, extra), prefix, width, step) == match fold_lines(
            m,
            lines,
            prefix,
            width,
            step,
        ) {
            Ok(r) => Ok(r),
            Err(e) => Err(if e >= i { e + 1 } else { e }),
        },
    decreases lines.len(),
{
    let more = lines.insert(i, extra);
    if i == lines.len() {
        assert(more.drop_last() =~= lines);
        assert(more.last() == extra);
        lemma_fold_lines_err_below(m, lines, prefix, width, step);
    } else {
        let l = lines.drop_last();
        assert(more.drop_last() =~= l.insert(i, extra));
        assert(more.last() == lines.last());
        lemma_skipped_line_ignored(m, l, i, extra, prefix, width, step);
        lemma_fold_lines_err_below(m, l, prefix, width, step);
    }
}

/// A reported line is one of the lines.
pub proof fn lemma_fold_lines_err_below<M>(
    m: M,
    lines: Seq<Seq<char>>,
    prefix: Seq<char>,
    width: nat,
    step: spec_fn(M, Seq<Seq<char>>) -> Option<M>,
)
    ensures
        fold_lines(m, lines, prefix, width, step) is Err ==> fold_lines(
            m,
            lines,
            prefix,
            width,
            step,
        )->Err_0 < lines.len(),
    decreases lines.len(),
{
    if lines.len() > 0 {
        lemma_fold_lines_err_below(m, lines.drop_last(), prefix, width, step);
    }
}

/// Rows that a step leaves alone can be replaced by other such rows without
/// changing the result.
pub proof fn lemma_ignored_rows_replaceable<M>(
    m: M,
    fields: Seq<Seq<char>>,
    other: Seq<Seq<char>>,
    width: nat,
    n: nat,
    step: spec_fn(M, Seq<Seq<char>>) -> Option<M>,
    ignored: spec_fn(Seq<Seq<char>>) -> bool,
)
    requires
        forall|a: M, t: Seq<Seq<char>>| ignored(t) ==> #[trigger] step(a, t) == Some(a),
        forall|j: int|
            0 <= j < n ==> tuple_at(fields, width, j) == tuple_at(other, width, j) || (ignored(
                #[trigger] tuple_at(fields, width, j),
            ) && ignored(tuple_at(other, width, j))),
    ensures
        fold_tuples(m, fields, width, n, step) == fold_tuples(m, other, width, n, step),
    decreases n,
{
    if n > 0 {
        let p = (n - 1) as nat;
        lemma_ignored_rows_replaceable(m, fields, other, width, p, step, ignored);
        let t = tuple_at(fields, width, p as int);
        let u = tuple_at(other, width, p as int);
        if t != u {
            assert(ignored(t) && ignored(u));
        }
    }
}

} // verus!
