//! The whole conversion: page dump, property dump and redirect dump to the
//! joined records.
use vstd::prelude::*;
use crate::output::{PageRecord, join_records, joins};
use crate::pages::{load_titles, titles_of_text};
use crate::props::{load_qids, qids_of_text};
use crate::redirects::{resolve_redirects, resolved_of_text};

verus! {

/// Which dump a malformed statement line was found in, and at which line
/// (from zero).
#[derive(Debug, Clone, Copy, PartialEq, Eq, Structural)]
pub enum TableError {
    Pages(usize),
    Props(usize),
    Redirects(usize),
}

/// The spec-level error of the pipeline, lines as naturals.
pub ghost enum TableFailure {
    Pages(nat),
    Props(nat),
    Redirects(nat),
}

pub open spec fn failure_of(e: TableError) -> TableFailure {
    match e {
        TableError::Pages(l) => TableFailure::Pages(l as nat),
        TableError::Props(l) => TableFailure::Props(l as nat),
        TableError::Redirects(l) => TableFailure::Redirects(l as nat),
    }
}

/// The title index and the resolved page id → knowledge-base id map that the
/// three dumps give, or where the first malformed line is.
pub open spec fn tables_of(
    pages: Seq<char>,
    props: Seq<char>,
    redirects: Seq<char>,
    normalize: bool,
) -> Result<(Map<Seq<char>, u32>, Map<u32, u32>), TableFailure> {
    match titles_of_text(pages) {
        Err(l) => Err(TableFailure::Pages(l)),
        Ok(titles) => match qids_of_text(props) {
            Err(l) => Err(TableFailure::Props(l)),
            Ok(qids) => match resolved_of_text(qids, redirects, titles, normalize) {
                Err(l) => Err(TableFailure::Redirects(l)),
                Ok(resolved) => Ok((titles, resolved)),
            },
        },
    }
}

/// Runs the conversion on the three dumps' texts: the records join each
/// title of the page dump with its id and, where the property dump or one
/// redirect hop gives one, its knowledge-base id.
pub fn build_table(pages: &str, props: &str, redirects: &str, normalize_targets: bool) -> (r: Result<
    Vec<PageRecord>,
    TableError,
>)
    ensures
        match r {
            Ok(records) => match tables_of(pages@, props@, redirects@, normalize_targets) {
                Ok(t) => joins(records@, t.0, t.1),
                Err(_) => false,
            },
            Err(e) => tables_of(pages@, props@, redirects@, normalize_targets) == Err::<
                (Map<Seq<char>, u32>, Map<u32, u32>),
                _,
            >(failure_of(e)),
        },
{
    let titles = match load_titles(pages) {
        Ok(t) => t,
        Err(e) => {
            return Err(TableError::Pages(e.line));
        },
    };
    let qids = match load_qids(props) {
        Ok(q) => q,
        Err(e) => {
            return Err(TableError::Props(e.line));
        },
    };
    let resolved = match resolve_redirects(redirects, qids, &titles, normalize_targets) {
        Ok(q) => q,
        Err(e) => {
            return Err(TableError::Redirects(e.line));
        },
    };
    Ok(join_records(&titles, &resolved))
}

} // verus!
