//! The redirect table: a redirected page takes the knowledge-base id of the
//! page that its redirect names, one hop deep.
use vstd::prelude::*;
use std::collections::BTreeMap;
use crate::dump::{LineDecode, MalformedRecord, decode_line, fields_view, lemma_tuple_in_bounds, tuple_at};
use crate::fold::{fold_lines, fold_tuples, lemma_fold_lines_err, lemma_fold_tuples_none};
use crate::index::TitleIndex;
use crate::pages::MAIN_NAMESPACE;
use crate::text::{lines_of, lines_view, marked_u32, nfc_of, normalize_nfc, parse_marked_u32, same_text, split_lines};

verus! {

/// The statement that carries the rows of the redirect table.
pub const REDIRECT_PREFIX: &'static str = "INSERT INTO `redirect` VALUES ";

/// Columns of a redirect row.
pub const REDIRECT_WIDTH: usize = 5;

/// The title that a redirect row names (third column), in NFC where
/// `normalize` asks for it, else as the dump writes it.
pub open spec fn redirect_target(t: Seq<Seq<char>>, normalize: bool) -> Seq<char> {
    if normalize {
        nfc_of(t[2])
    } else {
        t[2]
    }
}

/// Whether a redirect row is followed: its namespace is the main one.
pub open spec fn redirect_kept(t: Seq<Seq<char>>) -> bool {
    t[1] == MAIN_NAMESPACE@
}

/// One redirect row: where it is kept and its target title has a page id in
/// `titles` whose knowledge-base id the property table `base` holds, its
/// source page (first column) takes that knowledge-base id in `m`, replacing
/// any it had. Targets are looked up in `base` alone, so a redirect to a page
/// that only gets its id from another redirect is not followed further.
pub open spec fn redirect_step(
    titles: Map<Seq<char>, u32>,
    normalize: bool,
    base: Map<u32, u32>,
    m: Map<u32, u32>,
    t: Seq<Seq<char>>,
) -> Option<Map<u32, u32>> {
    if !redirect_kept(t) {
        Some(m)
    } else {
        match marked_u32(t[0]) {
            None => None,
            Some(src) => {
                let target = redirect_target(t, normalize);
                if titles.contains_key(target) && base.contains_key(titles[target]) {
                    Some(m.insert(src, base[titles[target]]))
                } else {
                    Some(m)
                }
            },
        }
    }
}

pub open spec fn redirect_stepper(
    titles: Map<Seq<char>, u32>,
    normalize: bool,
    base: Map<u32, u32>,
) -> spec_fn(Map<u32, u32>, Seq<Seq<char>>) -> Option<Map<u32, u32>> {
    |m: Map<u32, u32>, t: Seq<Seq<char>>| redirect_step(titles, normalize, base, m, t)
}

/// `qids` after the redirect dump's lines, every target looked up in `qids`
/// as given, or the first line that is malformed.
pub open spec fn resolved_of(
    qids: Map<u32, u32>,
    lines: Seq<Seq<char>>,
    titles: Map<Seq<char>, u32>,
    normalize: bool,
) -> Result<Map<u32, u32>, nat> {
    fold_lines(qids, lines, REDIRECT_PREFIX@, REDIRECT_WIDTH as nat, redirect_stepper(titles, normalize, qids))
}

pub open spec fn resolved_of_text(
    qids: Map<u32, u32>,
    text: Seq<char>,
    titles: Map<Seq<char>, u32>,
    normalize: bool,
) -> Result<Map<u32, u32>, nat> {
    resolved_of(qids, lines_of(text), titles, normalize)
}

pub fn apply_redirect_tuples(
    qids: &mut BTreeMap<u32, u32>,
    base: &BTreeMap<u32, u32>,
    fields: &Vec<String>,
    titles: &TitleIndex,
    normalize: bool,
) -> (ok: bool)
    requires
        fields.len() % REDIRECT_WIDTH == 0,
    ensures
        ok ==> fold_tuples(
            old(qids)@,
            fields_view(fields@),
            REDIRECT_WIDTH as nat,
            (fields.len() / REDIRECT_WIDTH) as nat,
            redirect_stepper(titles@, normalize, base@),
        ) == Some(final(qids)@),
        !ok ==> fold_tuples(
            old(qids)@,
            fields_view(fields@),
            REDIRECT_WIDTH as nat,
            (fields.len() / REDIRECT_WIDTH) as nat,
            redirect_stepper(titles@, normalize, base@),
        ) is None,
{
    broadcast use vstd::laws_cmp::group_laws_cmp;
    broadcast use vstd::std_specs::btree::group_btree_axioms;

    let ghost fv = fields_view(fields@);
    let ghost step = redirect_stepper(titles@, normalize, base@);
    let n = fields.len() / REDIRECT_WIDTH;
    let mut k: usize = 0;
    while k < n
        invariant
            k <= n,
            n == fields.len() / REDIRECT_WIDTH,
            fields.len() % REDIRECT_WIDTH == 0,
            fv == fields_view(fields@),
            step == redirect_stepper(titles@, normalize, base@),
            fold_tuples(old(qids)@, fv, REDIRECT_WIDTH as nat, k as nat, step) == Some(qids@),
        decreases n - k,
    {
        proof {
            lemma_tuple_in_bounds(fields.len() as nat, REDIRECT_WIDTH as nat, k as int);
        }
        let b = k * REDIRECT_WIDTH;
        let ghost t = tuple_at(fv, REDIRECT_WIDTH as nat, k as int);
        assert(t[0] == fields@[b as int]@ && t[1] == fields@[b + 1]@ && t[2] == fields@[b + 2]@);
        if same_text(fields[b + 1].as_str(), MAIN_NAMESPACE) {
            match parse_marked_u32(fields[b].as_str()) {
                None => {
                    proof {
                        lemma_fold_tuples_none(old(qids)@, fv, REDIRECT_WIDTH as nat, (k + 1) as nat, n as nat, step);
                    }
                    return false;
                },
                Some(src) => {
                    let target_id = if normalize {
                        let target = normalize_nfc(fields[b + 2].as_str());
                        titles.get(target.as_str())
                    } else {
                        titles.get(fields[b + 2].as_str())
                    };
                    if let Some(tid) = target_id {
                        let found = match base.get(&tid) {
                            Some(q) => Some(*q),
                            None => None,
                        };
                        if let Some(q) = found {
                            qids.insert(src, q);
                        }
                    }
                },
            }
        }
        k += 1;
    }
    true
}

/// Follows the redirect dump's lines over `qids`: each kept redirect whose
/// target has a knowledge-base id in `qids` as given gives its source page
/// that id. One hop only: what earlier redirects added is never read, so the
/// order of the rows matters only where two rows share a source.
pub fn resolve_redirects_from_lines(
    lines: &Vec<String>,
    qids: BTreeMap<u32, u32>,
    titles: &TitleIndex,
    normalize_targets: bool,
) -> (r: Result<BTreeMap<u32, u32>, MalformedRecord>)
    ensures
        match r {
            Ok(q) => resolved_of(qids@, lines_view(lines@), titles@, normalize_targets) == Ok::<
                _,
                nat,
            >(q@),
            Err(e) => resolved_of(qids@, lines_view(lines@), titles@, normalize_targets) == Err::<
                Map<u32, u32>,
                _,
            >(e.line as nat),
        },
{
    let ghost lv = lines_view(lines@);
    let ghost q0 = qids@;
    let ghost step = redirect_stepper(titles@, normalize_targets, qids@);
    let base = qids.clone();
    let mut resolved = qids;
    let mut i: usize = 0;
    assert(lv.take(0) =~= Seq::<Seq<char>>::empty());
    while i < lines.len()
        invariant
            i <= lines.len(),
            lv == lines_view(lines@),
            step == redirect_stepper(titles@, normalize_targets, q0),
            base@ == q0,
            q0 == qids@,
            resolved_of(q0, lv.take(i as int), titles@, normalize_targets) == Ok::<_, nat>(resolved@),
        decreases lines.len() - i,
    {
        assert(lv.take(i + 1).drop_last() =~= lv.take(i as int));
        assert(lv.take(i + 1).last() == lines@[i as int]@);
        match decode_line(lines[i].as_str(), REDIRECT_PREFIX, REDIRECT_WIDTH) {
            LineDecode::Skipped => {},
            LineDecode::Malformed => {
                proof {
                    lemma_fold_lines_err(q0, lv, REDIRECT_PREFIX@, REDIRECT_WIDTH as nat, step, i + 1);
                }
                return Err(MalformedRecord { line: i });
            },
            LineDecode::Fields(f) => {
                if !apply_redirect_tuples(&mut resolved, &base, &f, titles, normalize_targets) {
                    proof {
                        lemma_fold_lines_err(q0, lv, REDIRECT_PREFIX@, REDIRECT_WIDTH as nat, step, i + 1);
                    }
                    return Err(MalformedRecord { line: i });
                }
            },
        }
        i += 1;
    }
    assert(lv.take(lines.len() as int) =~= lv);
    Ok(resolved)
}

/// Follows the redirect dump's text line by line, as
/// `resolve_redirects_from_lines`.
pub fn resolve_redirects(
    text: &str,
    qids: BTreeMap<u32, u32>,
    titles: &TitleIndex,
    normalize_targets: bool,
) -> (r: Result<BTreeMap<u32, u32>, MalformedRecord>)
    ensures
        match r {
            Ok(q) => resolved_of_text(qids@, text@, titles@, normalize_targets) == Ok::<_, nat>(
                q@,
            ),
            Err(e) => resolved_of_text(qids@, text@, titles@, normalize_targets) == Err::<
                Map<u32, u32>,
                _,
            >(e.line as nat),
        },
{
    let lines = split_lines(text);
    resolve_redirects_from_lines(&lines, qids, titles, normalize_targets)
}

} // verus!
