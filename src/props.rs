//! The page-property table: page id → knowledge-base id, from the
//! `wikibase_item` property of each page.
use vstd::prelude::*;
use std::collections::BTreeMap;
use crate::dump::{LineDecode, MalformedRecord, decode_line, fields_view, lemma_tuple_in_bounds, tuple_at};
use crate::fold::{fold_lines, fold_tuples, lemma_fold_lines_err, lemma_fold_tuples_none};
use crate::text::{lines_of, lines_view, marked_u32, parse_marked_u32, same_text, split_lines};

verus! {

/// The statement that carries the rows of the page-property table.
pub const PROPS_PREFIX: &'static str = "INSERT INTO `page_props` VALUES ";

/// Columns of a page-property row.
pub const PROPS_WIDTH: usize = 4;

/// The property whose value is a page's knowledge-base id (`Q` and a number).
pub const KB_PROPERTY: &'static str = "wikibase_item";

/// One property row: kept where its property name (second column) is the
/// knowledge-base property, mapping the page id of its first column to the
/// number of its third.
pub open spec fn prop_step(m: Map<u32, u32>, t: Seq<Seq<char>>) -> Option<Map<u32, u32>> {
    if t[1] != KB_PROPERTY@ {
        Some(m)
    } else {
        match (marked_u32(t[0]), marked_u32(t[2])) {
            (Some(id), Some(qid)) => Some(m.insert(id, qid)),
            _ => None,
        }
    }
}

pub open spec fn prop_stepper() -> spec_fn(Map<u32, u32>, Seq<Seq<char>>) -> Option<Map<u32, u32>> {
    |m: Map<u32, u32>, t: Seq<Seq<char>>| prop_step(m, t)
}

/// The page id → knowledge-base id map that the property dump's lines give,
/// or the first line that is malformed.
pub open spec fn qids_of(lines: Seq<Seq<char>>) -> Result<Map<u32, u32>, nat> {
    fold_lines(Map::empty(), lines, PROPS_PREFIX@, PROPS_WIDTH as nat, prop_stepper())
}

pub open spec fn qids_of_text(text: Seq<char>) -> Result<Map<u32, u32>, nat> {
    qids_of(lines_of(text))
}

pub fn apply_prop_tuples(qids: &mut BTreeMap<u32, u32>, fields: &Vec<String>) -> (ok: bool)
    requires
        fields.len() % PROPS_WIDTH == 0,
    ensures
        ok ==> fold_tuples(
            old(qids)@,
            fields_view(fields@),
            PROPS_WIDTH as nat,
            (fields.len() / PROPS_WIDTH) as nat,
            prop_stepper(),
        ) == Some(final(qids)@),
        !ok ==> fold_tuples(
            old(qids)@,
            fields_view(fields@),
            PROPS_WIDTH as nat,
            (fields.len() / PROPS_WIDTH) as nat,
            prop_stepper(),
        ) is None,
{
    broadcast use vstd::laws_cmp::group_laws_cmp;

    let ghost fv = fields_view(fields@);
    let n = fields.len() / PROPS_WIDTH;
    let mut k: usize = 0;
    while k < n
        invariant
            k <= n,
            n == fields.len() / PROPS_WIDTH,
            fields.len() % PROPS_WIDTH == 0,
            fv == fields_view(fields@),
            fold_tuples(old(qids)@, fv, PROPS_WIDTH as nat, k as nat, prop_stepper()) == Some(
                qids@,
            ),
        decreases n - k,
    {
        proof {
            lemma_tuple_in_bounds(fields.len() as nat, PROPS_WIDTH as nat, k as int);
        }
        let b = k * PROPS_WIDTH;
        let ghost t = tuple_at(fv, PROPS_WIDTH as nat, k as int);
        assert(t[0] == fields@[b as int]@ && t[1] == fields@[b + 1]@ && t[2] == fields@[b + 2]@);
        if same_text(fields[b + 1].as_str(), KB_PROPERTY) {
            match (parse_marked_u32(fields[b].as_str()), parse_marked_u32(fields[b + 2].as_str())) {
                (Some(id), Some(qid)) => {
                    qids.insert(id, qid);
                },
                _ => {
                    proof {
                        lemma_fold_tuples_none(old(qids)@, fv, PROPS_WIDTH as nat, (k + 1) as nat, n as nat, prop_stepper());
                    }
                    return false;
                },
            }
        }
        k += 1;
    }
    true
}

/// Reads the property dump's lines: for each kept row, its page id → its
/// knowledge-base id, a later row replacing an earlier one of the same page.
pub fn load_qids_from_lines(lines: &Vec<String>) -> (r: Result<BTreeMap<u32, u32>, MalformedRecord>)
    ensures
        match r {
            Ok(q) => qids_of(lines_view(lines@)) == Ok::<_, nat>(q@),
            Err(e) => qids_of(lines_view(lines@)) == Err::<Map<u32, u32>, _>(e.line as nat),
        },
{
    let ghost lv = lines_view(lines@);
    let mut qids: BTreeMap<u32, u32> = BTreeMap::new();
    let mut i: usize = 0;
    assert(lv.take(0) =~= Seq::<Seq<char>>::empty());
    while i < lines.len()
        invariant
            i <= lines.len(),
            lv == lines_view(lines@),
            qids_of(lv.take(i as int)) == Ok::<_, nat>(qids@),
        decreases lines.len() - i,
    {
        assert(lv.take(i + 1).drop_last() =~= lv.take(i as int));
        assert(lv.take(i + 1).last() == lines@[i as int]@);
        match decode_line(lines[i].as_str(), PROPS_PREFIX, PROPS_WIDTH) {
            LineDecode::Skipped => {},
            LineDecode::Malformed => {
                proof {
                    lemma_fold_lines_err(Map::empty(), lv, PROPS_PREFIX@, PROPS_WIDTH as nat, prop_stepper(), i + 1);
                }
                return Err(MalformedRecord { line: i });
            },
            LineDecode::Fields(f) => {
                if !apply_prop_tuples(&mut qids, &f) {
                    proof {
                        lemma_fold_lines_err(Map::empty(), lv, PROPS_PREFIX@, PROPS_WIDTH as nat, prop_stepper(), i + 1);
                    }
                    return Err(MalformedRecord { line: i });
                }
            },
        }
        i += 1;
    }
    assert(lv.take(lines.len() as int) =~= lv);
    Ok(qids)
}

/// Reads the property dump's text line by line, as `load_qids_from_lines`.
pub fn load_qids(text: &str) -> (r: Result<BTreeMap<u32, u32>, MalformedRecord>)
    ensures
        match r {
            Ok(q) => qids_of_text(text@) == Ok::<_, nat>(q@),
            Err(e) => qids_of_text(text@) == Err::<Map<u32, u32>, _>(e.line as nat),
        },
{
    let lines = split_lines(text);
    load_qids_from_lines(&lines)
}

} // verus!
