//! The page table: title → page id for the pages of the main namespace.
use vstd::prelude::*;
use crate::dump::{LineDecode, MalformedRecord, decode_line, fields_view, lemma_tuple_in_bounds, tuple_at};
use crate::fold::{fold_lines, fold_tuples, lemma_fold_lines_err, lemma_fold_tuples_none};
use crate::index::TitleIndex;
use crate::text::{lines_of, lines_view, marked_u32, nfc_of, normalize_nfc, parse_marked_u32, same_text, split_lines};

verus! {

/// The statement that carries the rows of the page table.
pub const PAGE_PREFIX: &'static str = "INSERT INTO `page` VALUES ";

/// Columns of a page row.
pub const PAGE_WIDTH: usize = 12;

/// The namespace value of the main (article) namespace.
pub const MAIN_NAMESPACE: &'static str = "0";

/// One page row: kept where its namespace (second column) is the main one,
/// adding its title (third column, in NFC) with the id of its first column.
pub open spec fn page_step(m: Map<Seq<char>, u32>, t: Seq<Seq<char>>) -> Option<Map<Seq<char>, u32>> {
    if t[1] != MAIN_NAMESPACE@ {
        Some(m)
    } else {
        match marked_u32(t[0]) {
            None => None,
            Some(id) => Some(m.insert(nfc_of(t[2]), id)),
        }
    }
}

pub open spec fn page_stepper() -> spec_fn(Map<Seq<char>, u32>, Seq<Seq<char>>) -> Option<
    Map<Seq<char>, u32>,
> {
    |m: Map<Seq<char>, u32>, t: Seq<Seq<char>>| page_step(m, t)
}

/// The title index that the page dump's lines give, or the first line that
/// is malformed.
pub open spec fn titles_of(lines: Seq<Seq<char>>) -> Result<Map<Seq<char>, u32>, nat> {
    fold_lines(Map::empty(), lines, PAGE_PREFIX@, PAGE_WIDTH as nat, page_stepper())
}

/// The title index of a dump's text.
pub open spec fn titles_of_text(text: Seq<char>) -> Result<Map<Seq<char>, u32>, nat> {
    titles_of(lines_of(text))
}

pub fn apply_page_tuples(titles: &mut TitleIndex, fields: &Vec<String>) -> (ok: bool)
    requires
        fields.len() % PAGE_WIDTH == 0,
    ensures
        ok ==> fold_tuples(
            old(titles)@,
            fields_view(fields@),
            PAGE_WIDTH as nat,
            (fields.len() / PAGE_WIDTH) as nat,
            page_stepper(),
        ) == Some(final(titles)@),
        !ok ==> fold_tuples(
            old(titles)@,
            fields_view(fields@),
            PAGE_WIDTH as nat,
            (fields.len() / PAGE_WIDTH) as nat,
            page_stepper(),
        ) is None,
{
    let ghost fv = fields_view(fields@);
    let n = fields.len() / PAGE_WIDTH;
    let mut k: usize = 0;
    while k < n
        invariant
            k <= n,
            n == fields.len() / PAGE_WIDTH,
            fields.len() % PAGE_WIDTH == 0,
            fv == fields_view(fields@),
            fold_tuples(old(titles)@, fv, PAGE_WIDTH as nat, k as nat, page_stepper()) == Some(
                titles@,
            ),
        decreases n - k,
    {
        proof {
            lemma_tuple_in_bounds(fields.len() as nat, PAGE_WIDTH as nat, k as int);
        }
        let b = k * PAGE_WIDTH;
        let ghost t = tuple_at(fv, PAGE_WIDTH as nat, k as int);
        assert(t[0] == fields@[b as int]@ && t[1] == fields@[b + 1]@ && t[2] == fields@[b + 2]@);
        if same_text(fields[b + 1].as_str(), MAIN_NAMESPACE) {
            match parse_marked_u32(fields[b].as_str()) {
                None => {
                    proof {
                        lemma_fold_tuples_none(old(titles)@, fv, PAGE_WIDTH as nat, (k + 1) as nat, n as nat, page_stepper());
                    }
                    return false;
                },
                Some(id) => {
                    let title = normalize_nfc(fields[b + 2].as_str());
                    titles.insert(title, id);
                },
            }
        }
        k += 1;
    }
    true
}

/// Reads the page dump's lines: for each kept row, its NFC title → its id, a
/// later row replacing an earlier one of the same title.
pub fn load_titles_from_lines(lines: &Vec<String>) -> (r: Result<TitleIndex, MalformedRecord>)
    ensures
        match r {
            Ok(t) => titles_of(lines_view(lines@)) == Ok::<_, nat>(t@),
            Err(e) => titles_of(lines_view(lines@)) == Err::<Map<Seq<char>, u32>, _>(e.line as nat),
        },
{
    let ghost lv = lines_view(lines@);
    let mut titles = TitleIndex::new();
    let mut i: usize = 0;
    assert(lv.take(0) =~= Seq::<Seq<char>>::empty());
    while i < lines.len()
        invariant
            i <= lines.len(),
            lv == lines_view(lines@),
            titles_of(lv.take(i as int)) == Ok::<_, nat>(titles@),
        decreases lines.len() - i,
    {
        assert(lv.take(i + 1).drop_last() =~= lv.take(i as int));
        assert(lv.take(i + 1).last() == lines@[i as int]@);
        match decode_line(lines[i].as_str(), PAGE_PREFIX, PAGE_WIDTH) {
            LineDecode::Skipped => {},
            LineDecode::Malformed => {
                proof {
                    lemma_fold_lines_err(Map::empty(), lv, PAGE_PREFIX@, PAGE_WIDTH as nat, page_stepper(), i + 1);
                }
                return Err(MalformedRecord { line: i });
            },
            LineDecode::Fields(f) => {
                if !apply_page_tuples(&mut titles, &f) {
                    proof {
                        lemma_fold_lines_err(Map::empty(), lv, PAGE_PREFIX@, PAGE_WIDTH as nat, page_stepper(), i + 1);
                    }
                    return Err(MalformedRecord { line: i });
                }
            },
        }
        i += 1;
    }
    assert(lv.take(lines.len() as int) =~= lv);
    Ok(titles)
}

/// Reads the page dump's text line by line, as `load_titles_from_lines`.
pub fn load_titles(text: &str) -> (r: Result<TitleIndex, MalformedRecord>)
    ensures
        match r {
            Ok(t) => titles_of_text(text@) == Ok::<_, nat>(t@),
            Err(e) => titles_of_text(text@) == Err::<Map<Seq<char>, u32>, _>(e.line as nat),
        },
{
    let lines = split_lines(text);
    load_titles_from_lines(&lines)
}

} // verus!
