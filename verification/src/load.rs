//! Building a library from tabular records: the fixed column order
//! `NAME, POWER, CATEGORY, TAG x k, DESCRIPTION`, where `k` is the number of
//! header columns reading exactly `TAG`, power cells restricted to the seven
//! literal tier names, and empty tag cells ignored.

use vstd::prelude::*;
use crate::library::Library;
use crate::mark::{mark_has_tag, seq_has_str, strs_distinct, Mark};
use crate::power::Power;
use crate::results::Results;

verus! {

/// Why a load failed: a row too short for the expected columns, or a power
/// cell holding none of the seven tier literals. Either is fatal to the
/// whole load; no partial library is produced.
#[derive(Debug, Clone, Copy, PartialEq, Eq, Structural)]
pub enum LoadError {
    MalformedRow,
    UnknownPower,
}

/// The library together with the results history, as persisted snapshots
/// hold them.
#[derive(Debug)]
pub struct SaveFile {
    pub library: Library,
    pub results: Results,
}

/// Whether the cell reads one of the seven power tier literals.
pub open spec fn valid_power_lit(s: Seq<char>) -> bool {
    ||| s == "Poor"@
    ||| s == "Moderate"@
    ||| s == "Good"@
    ||| s == "Great"@
    ||| s == "Supreme"@
    ||| s == "Unique"@
    ||| s == "Bad Karma"@
}

/// The power tier a literal cell denotes.
pub open spec fn power_of_lit(s: Seq<char>) -> Power {
    if s == "Poor"@ {
        Power::Poor
    } else if s == "Moderate"@ {
        Power::Moderate
    } else if s == "Good"@ {
        Power::Good
    } else if s == "Great"@ {
        Power::Great
    } else if s == "Supreme"@ {
        Power::Supreme
    } else if s == "Unique"@ {
        Power::Unique
    } else {
        Power::BadKarma
    }
}

/// How many header columns read exactly `TAG`.
pub open spec fn count_tag_headers(hs: Seq<String>) -> nat
    decreases hs.len(),
{
    if hs.len() == 0 {
        0
    } else {
        count_tag_headers(hs.drop_last()) + (if hs.last()@ == "TAG"@ {
            1nat
        } else {
            0nat
        })
    }
}

/// The category cell of record `i`.
pub open spec fn rowcat(rows: Seq<Vec<String>>, i: int) -> Seq<char> {
    rows[i]@[2]@
}

/// What is wrong with one record, if anything: the fields are read in
/// order, so a missing power cell is a malformed row, an unrecognized one a
/// power error, and missing tag or description cells malformed again.
pub open spec fn row_error(row: Seq<String>, tc: nat) -> Option<LoadError> {
    if row.len() < 2 {
        Some(LoadError::MalformedRow)
    } else if !valid_power_lit(row[1]@) {
        Some(LoadError::UnknownPower)
    } else if row.len() < tc + 4 {
        Some(LoadError::MalformedRow)
    } else {
        None
    }
}

/// Whether `m` is the mark one well-formed record describes: name, power,
/// category and description from their fixed columns, and the tag set
/// exactly the distinct non-empty tag cells.
pub open spec fn mark_of_row(m: Mark, row: Seq<String>, tc: nat) -> bool {
    &&& m.name@ == row[0]@
    &&& m.power == power_of_lit(row[1]@)
    &&& m.category@ == row[2]@
    &&& m.description@ == row[3 + tc as int]@
    &&& strs_distinct(m.tags@)
    &&& forall|j: int|
        3 <= j < 3 + tc && row[j]@.len() > 0 ==> mark_has_tag(m, row[j]@)
    &&& forall|k: int|
        0 <= k < m.tags@.len() ==> m.tags@[k]@.len() > 0 && (exists|j: int|
            3 <= j < 3 + tc && row[j]@ == m.tags@[k]@)
}

/// The power tier a cell denotes, when it holds one of the seven literals.
fn parse_power(s: &String) -> (r: Option<Power>)
    ensures
        r is Some <==> valid_power_lit(s@),
        r matches Some(p) ==> p == power_of_lit(s@),
{
    if *s == "Poor".to_owned() {
        Some(Power::Poor)
    } else if *s == "Moderate".to_owned() {
        Some(Power::Moderate)
    } else if *s == "Good".to_owned() {
        Some(Power::Good)
    } else if *s == "Great".to_owned() {
        Some(Power::Great)
    } else if *s == "Supreme".to_owned() {
        Some(Power::Supreme)
    } else if *s == "Unique".to_owned() {
        Some(Power::Unique)
    } else if *s == "Bad Karma".to_owned() {
        Some(Power::BadKarma)
    } else {
        None
    }
}

/// How many header columns read exactly `TAG`.
fn count_tag_headers_exec(headers: &Vec<String>) -> (r: usize)
    ensures
        r as nat == count_tag_headers(headers@),
{
    let mut tc: usize = 0;
    let mut h: usize = 0;
    proof {
        assert(headers@.take(0) =~= Seq::<String>::empty());
    }
    while h < headers.len()
        invariant
            h <= headers@.len(),
            tc as nat == count_tag_headers(headers@.take(h as int)),
            tc <= h,
        decreases headers@.len() - h,
    {
        proof {
            assert(headers@.take(h + 1).drop_last() =~= headers@.take(h as int));
            assert(headers@.take(h + 1).last() == headers@[h as int]);
        }
        if headers[h] == "TAG".to_owned() {
            tc += 1;
        }
        h += 1;
    }
    proof {
        assert(headers@.take(headers@.len() as int) =~= headers@);
    }
    tc
}

impl SaveFile {
    /// Build a library from tabular records: `headers` decides how many tag
    /// columns each record carries, and each record becomes one mark,
    /// loaded as available, with the category and tag index sets derived
    /// from all records. The first offending record aborts the whole load
    /// with its error; nothing partial is returned.
    pub fn parse_library_records(headers: &Vec<String>, rows: &Vec<Vec<String>>) -> (r: Result<
        SaveFile,
        LoadError,
    >)
        ensures
            ({
                let tc = count_tag_headers(headers@);
                &&& (r is Err <==> exists|i: int|
                    0 <= i < rows@.len() && row_error(rows@[i]@, tc) is Some)
                &&& (r matches Err(e) ==> exists|i: int|
                    {
                        &&& 0 <= i < rows@.len()
                        &&& row_error(rows@[i]@, tc) == Some(e)
                        &&& forall|j: int| 0 <= j < i ==> row_error(rows@[j]@, tc) is None
                    })
                &&& (r matches Ok(sf) ==> {
                    let lib = sf.library;
                    &&& lib.wf()
                    &&& sf.results.results@.len() == 0
                    &&& lib.marks@.len() == rows@.len()
                    &&& lib.available@.len() == rows@.len()
                    &&& forall|i: int| 0 <= i < rows@.len() ==> lib.available@[i]
                    &&& forall|i: int|
                        0 <= i < rows@.len() ==> mark_of_row(lib.marks@[i], rows@[i]@, tc)
                    &&& forall|c: Seq<char>|
                        #[trigger] seq_has_str(lib.categories@, c) <==> (c.len() > 0 && exists|
                        i: int,
                        |
                            0 <= i < rows@.len() && rowcat(rows@, i) == c)
                    &&& forall|t: Seq<char>|
                        #[trigger] seq_has_str(lib.tags@, t) <==> (exists|i: int|
                            0 <= i < lib.marks@.len() && mark_has_tag(lib.marks@[i], t))
                })
            }),
    {
        let ghost tcg = count_tag_headers(headers@);
        let tc = count_tag_headers_exec(headers);
        let mut marks: Vec<Mark> = Vec::new();
        let mut available: Vec<bool> = Vec::new();
        let mut categories: Vec<String> = Vec::new();
        let mut all_tags: Vec<String> = Vec::new();

        let mut i: usize = 0;
        while i < rows.len()
            invariant
                i <= rows@.len(),
                tc as nat == tcg,
                tcg == count_tag_headers(headers@),
                marks@.len() == i,
                available@.len() == i,
                forall|ii: int| 0 <= ii < i ==> available@[ii],
                forall|ii: int| 0 <= ii < i ==> mark_of_row(marks@[ii], rows@[ii]@, tcg),
                forall|ii: int| 0 <= ii < i ==> row_error(rows@[ii]@, tcg) is None,
                strs_distinct(categories@),
                forall|k: int| 0 <= k < categories@.len() ==> categories@[k]@.len() > 0,
                forall|c: Seq<char>|
                    #[trigger] seq_has_str(categories@, c) <==> (c.len() > 0 && exists|ii: int|
                        0 <= ii < i && rowcat(rows@, ii) == c),
                strs_distinct(all_tags@),
                forall|t: Seq<char>|
                    #[trigger] seq_has_str(all_tags@, t) <==> (exists|ii: int|
                        0 <= ii < i && mark_has_tag(marks@[ii], t)),
            decreases rows@.len() - i,
        {
            let row = &rows[i];
            let ghost rowv = rows@[i as int]@;
            if row.len() < 2 {
                return Err(LoadError::MalformedRow);
            }
            let power = match parse_power(&row[1]) {
                Some(p) => p,
                None => {
                    return Err(LoadError::UnknownPower);
                },
            };
            if row.len() < 4 || row.len() - 4 < tc {
                return Err(LoadError::MalformedRow);
            }
            proof {
                assert(row_error(rowv, tcg) is None);
            }

            let name = row[0].clone();
            let category = row[2].clone();
            let cell_filled = !row[2].as_str().is_empty();
            let cat_known = crate::mark::contains_str(&categories, &row[2]);
            let ghost cat_prev = categories@;
            if cell_filled && !cat_known {
                categories.push(row[2].clone());
            }
            proof {
                if cell_filled && !cat_known {
                    assert(categories@.drop_last() =~= cat_prev);
                    assert(categories@.last()@ == rowv[2]@);
                }
                assert forall|c: Seq<char>|
                    #[trigger] seq_has_str(categories@, c) implies (c.len() > 0 && exists|ii: int|
                    0 <= ii <= i && rowcat(rows@, ii) == c) by {
                    let k = choose|k: int| 0 <= k < categories@.len() && categories@[k]@ == c;
                    if k < cat_prev.len() {
                        assert(cat_prev[k]@ == c);
                        assert(seq_has_str(cat_prev, c));
                        let ii = choose|ii: int| 0 <= ii < i && rowcat(rows@, ii) == c;
                        assert(0 <= ii <= i && rowcat(rows@, ii) == c);
                    } else {
                        assert(categories@[k]@ == rowv[2]@);
                        assert(rowcat(rows@, i as int) == c);
                    }
                }
                assert forall|c: Seq<char>|
                    c.len() > 0 && (exists|ii: int| 0 <= ii <= i && rowcat(rows@, ii) == c)
                        implies #[trigger] seq_has_str(categories@, c) by {
                    let ii = choose|ii: int| 0 <= ii <= i && rowcat(rows@, ii) == c;
                    if ii < i {
                        assert(seq_has_str(cat_prev, c));
                        let k = choose|k: int| 0 <= k < cat_prev.len() && cat_prev[k]@ == c;
                        assert(categories@[k]@ == c);
                    } else {
                        assert(rowv[2]@ == c);
                        if cat_known {
                            let k = choose|k: int| 0 <= k < cat_prev.len() && cat_prev[k]@ == c;
                            assert(categories@[k]@ == c);
                        } else {
                            assert(cell_filled);
                            assert(categories@[categories@.len() - 1]@ == c);
                        }
                    }
                }
            }

            let tag_end: usize = 3 + tc;
            let mut tags: Vec<String> = Vec::new();
            let mut j: usize = 3;
            while j < tag_end
                invariant
                    3 <= j <= tag_end,
                    tag_end == 3 + tc,
                    tc as nat == tcg,
                    i < rows@.len(),
                    rowv == rows@[i as int]@,
                    rowv.len() >= tcg + 4,
                    strs_distinct(tags@),
                    forall|k: int|
                        0 <= k < tags@.len() ==> tags@[k]@.len() > 0 && (exists|jj: int|
                            3 <= jj < j && rowv[jj]@ == tags@[k]@),
                    forall|jj: int|
                        3 <= jj < j && rowv[jj]@.len() > 0 ==> seq_has_str(tags@, rowv[jj]@),
                decreases tag_end - j,
            {
                let cell = &rows[i][j];
                let ghost tags_prev = tags@;
                if !cell.as_str().is_empty() && !crate::mark::contains_str(&tags, cell) {
                    tags.push(cell.clone());
                    proof {
                        assert(tags@.drop_last() =~= tags_prev);
                        assert(tags@[tags@.len() - 1]@ == rowv[j as int]@);
                        assert forall|k: int|
                            0 <= k < tags@.len() implies tags@[k]@.len() > 0 && (exists|jj: int|
                            3 <= jj < j + 1 && rowv[jj]@ == tags@[k]@) by {
                            if k < tags_prev.len() {
                                assert(tags@[k] == tags_prev[k]);
                                let jj = choose|jj: int| 3 <= jj < j && rowv[jj]@ == tags_prev[k]@;
                                assert(rowv[jj]@ == tags@[k]@);
                            } else {
                                assert(rowv[j as int]@ == tags@[k]@);
                            }
                        }
                        assert forall|jj: int|
                            3 <= jj < j + 1 && rowv[jj]@.len() > 0 implies seq_has_str(
                            tags@,
                            rowv[jj]@,
                        ) by {
                            if jj < j {
                                assert(seq_has_str(tags_prev, rowv[jj]@));
                                let k = choose|k: int|
                                    0 <= k < tags_prev.len() && tags_prev[k]@ == rowv[jj]@;
                                assert(tags@[k]@ == rowv[jj]@);
                            } else {
                                assert(tags@[tags@.len() - 1]@ == rowv[jj]@);
                            }
                        }
                    }
                } else {
                    proof {
                        assert forall|jj: int|
                            3 <= jj < j + 1 && rowv[jj]@.len() > 0 implies seq_has_str(
                            tags@,
                            rowv[jj]@,
                        ) by {
                        }
                    }
                }
                j += 1;
            }

            let description = row[3 + tc].clone();
            let mark = Mark { name, power, category, tags, description };
            proof {
                assert(mark_of_row(mark, rowv, tcg));
            }

            let mut k: usize = 0;
            while k < mark.tags.len()
                invariant
                    k <= mark.tags@.len(),
                    strs_distinct(all_tags@),
                    marks@.len() == i,
                    forall|t: Seq<char>|
                        #[trigger] seq_has_str(all_tags@, t) <==> ((exists|ii: int|
                            0 <= ii < i && mark_has_tag(marks@[ii], t)) || (exists|kk: int|
                            0 <= kk < k && mark.tags@[kk]@ == t)),
                decreases mark.tags@.len() - k,
            {
                let known = crate::mark::contains_str(&all_tags, &mark.tags[k]);
                let ghost at_prev = all_tags@;
                if !known {
                    all_tags.push(mark.tags[k].clone());
                }
                proof {
                    if !known {
                        assert(all_tags@.drop_last() =~= at_prev);
                        assert(all_tags@[all_tags@.len() - 1]@ == mark.tags@[k as int]@);
                    }
                    assert forall|t: Seq<char>|
                        #[trigger] seq_has_str(all_tags@, t) implies ((exists|ii: int|
                        0 <= ii < i && mark_has_tag(marks@[ii], t)) || (exists|kk: int|
                        0 <= kk < k + 1 && mark.tags@[kk]@ == t)) by {
                        let w = choose|w: int| 0 <= w < all_tags@.len() && all_tags@[w]@ == t;
                        if w < at_prev.len() {
                            assert(at_prev[w]@ == t);
                            assert(seq_has_str(at_prev, t));
                        } else {
                            assert(mark.tags@[k as int]@ == t);
                        }
                    }
                    assert forall|t: Seq<char>|
                        ((exists|ii: int| 0 <= ii < i && mark_has_tag(marks@[ii], t)) || (exists|
                        kk: int,
                        |
                            0 <= kk < k + 1 && mark.tags@[kk]@ == t)) implies #[trigger] seq_has_str(
                        all_tags@,
                        t,
                    ) by {
                        if exists|ii: int| 0 <= ii < i && mark_has_tag(marks@[ii], t) {
                            assert(seq_has_str(at_prev, t));
                            let w = choose|w: int| 0 <= w < at_prev.len() && at_prev[w]@ == t;
                            assert(all_tags@[w]@ == t);
                        } else {
                            let kk = choose|kk: int| 0 <= kk < k + 1 && mark.tags@[kk]@ == t;
                            if kk < k {
                                assert(seq_has_str(at_prev, t));
                                let w = choose|w: int| 0 <= w < at_prev.len() && at_prev[w]@ == t;
                                assert(all_tags@[w]@ == t);
                            } else {
                                if known {
                                    assert(seq_has_str(at_prev, mark.tags@[k as int]@));
                                    let w = choose|w: int|
                                        0 <= w < at_prev.len() && at_prev[w]@ == t;
                                    assert(all_tags@[w]@ == t);
                                } else {
                                    assert(all_tags@[all_tags@.len() - 1]@ == t);
                                }
                            }
                        }
                    }
                }
                k += 1;
            }

            let ghost marks_prev = marks@;
            marks.push(mark);
            available.push(true);
            proof {
                assert forall|ii: int|
                    0 <= ii < i + 1 implies mark_of_row(marks@[ii], rows@[ii]@, tcg) by {
                    if ii < i {
                        assert(marks@[ii] == marks_prev[ii]);
                    } else {
                        assert(marks@[ii] == mark);
                    }
                }
                assert forall|t: Seq<char>|
                    #[trigger] seq_has_str(all_tags@, t) <==> (exists|ii: int|
                        0 <= ii < i + 1 && mark_has_tag(marks@[ii], t)) by {
                    if seq_has_str(all_tags@, t) {
                        if exists|ii: int| 0 <= ii < i && mark_has_tag(marks_prev[ii], t) {
                            let ii = choose|ii: int|
                                0 <= ii < i && mark_has_tag(marks_prev[ii], t);
                            assert(marks@[ii] == marks_prev[ii]);
                        } else {
                            assert(exists|kk: int|
                                0 <= kk < mark.tags@.len() && mark.tags@[kk]@ == t);
                            assert(mark_has_tag(mark, t));
                            assert(marks@[i as int] == mark);
                        }
                    } else {
                        if exists|ii: int| 0 <= ii < i + 1 && mark_has_tag(marks@[ii], t) {
                            let ii = choose|ii: int|
                                0 <= ii < i + 1 && mark_has_tag(marks@[ii], t);
                            if ii < i {
                                assert(marks@[ii] == marks_prev[ii]);
                            } else {
                                assert(marks@[ii] == mark);
                                let kk = choose|kk: int|
                                    0 <= kk < mark.tags@.len() && mark.tags@[kk]@ == t;
                                assert(mark.tags@[kk]@ == t);
                            }
                        }
                    }
                }
            }
            i += 1;
        }

        let library = Library { marks, available, categories, tags: all_tags };
        proof {
            assert forall|kk: int, jj: int|
                0 <= kk < library.marks@.len() && 0 <= jj < library.marks@[kk].tags@.len()
                    implies seq_has_str(library.tags@, library.marks@[kk].tags@[jj]@) by {
                assert(mark_has_tag(library.marks@[kk], library.marks@[kk].tags@[jj]@));
            }
            assert forall|kk: int|
                0 <= kk < library.marks@.len() && library.marks@[kk].category@
                    != Seq::<char>::empty() implies seq_has_str(
                library.categories@,
                library.marks@[kk].category@,
            ) by {
                let cat = library.marks@[kk].category@;
                if cat.len() == 0 {
                    assert(cat =~= Seq::<char>::empty());
                }
                assert(cat.len() > 0);
                assert(rowcat(rows@, kk) == cat);
            }
        }
        Ok(SaveFile { library, results: Results::new() })
    }
}

} // verus!
