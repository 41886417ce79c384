//! Reading a distance matrix written as text: one row per line, the entries
//! separated by white space. Lines that start with `#` and blank lines are
//! skipped. The entries are handed back as text for the caller to turn into
//! numbers; `square_rows` then checks that there are as many rows as cities.

use vstd::prelude::*;
use crate::text::{chars_of, fields, lemma_fields, lemma_trim_nonempty, split_fields, trim, trim_chars};

verus! {

/// Why a matrix file cannot be read.
pub enum MatrixFileError {
    /// The number of rows is not the number of cities.
    RowCountMismatch,
}

impl MatrixFileError {
    /// The text of the error.
    pub fn message(&self) -> (m: &'static str)
        ensures
            m@ == "The number of rows does not match the number of cities"@,
    {
        "The number of rows does not match the number of cities"
    }
}

/// A line that the reader skips: it starts with `#`, or it is blank.
pub open spec fn skipped_line(l: Seq<char>) -> bool {
    "#"@.is_prefix_of(l) || trim(l).len() == 0
}

/// The fields of a line of the matrix, or `None` for a line that is skipped.
pub fn row_fields(line: &str) -> (res: Option<Vec<String>>)
    ensures
        skipped_line(line@) ==> res is None,
        !skipped_line(line@) ==> (res matches Some(f) && f.deep_view() == fields(line@, false)),
{
    let l = chars_of(line);
    proof {
        reveal_strlit("#");
    }
    let commented = l.len() > 0 && l[0] == '#';
    proof {
        assert("#"@.len() == 1 && "#"@[0] == '#');
        if l@.len() > 0 {
            assert(("#"@ == l@.subrange(0, 1)) == (l@[0] == '#')) by {
                if l@[0] == '#' {
                    assert("#"@ =~= l@.subrange(0, 1));
                } else {
                    assert(l@.subrange(0, 1)[0] != "#"@[0]);
                }
            }
        }
    }
    assert(commented == "#"@.is_prefix_of(l@));
    if commented || trim_chars(l.as_slice()).len() == 0 {
        None
    } else {
        Some(split_fields(l.as_slice(), false))
    }
}

/// A line that is not skipped has at least one field.
pub proof fn lemma_kept_line_has_fields(l: Seq<char>)
    requires
        !skipped_line(l),
    ensures
        fields(l, false).len() > 0,
{
    lemma_trim_nonempty(l);
    lemma_fields(l, false);
}

/// The length of the first non-empty row, or 0 where there is none: the
/// number of cities.
pub open spec fn city_count<T>(rows: Seq<Vec<T>>) -> nat
    decreases rows.len(),
{
    if rows.len() == 0 {
        0
    } else if rows[0]@.len() > 0 {
        rows[0]@.len()
    } else {
        city_count(rows.drop_first())
    }
}

/// Accepts the rows when there are as many of them as cities (see
/// `city_count`); the rows are not otherwise checked.
pub fn square_rows<T>(rows: Vec<Vec<T>>) -> (res: Result<Vec<Vec<T>>, MatrixFileError>)
    ensures
        rows@.len() == city_count(rows@) ==> (res matches Ok(r) && r == rows),
        rows@.len() != city_count(rows@) ==> res is Err,
{
    let mut num_cities: usize = 0;
    let mut i: usize = 0;
    assert(rows@.skip(0) == rows@);
    while i < rows.len()
        invariant
            i <= rows@.len(),
            city_count(rows@) == if num_cities > 0 {
                num_cities as nat
            } else {
                city_count(rows@.skip(i as int))
            },
        decreases rows@.len() - i,
    {
        assert(rows@.skip(i as int)[0] == rows@[i as int]);
        assert(rows@.skip(i as int).drop_first() == rows@.skip(i + 1));
        if num_cities == 0 {
            num_cities = rows[i].len();
        }
        i = i + 1;
    }
    assert(rows@.skip(i as int) =~= seq![]);
    if rows.len() != num_cities {
        Err(MatrixFileError::RowCountMismatch)
    } else {
        Ok(rows)
    }
}

/// The number of cities is the length of the first non-empty row, and 0 when
/// every row is empty.
pub proof fn lemma_city_count_is_first_non_empty_row<T>(rows: Seq<Vec<T>>)
    ensures
        (forall|i: int| 0 <= i < rows.len() ==> (#[trigger] rows[i])@.len() == 0) ==> city_count(rows)
            == 0,
        forall|k: int|
            0 <= k < rows.len() && rows[k]@.len() > 0 && (forall|i: int|
                0 <= i < k ==> (#[trigger] rows[i])@.len() == 0) ==> city_count(rows)
                == (#[trigger] rows[k])@.len(),
    decreases rows.len(),
{
    if rows.len() > 0 {
        let rest = rows.drop_first();
        lemma_city_count_is_first_non_empty_row(rest);
        if forall|i: int| 0 <= i < rows.len() ==> (#[trigger] rows[i])@.len() == 0 {
            assert(rows[0]@.len() == 0);
            assert forall|i: int| 0 <= i < rest.len() implies (#[trigger] rest[i])@.len() == 0 by {
                assert(rest[i] == rows[i + 1]);
            }
        }
        assert forall|k: int|
            0 <= k < rows.len() && rows[k]@.len() > 0 && (forall|i: int|
                0 <= i < k ==> (#[trigger] rows[i])@.len() == 0) implies city_count(rows)
            == (#[trigger] rows[k])@.len() by {
            if k > 0 {
                assert(rows[0]@.len() == 0);
                assert(rest[k - 1] == rows[k]);
                assert forall|i: int| 0 <= i < k - 1 implies (#[trigger] rest[i])@.len() == 0 by {
                    assert(rest[i] == rows[i + 1]);
                }
            }
        }
    }
}

} // verus!
