//! Reading a TSPLIB `.tsp` file.
//!
//! The reader finds the `DIMENSION` of the instance and the fields of its
//! `EDGE_WEIGHT_SECTION` (a full distance matrix, row by row) or, when the
//! file has none, the coordinates of its `NODE_COORD_SECTION`. The fields are
//! handed back as text: turning them into numbers, and coordinates into
//! distances, is left to the caller, which then gives the numbers back to
//! `edge_weight_matrix` or the coordinates to `check_coordinate_count`.

use vstd::prelude::*;
use crate::decimal::{decimal_value, is_digit, lemma_decimal_prefix, parse_usize, parsed_usize, without_plus};
use crate::matrix::{is_square, rows_view};
use crate::text::{
    chars_of, contains, contains_chars, fields, has_prefix, lemma_fields_of_trim, split_fields, trim,
    trim_chars,
};

verus! {

/// Why a `.tsp` file cannot be read.
pub enum TspError {
    /// No line gives a readable `DIMENSION`.
    MissingDimension,
    /// The edge weight section holds fewer than `DIMENSION` squared numbers.
    NotEnoughNumbers,
    /// The node coordinate section does not hold `DIMENSION` nodes.
    CoordinateCountMismatch,
    /// The file has neither an edge weight nor a node coordinate section.
    NoSection,
}

impl TspError {
    /// The text of the error.
    pub fn message(&self) -> (m: &'static str)
        ensures
            *self is MissingDimension ==> m@ == "Could not find DIMENSION in the .tsp file"@,
            *self is NotEnoughNumbers ==> m@ == "Not enough numbers in EDGE_WEIGHT_SECTION"@,
            *self is CoordinateCountMismatch ==> m@
                == "Number of coordinates does not match DIMENSION"@,
            *self is NoSection ==> m@
                == "No valid section (EDGE_WEIGHT_SECTION or NODE_COORD_SECTION) found in .tsp file"@,
    {
        match self {
            TspError::MissingDimension => "Could not find DIMENSION in the .tsp file",
            TspError::NotEnoughNumbers => "Not enough numbers in EDGE_WEIGHT_SECTION",
            TspError::CoordinateCountMismatch => "Number of coordinates does not match DIMENSION",
            TspError::NoSection =>
                "No valid section (EDGE_WEIGHT_SECTION or NODE_COORD_SECTION) found in .tsp file",
        }
    }
}

/// The data section that a `.tsp` file holds, as text.
pub enum TspSection {
    /// The fields of the edge weight section, in reading order.
    EdgeWeights(Vec<String>),
    /// The `x` and `y` fields of each node of the node coordinate section.
    NodeCoords(Vec<(String, String)>),
}

/// What a `.tsp` file holds: its dimension and its data section.
pub struct TspLayout {
    pub dimension: usize,
    pub section: TspSection,
}

/// A line that sets the dimension: it starts with `DIMENSION` and has at
/// least two fields when `':'` also separates fields.
pub open spec fn dimension_line(l: Seq<char>) -> bool {
    "DIMENSION"@.is_prefix_of(l) && fields(l, true).len() >= 2
}

/// The dimension that the lines give: the last line that sets it decides,
/// with its second field read as a `usize` (`None` where that fails).
pub open spec fn dimension_of(lines: Seq<Seq<char>>) -> Option<usize>
    decreases lines.len(),
{
    if lines.len() == 0 {
        None
    } else if dimension_line(lines.last()) {
        parsed_usize(fields(lines.last(), true)[1])
    } else {
        dimension_of(lines.drop_last())
    }
}

/// Some line contains `keyword`.
pub open spec fn has_line_with(lines: Seq<Seq<char>>, keyword: Seq<char>) -> bool {
    exists|i: int| 0 <= i < lines.len() && contains(lines[i], keyword)
}

/// The fields of the edge weight section: those of each line after a line
/// that contains `EDGE_WEIGHT_SECTION` (such lines themselves are skipped),
/// up to the first line that trims to `EOF` or contains
/// `DISPLAY_DATA_SECTION`. `reading` says whether the section has begun.
pub open spec fn edge_weight_fields(lines: Seq<Seq<char>>, reading: bool) -> Seq<Seq<char>>
    decreases lines.len(),
{
    if lines.len() == 0 {
        seq![]
    } else {
        let l = lines[0];
        let rest = lines.drop_first();
        if contains(l, "EDGE_WEIGHT_SECTION"@) {
            edge_weight_fields(rest, true)
        } else if reading {
            let t = trim(l);
            if t == "EOF"@ || contains(t, "DISPLAY_DATA_SECTION"@) {
                seq![]
            } else {
                fields(t, false) + edge_weight_fields(rest, true)
            }
        } else {
            edge_weight_fields(rest, false)
        }
    }
}

/// The second and third fields of each line of at least three fields after a
/// line that contains `NODE_COORD_SECTION` (such lines themselves are
/// skipped), up to the first line that trims to `EOF`.
pub open spec fn coordinate_fields(lines: Seq<Seq<char>>, reading: bool) -> Seq<
    (Seq<char>, Seq<char>),
>
    decreases lines.len(),
{
    if lines.len() == 0 {
        seq![]
    } else {
        let l = lines[0];
        let rest = lines.drop_first();
        if contains(l, "NODE_COORD_SECTION"@) {
            coordinate_fields(rest, true)
        } else if reading {
            let t = trim(l);
            if t == "EOF"@ {
                seq![]
            } else {
                let p = fields(t, false);
                if p.len() >= 3 {
                    seq![(p[1], p[2])] + coordinate_fields(rest, true)
                } else {
                    coordinate_fields(rest, true)
                }
            }
        } else {
            coordinate_fields(rest, false)
        }
    }
}

/// Pairs of strings, each taken by its view.
pub open spec fn pairs_view(c: Seq<(String, String)>) -> Seq<(Seq<char>, Seq<char>)> {
    c.map_values(|p: (String, String)| (p.0@, p.1@))
}

/// The characters of each line.
fn lines_chars(lines: &Vec<String>) -> (res: Vec<Vec<char>>)
    ensures
        rows_view(res@) == lines.deep_view(),
{
    let mut res: Vec<Vec<char>> = Vec::new();
    let mut i: usize = 0;
    while i < lines.len()
        invariant
            i <= lines@.len(),
            res@.len() == i,
            forall|k: int| 0 <= k < i ==> #[trigger] res@[k]@ == lines@[k]@,
        decreases lines@.len() - i,
    {
        res.push(chars_of(lines[i].as_str()));
        i = i + 1;
    }
    assert(rows_view(res@) =~= lines.deep_view());
    res
}

/// The dimension that the lines give (see `dimension_of`).
fn find_dimension(lines: &Vec<Vec<char>>) -> (res: Option<usize>)
    ensures
        res == dimension_of(rows_view(lines@)),
{
    let keyword = chars_of("DIMENSION");
    let ghost ls = rows_view(lines@);
    let mut dim: Option<usize> = None;
    let mut i: usize = 0;
    assert(ls.take(0) =~= seq![]);
    while i < lines.len()
        invariant
            i <= lines@.len(),
            ls == rows_view(lines@),
            keyword@ == "DIMENSION"@,
            dim == dimension_of(ls.take(i as int)),
        decreases lines@.len() - i,
    {
        let l = lines[i].as_slice();
        assert(ls.take(i + 1).drop_last() == ls.take(i as int));
        assert(ls.take(i + 1).last() == l@);
        if has_prefix(l, keyword.as_slice()) {
            let parts = split_fields(l, true);
            if parts.len() >= 2 {
                assert(parts.deep_view()[1] == parts@[1]@);
                let p = chars_of(parts[1].as_str());
                dim = parse_usize(p.as_slice());
            }
        }
        i = i + 1;
    }
    assert(ls.take(lines@.len() as int) == ls);
    dim
}

/// Whether some line contains `keyword`.
fn any_line_contains(lines: &Vec<Vec<char>>, keyword: &[char]) -> (b: bool)
    ensures
        b == has_line_with(rows_view(lines@), keyword@),
{
    let mut i: usize = 0;
    while i < lines.len()
        invariant
            i <= lines@.len(),
            forall|k: int| 0 <= k < i ==> !contains(#[trigger] rows_view(lines@)[k], keyword@),
        decreases lines@.len() - i,
    {
        if contains_chars(lines[i].as_slice(), keyword) {
            assert(contains(rows_view(lines@)[i as int], keyword@));
            return true;
        }
        i = i + 1;
    }
    false
}

/// Whether `a` and `b` hold the same characters.
fn same_chars(a: &[char], b: &[char]) -> (r: bool)
    ensures
        r == (a@ == b@),
{
    if a.len() != b.len() {
        return false;
    }
    let r = has_prefix(a, b);
    proof {
        if r {
            assert(a@ =~= b@);
        }
    }
    r
}

/// The fields of the edge weight section (see `edge_weight_fields`).
fn collect_edge_weights(lines: &Vec<Vec<char>>) -> (res: Vec<String>)
    ensures
        res.deep_view() == edge_weight_fields(rows_view(lines@), false),
{
    let start_keyword = chars_of("EDGE_WEIGHT_SECTION");
    let end_keyword = chars_of("EOF");
    let display_keyword = chars_of("DISPLAY_DATA_SECTION");
    let ghost ls = rows_view(lines@);
    let mut acc: Vec<String> = Vec::new();
    let mut reading = false;
    let mut i: usize = 0;
    assert(ls.skip(0) == ls);
    assert(acc.deep_view() =~= seq![]);
    while i < lines.len()
        invariant
            i <= lines@.len(),
            ls == rows_view(lines@),
            start_keyword@ == "EDGE_WEIGHT_SECTION"@,
            end_keyword@ == "EOF"@,
            display_keyword@ == "DISPLAY_DATA_SECTION"@,
            edge_weight_fields(ls, false) == acc.deep_view() + edge_weight_fields(
                ls.skip(i as int),
                reading,
            ),
        decreases lines@.len() - i,
    {
        let l = lines[i].as_slice();
        assert(ls.skip(i as int)[0] == l@);
        assert(ls.skip(i as int).drop_first() == ls.skip(i + 1));
        if contains_chars(l, start_keyword.as_slice()) {
            reading = true;
        } else if reading {
            let t = trim_chars(l);
            if same_chars(t.as_slice(), end_keyword.as_slice()) || contains_chars(
                t.as_slice(),
                display_keyword.as_slice(),
            ) {
                assert(acc.deep_view() + seq![] =~= acc.deep_view());
                return acc;
            }
            let mut parts = split_fields(t.as_slice(), false);
            let ghost before = acc.deep_view();
            let ghost added = parts.deep_view();
            acc.append(&mut parts);
            assert(acc.deep_view() =~= before + added);
            assert(before + (added + edge_weight_fields(ls.skip(i + 1), true)) =~= acc.deep_view()
                + edge_weight_fields(ls.skip(i + 1), true));
        }
        i = i + 1;
    }
    assert(ls.skip(i as int) =~= seq![]);
    assert(acc.deep_view() + seq![] =~= acc.deep_view());
    acc
}

/// The coordinate fields of the node coordinate section (see
/// `coordinate_fields`).
fn collect_coordinates(lines: &Vec<Vec<char>>) -> (res: Vec<(String, String)>)
    ensures
        pairs_view(res@) == coordinate_fields(rows_view(lines@), false),
{
    let start_keyword = chars_of("NODE_COORD_SECTION");
    let end_keyword = chars_of("EOF");
    let ghost ls = rows_view(lines@);
    let mut acc: Vec<(String, String)> = Vec::new();
    let mut reading = false;
    let mut i: usize = 0;
    assert(ls.skip(0) == ls);
    assert(pairs_view(acc@) =~= seq![]);
    while i < lines.len()
        invariant
            i <= lines@.len(),
            ls == rows_view(lines@),
            start_keyword@ == "NODE_COORD_SECTION"@,
            end_keyword@ == "EOF"@,
            coordinate_fields(ls, false) == pairs_view(acc@) + coordinate_fields(
                ls.skip(i as int),
                reading,
            ),
        decreases lines@.len() - i,
    {
        let l = lines[i].as_slice();
        assert(ls.skip(i as int)[0] == l@);
        assert(ls.skip(i as int).drop_first() == ls.skip(i + 1));
        if contains_chars(l, start_keyword.as_slice()) {
            reading = true;
        } else if reading {
            let t = trim_chars(l);
            if same_chars(t.as_slice(), end_keyword.as_slice()) {
                assert(pairs_view(acc@) + seq![] =~= pairs_view(acc@));
                return acc;
            }
            let parts = split_fields(t.as_slice(), false);
            if parts.len() >= 3 {
                let ghost before = pairs_view(acc@);
                let x = parts[1].clone();
                let y = parts[2].clone();
                assert(x@ == parts.deep_view()[1]);
                assert(y@ == parts.deep_view()[2]);
                acc.push((x, y));
                assert(pairs_view(acc@) =~= before + seq![(x@, y@)]);
                assert(before + (seq![(x@, y@)] + coordinate_fields(ls.skip(i + 1), true))
                    =~= pairs_view(acc@) + coordinate_fields(ls.skip(i + 1), true));
            }
        }
        i = i + 1;
    }
    assert(ls.skip(i as int) =~= seq![]);
    assert(pairs_view(acc@) + seq![] =~= pairs_view(acc@));
    acc
}

/// What the lines of a `.tsp` file hold, as `read_tsp_layout` states it.
pub open spec fn layout_spec(lines: Seq<Seq<char>>, layout: TspLayout) -> bool {
    &&& dimension_of(lines) == Some(layout.dimension)
    &&& if has_line_with(lines, "EDGE_WEIGHT_SECTION"@) {
        layout.section matches TspSection::EdgeWeights(t) && t.deep_view() == edge_weight_fields(
            lines,
            false,
        )
    } else {
        layout.section matches TspSection::NodeCoords(c) && pairs_view(c@) == coordinate_fields(
            lines,
            false,
        )
    }
}

/// Reads the lines of a `.tsp` file: its dimension, then its edge weight
/// section if some line contains `EDGE_WEIGHT_SECTION`, else its node
/// coordinate section if some line contains `NODE_COORD_SECTION`.
pub fn read_tsp_layout(lines: &Vec<String>) -> (res: Result<TspLayout, TspError>)
    ensures
        dimension_of(lines.deep_view()) is None ==> res matches Err(TspError::MissingDimension),
        dimension_of(lines.deep_view()) is Some && !has_line_with(
            lines.deep_view(),
            "EDGE_WEIGHT_SECTION"@,
        ) && !has_line_with(lines.deep_view(), "NODE_COORD_SECTION"@) ==> res matches Err(
            TspError::NoSection,
        ),
        dimension_of(lines.deep_view()) is Some && (has_line_with(
            lines.deep_view(),
            "EDGE_WEIGHT_SECTION"@,
        ) || has_line_with(lines.deep_view(), "NODE_COORD_SECTION"@)) ==> (res matches Ok(layout)
            && layout_spec(lines.deep_view(), layout)),
{
    let cs = lines_chars(lines);
    let dimension = match find_dimension(&cs) {
        Some(d) => d,
        None => {
            return Err(TspError::MissingDimension);
        },
    };
    let edge_keyword = chars_of("EDGE_WEIGHT_SECTION");
    if any_line_contains(&cs, edge_keyword.as_slice()) {
        let tokens = collect_edge_weights(&cs);
        return Ok(TspLayout { dimension, section: TspSection::EdgeWeights(tokens) });
    }
    let node_keyword = chars_of("NODE_COORD_SECTION");
    if any_line_contains(&cs, node_keyword.as_slice()) {
        let coords = collect_coordinates(&cs);
        return Ok(TspLayout { dimension, section: TspSection::NodeCoords(coords) });
    }
    Err(TspError::NoSection)
}

/// The edge weight matrix of a file of dimension `dimension` whose edge
/// weight section holds `numbers`: row `i` is made of the numbers
/// `i * dimension` to `i * dimension + dimension - 1`. Numbers beyond the
/// first `dimension * dimension` are ignored; fewer of them are an error.
pub fn edge_weight_matrix<T: Copy>(numbers: &Vec<T>, dimension: usize) -> (res: Result<
    Vec<Vec<T>>,
    TspError,
>)
    ensures
        numbers@.len() < dimension * dimension ==> res matches Err(TspError::NotEnoughNumbers),
        numbers@.len() >= dimension * dimension ==> (res matches Ok(m) && is_square(
            rows_view(m@),
            dimension as int,
        ) && forall|i: int, j: int|
            0 <= i < dimension && 0 <= j < dimension ==> #[trigger] m@[i]@[j] == numbers@[i
                * dimension + j]),
{
    let count = numbers.len();
    let square = match dimension.checked_mul(dimension) {
        Some(x) => x,
        None => {
            return Err(TspError::NotEnoughNumbers);
        },
    };
    if count < square {
        return Err(TspError::NotEnoughNumbers);
    }
    let mut m: Vec<Vec<T>> = Vec::new();
    let mut i: usize = 0;
    let mut base: usize = 0;
    while i < dimension
        invariant
            i <= dimension,
            base == i * dimension,
            square == dimension * dimension,
            numbers@.len() >= square,
            m@.len() == i,
            forall|k: int| 0 <= k < i ==> #[trigger] m@[k]@.len() == dimension,
            forall|k: int, j: int|
                0 <= k < i && 0 <= j < dimension ==> #[trigger] m@[k]@[j] == numbers@[k
                    * dimension + j],
        decreases dimension - i,
    {
        assert(base + dimension <= square) by (nonlinear_arith)
            requires
                base == i * dimension,
                i < dimension,
                square == dimension * dimension,
        ;
        let mut row: Vec<T> = Vec::new();
        let mut j: usize = 0;
        while j < dimension
            invariant
                j <= dimension,
                base + dimension <= square,
                base == i * dimension,
                numbers@.len() >= square,
                row@.len() == j,
                forall|k: int| 0 <= k < j ==> #[trigger] row@[k] == numbers@[i * dimension + k],
            decreases dimension - j,
        {
            row.push(numbers[base + j]);
            j = j + 1;
        }
        m.push(row);
        assert(base + dimension == (i + 1) * dimension) by (nonlinear_arith)
            requires
                base == i * dimension,
        ;
        base = base + dimension;
        i = i + 1;
    }
    assert(is_square(rows_view(m@), dimension as int));
    Ok(m)
}

/// The node coordinate section must give exactly `dimension` nodes.
pub fn check_coordinate_count<T>(coordinates: &Vec<T>, dimension: usize) -> (res: Result<
    (),
    TspError,
>)
    ensures
        coordinates@.len() == dimension ==> res is Ok,
        coordinates@.len() != dimension ==> res matches Err(TspError::CoordinateCountMismatch),
{
    if coordinates.len() != dimension {
        Err(TspError::CoordinateCountMismatch)
    } else {
        Ok(())
    }
}

/// The white-space fields of each line, one line after the other.
pub open spec fn fields_of_lines(body: Seq<Seq<char>>) -> Seq<Seq<char>>
    decreases body.len(),
{
    if body.len() == 0 {
        seq![]
    } else {
        fields(body[0], false) + fields_of_lines(body.drop_first())
    }
}

/// A line inside the edge weight section that holds weights: not the
/// section header again, not `EOF`, not the display data header.
pub open spec fn weight_line(l: Seq<char>) -> bool {
    !contains(l, "EDGE_WEIGHT_SECTION"@) && trim(l) != "EOF"@ && !contains(
        trim(l),
        "DISPLAY_DATA_SECTION"@,
    )
}

/// A line that ends the edge weight section.
pub open spec fn weight_stop_line(l: Seq<char>) -> bool {
    !contains(l, "EDGE_WEIGHT_SECTION"@) && (trim(l) == "EOF"@ || contains(
        trim(l),
        "DISPLAY_DATA_SECTION"@,
    ))
}

proof fn lemma_edge_body(body: Seq<Seq<char>>, tail: Seq<Seq<char>>)
    requires
        forall|i: int| 0 <= i < body.len() ==> weight_line(#[trigger] body[i]),
    ensures
        edge_weight_fields(body + tail, true) == fields_of_lines(body) + edge_weight_fields(tail, true),
    decreases body.len(),
{
    if body.len() == 0 {
        assert(body + tail =~= tail);
        assert(fields_of_lines(body) + edge_weight_fields(tail, true) =~= edge_weight_fields(tail, true));
    } else {
        let rest = body.drop_first();
        assert forall|i: int| 0 <= i < rest.len() implies weight_line(#[trigger] rest[i]) by {
            assert(rest[i] == body[i + 1]);
        }
        lemma_edge_body(rest, tail);
        assert(weight_line(body[0]));
        assert((body + tail)[0] == body[0]);
        assert((body + tail).drop_first() =~= rest + tail);
        lemma_fields_of_trim(body[0], false);
        assert(fields(body[0], false) + (fields_of_lines(rest) + edge_weight_fields(tail, true))
            =~= (fields(body[0], false) + fields_of_lines(rest)) + edge_weight_fields(tail, true));
    }
}

proof fn lemma_edge_prefix(pre: Seq<Seq<char>>, rest: Seq<Seq<char>>)
    requires
        forall|i: int| 0 <= i < pre.len() ==> !contains(#[trigger] pre[i], "EDGE_WEIGHT_SECTION"@),
    ensures
        edge_weight_fields(pre + rest, false) == edge_weight_fields(rest, false),
    decreases pre.len(),
{
    if pre.len() == 0 {
        assert(pre + rest =~= rest);
    } else {
        let p2 = pre.drop_first();
        assert forall|i: int| 0 <= i < p2.len() implies !contains(
            #[trigger] p2[i],
            "EDGE_WEIGHT_SECTION"@,
        ) by {
            assert(p2[i] == pre[i + 1]);
        }
        lemma_edge_prefix(p2, rest);
        assert(!contains(pre[0], "EDGE_WEIGHT_SECTION"@));
        assert((pre + rest)[0] == pre[0]);
        assert((pre + rest).drop_first() =~= p2 + rest);
    }
}

/// The edge weight section is read from the line after the first line that
/// contains `EDGE_WEIGHT_SECTION`: lines before it give nothing, whatever
/// they hold (`EDGE_WEIGHT_TYPE`, `DISPLAY_DATA_TYPE` and the like), and the
/// fields are exactly the white-space fields of the lines that follow, in
/// order, up to a line that trims to `EOF` or contains
/// `DISPLAY_DATA_SECTION` (or to the end of the file).
pub proof fn lemma_edge_weight_section(
    pre: Seq<Seq<char>>,
    header: Seq<char>,
    body: Seq<Seq<char>>,
    stop: Seq<char>,
    post: Seq<Seq<char>>,
)
    requires
        forall|i: int| 0 <= i < pre.len() ==> !contains(#[trigger] pre[i], "EDGE_WEIGHT_SECTION"@),
        contains(header, "EDGE_WEIGHT_SECTION"@),
        forall|i: int| 0 <= i < body.len() ==> weight_line(#[trigger] body[i]),
        weight_stop_line(stop),
    ensures
        edge_weight_fields(pre + seq![header] + body + seq![stop] + post, false) == fields_of_lines(
            body,
        ),
        edge_weight_fields(pre + seq![header] + body, false) == fields_of_lines(body),
{
    let tail = seq![stop] + post;
    let x = body + tail;
    assert(pre + seq![header] + body + seq![stop] + post =~= pre + (seq![header] + x));
    lemma_edge_prefix(pre, seq![header] + x);
    assert((seq![header] + x)[0] == header);
    assert((seq![header] + x).drop_first() =~= x);
    lemma_edge_body(body, tail);
    assert(tail[0] == stop);
    assert(edge_weight_fields(tail, true) == Seq::<Seq<char>>::empty());
    assert(fields_of_lines(body) + Seq::<Seq<char>>::empty() =~= fields_of_lines(body));
    let y = body + Seq::<Seq<char>>::empty();
    assert(pre + seq![header] + body =~= pre + (seq![header] + y));
    lemma_edge_prefix(pre, seq![header] + y);
    assert((seq![header] + y)[0] == header);
    assert((seq![header] + y).drop_first() =~= y);
    lemma_edge_body(body, Seq::<Seq<char>>::empty());
}

/// The second and third white-space fields of each line that has at least
/// three, one line after the other.
pub open spec fn coordinates_of_lines(body: Seq<Seq<char>>) -> Seq<(Seq<char>, Seq<char>)>
    decreases body.len(),
{
    if body.len() == 0 {
        seq![]
    } else {
        let p = fields(body[0], false);
        (if p.len() >= 3 {
            seq![(p[1], p[2])]
        } else {
            seq![]
        }) + coordinates_of_lines(body.drop_first())
    }
}

/// A line inside the node coordinate section: not the section header again,
/// not `EOF`.
pub open spec fn node_line(l: Seq<char>) -> bool {
    !contains(l, "NODE_COORD_SECTION"@) && trim(l) != "EOF"@
}

/// A line that ends the node coordinate section.
pub open spec fn node_stop_line(l: Seq<char>) -> bool {
    !contains(l, "NODE_COORD_SECTION"@) && trim(l) == "EOF"@
}

proof fn lemma_node_body(body: Seq<Seq<char>>, tail: Seq<Seq<char>>)
    requires
        forall|i: int| 0 <= i < body.len() ==> node_line(#[trigger] body[i]),
    ensures
        coordinate_fields(body + tail, true) == coordinates_of_lines(body) + coordinate_fields(
            tail,
            true,
        ),
    decreases body.len(),
{
    if body.len() == 0 {
        assert(body + tail =~= tail);
        assert(coordinates_of_lines(body) + coordinate_fields(tail, true) =~= coordinate_fields(
            tail,
            true,
        ));
    } else {
        let rest = body.drop_first();
        assert forall|i: int| 0 <= i < rest.len() implies node_line(#[trigger] rest[i]) by {
            assert(rest[i] == body[i + 1]);
        }
        lemma_node_body(rest, tail);
        assert(node_line(body[0]));
        assert((body + tail)[0] == body[0]);
        assert((body + tail).drop_first() =~= rest + tail);
        lemma_fields_of_trim(body[0], false);
        let p = fields(body[0], false);
        let first: Seq<(Seq<char>, Seq<char>)> = if p.len() >= 3 {
            seq![(p[1], p[2])]
        } else {
            seq![]
        };
        assert(first + (coordinates_of_lines(rest) + coordinate_fields(tail, true)) =~= (first
            + coordinates_of_lines(rest)) + coordinate_fields(tail, true));
        if p.len() < 3 {
            assert(first + (coordinates_of_lines(rest) + coordinate_fields(tail, true))
                =~= coordinates_of_lines(rest) + coordinate_fields(tail, true));
        }
    }
}

proof fn lemma_node_prefix(pre: Seq<Seq<char>>, rest: Seq<Seq<char>>)
    requires
        forall|i: int| 0 <= i < pre.len() ==> !contains(#[trigger] pre[i], "NODE_COORD_SECTION"@),
    ensures
        coordinate_fields(pre + rest, false) == coordinate_fields(rest, false),
    decreases pre.len(),
{
    if pre.len() == 0 {
        assert(pre + rest =~= rest);
    } else {
        let p2 = pre.drop_first();
        assert forall|i: int| 0 <= i < p2.len() implies !contains(
            #[trigger] p2[i],
            "NODE_COORD_SECTION"@,
        ) by {
            assert(p2[i] == pre[i + 1]);
        }
        lemma_node_prefix(p2, rest);
        assert(!contains(pre[0], "NODE_COORD_SECTION"@));
        assert((pre + rest)[0] == pre[0]);
        assert((pre + rest).drop_first() =~= p2 + rest);
    }
}

/// The node coordinate section is read from the line after the first line
/// that contains `NODE_COORD_SECTION`: lines before it give nothing, and
/// every later line of at least three white-space fields, however it is
/// indented, gives its second and third fields, in order, up to a line that
/// trims to `EOF` (or to the end of the file).
pub proof fn lemma_node_coord_section(
    pre: Seq<Seq<char>>,
    header: Seq<char>,
    body: Seq<Seq<char>>,
    stop: Seq<char>,
    post: Seq<Seq<char>>,
)
    requires
        forall|i: int| 0 <= i < pre.len() ==> !contains(#[trigger] pre[i], "NODE_COORD_SECTION"@),
        contains(header, "NODE_COORD_SECTION"@),
        forall|i: int| 0 <= i < body.len() ==> node_line(#[trigger] body[i]),
        node_stop_line(stop),
    ensures
        coordinate_fields(pre + seq![header] + body + seq![stop] + post, false)
            == coordinates_of_lines(body),
        coordinate_fields(pre + seq![header] + body, false) == coordinates_of_lines(body),
{
    let tail = seq![stop] + post;
    let x = body + tail;
    assert(pre + seq![header] + body + seq![stop] + post =~= pre + (seq![header] + x));
    lemma_node_prefix(pre, seq![header] + x);
    assert((seq![header] + x)[0] == header);
    assert((seq![header] + x).drop_first() =~= x);
    lemma_node_body(body, tail);
    assert(tail[0] == stop);
    assert(coordinate_fields(tail, true) == Seq::<(Seq<char>, Seq<char>)>::empty());
    assert(coordinates_of_lines(body) + Seq::<(Seq<char>, Seq<char>)>::empty()
        =~= coordinates_of_lines(body));
    let y = body + Seq::<Seq<char>>::empty();
    assert(pre + seq![header] + body =~= pre + (seq![header] + y));
    lemma_node_prefix(pre, seq![header] + y);
    assert((seq![header] + y)[0] == header);
    assert((seq![header] + y).drop_first() =~= y);
    lemma_node_body(body, Seq::<Seq<char>>::empty());
}

/// Inside either section, what a line gives depends only on its trimmed
/// text: two lines that trim alike (and are not section headers) give the
/// same.
pub proof fn lemma_section_lines_read_trimmed(
    l1: Seq<char>,
    l2: Seq<char>,
    rest: Seq<Seq<char>>,
    reading: bool,
)
    requires
        trim(l1) == trim(l2),
    ensures
        !contains(l1, "NODE_COORD_SECTION"@) && !contains(l2, "NODE_COORD_SECTION"@)
            ==> coordinate_fields(seq![l1] + rest, reading) == coordinate_fields(
            seq![l2] + rest,
            reading,
        ),
        !contains(l1, "EDGE_WEIGHT_SECTION"@) && !contains(l2, "EDGE_WEIGHT_SECTION"@)
            ==> edge_weight_fields(seq![l1] + rest, reading) == edge_weight_fields(
            seq![l2] + rest,
            reading,
        ),
{
    assert((seq![l1] + rest)[0] == l1);
    assert((seq![l2] + rest)[0] == l2);
    assert((seq![l1] + rest).drop_first() =~= rest);
    assert((seq![l2] + rest).drop_first() =~= rest);
}

/// The dimension is read from the last line that sets it, as the whole of
/// its second field: it is given exactly when that field is an optional `+`
/// followed by decimal digits whose value fits a `usize`, and it is that
/// value. A line that does not set the dimension changes nothing.
pub proof fn lemma_dimension_reads_whole_field(lines: Seq<Seq<char>>, l: Seq<char>)
    ensures
        dimension_line(l) ==> ({
            let f = without_plus(fields(l, true)[1]);
            &&& (dimension_of(lines.push(l)) is Some <==> (f.len() > 0 && (forall|i: int|
                0 <= i < f.len() ==> is_digit(#[trigger] f[i])) && decimal_value(f) <= usize::MAX))
            &&& (dimension_of(lines.push(l)) matches Some(v) ==> v == decimal_value(f))
        }),
        !dimension_line(l) ==> dimension_of(lines.push(l)) == dimension_of(lines),
{
    assert(lines.push(l).last() == l);
    assert(lines.push(l).drop_last() =~= lines);
    if dimension_line(l) {
        let f = without_plus(fields(l, true)[1]);
        if forall|i: int| 0 <= i < f.len() ==> is_digit(#[trigger] f[i]) {
            lemma_decimal_prefix(f, 0);
        }
    }
}

} // verus!
