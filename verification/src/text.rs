//! Character-level helpers: white space as std's `char::is_whitespace`
//! defines it, splitting a line into fields, and searching for a keyword.

use vstd::prelude::*;

verus! {

/// The characters with the Unicode `White_Space` property, which is the set
/// that `char::is_whitespace`, `str::trim` and `str::split_whitespace` use.
pub open spec fn is_white(c: char) -> bool {
    let u = c as u32;
    ||| 0x09 <= u <= 0x0D
    ||| u == 0x20
    ||| u == 0x85
    ||| u == 0xA0
    ||| u == 0x1680
    ||| 0x2000 <= u <= 0x200A
    ||| u == 0x2028
    ||| u == 0x2029
    ||| u == 0x202F
    ||| u == 0x205F
    ||| u == 0x3000
}

/// Whether `c` is white space, as `char::is_whitespace` says.
pub fn is_white_char(c: char) -> (b: bool)
    ensures
        b == is_white(c),
{
    let u = c as u32;
    (0x09 <= u && u <= 0x0D) || u == 0x20 || u == 0x85 || u == 0xA0 || u == 0x1680 || (0x2000
        <= u && u <= 0x200A) || u == 0x2028 || u == 0x2029 || u == 0x202F || u == 0x205F || u
        == 0x3000
}

/// The characters of a string, in order.
pub fn chars_of(s: &str) -> (v: Vec<char>)
    ensures
        v@ == s@,
{
    let mut v: Vec<char> = Vec::new();
    for c in it: s.chars()
        invariant
            v@ == it.seq().take(it.index() as int),
            it.seq() == s@,
    {
        v.push(c);
    }
    v
}

/// `c` separates fields: white space, and also `':'` when `colon` is set.
pub open spec fn is_separator(c: char, colon: bool) -> bool {
    is_white(c) || (colon && c == ':')
}

/// Reads `s` from the left and gives the fields it has closed and the field
/// it is in the middle of.
pub open spec fn scan(s: Seq<char>, colon: bool) -> (Seq<Seq<char>>, Seq<char>)
    decreases s.len(),
{
    if s.len() == 0 {
        (seq![], seq![])
    } else {
        let (done, cur) = scan(s.drop_last(), colon);
        let c = s.last();
        if is_separator(c, colon) {
            if cur.len() > 0 {
                (done.push(cur), seq![])
            } else {
                (done, seq![])
            }
        } else {
            (done, cur.push(c))
        }
    }
}

/// The maximal runs of non-separator characters of `s`, left to right: what
/// `str::split_whitespace` gives, or, with `colon`, what splitting at `':'`
/// and white space and dropping the empty pieces gives.
pub open spec fn fields(s: Seq<char>, colon: bool) -> Seq<Seq<char>> {
    let (done, cur) = scan(s, colon);
    if cur.len() > 0 {
        done.push(cur)
    } else {
        done
    }
}

/// `String::push`: the string afterwards is the one before with `c` at its end.
#[verifier::external_body]
fn push_char(s: &mut String, c: char)
    ensures
        final(s)@ == old(s)@.push(c),
{
    s.push(c)
}

/// Splits `line` into its fields (see `fields`).
pub fn split_fields(line: &[char], colon: bool) -> (res: Vec<String>)
    ensures
        res.deep_view() == fields(line@, colon),
{
    let mut done: Vec<String> = Vec::new();
    let mut cur = String::new();
    let mut i: usize = 0;
    while i < line.len()
        invariant
            i <= line@.len(),
            scan(line@.take(i as int), colon) == (done.deep_view(), cur@),
        decreases line@.len() - i,
    {
        let c = line[i];
        assert(line@.take(i + 1).drop_last() == line@.take(i as int));
        let sep = is_white_char(c) || (colon && c == ':');
        if sep {
            if cur.unicode_len() > 0 {
                done.push(cur);
                cur = String::new();
            }
        } else {
            push_char(&mut cur, c);
        }
        i = i + 1;
    }
    assert(line@.take(line@.len() as int) == line@);
    if cur.unicode_len() > 0 {
        done.push(cur);
    }
    done
}

/// `s` with its leading white space removed.
pub open spec fn trim_start(s: Seq<char>) -> Seq<char>
    decreases s.len(),
{
    if s.len() > 0 && is_white(s[0]) {
        trim_start(s.drop_first())
    } else {
        s
    }
}

/// `s` with its trailing white space removed.
pub open spec fn trim_end(s: Seq<char>) -> Seq<char>
    decreases s.len(),
{
    if s.len() > 0 && is_white(s.last()) {
        trim_end(s.drop_last())
    } else {
        s
    }
}

/// `s` with white space removed at both ends, as `str::trim` gives it.
pub open spec fn trim(s: Seq<char>) -> Seq<char> {
    trim_end(trim_start(s))
}

/// `w` occurs in `s` starting at position `i`.
pub open spec fn occurs_at(s: Seq<char>, w: Seq<char>, i: int) -> bool {
    0 <= i && i + w.len() <= s.len() && s.subrange(i, i + w.len()) == w
}

/// `w` occurs somewhere in `s`, as `str::contains` says.
pub open spec fn contains(s: Seq<char>, w: Seq<char>) -> bool {
    exists|i: int| occurs_at(s, w, i)
}

/// Copies `s` with white space removed at both ends.
pub fn trim_chars(s: &[char]) -> (res: Vec<char>)
    ensures
        res@ == trim(s@),
{
    let n = s.len();
    let mut a: usize = 0;
    assert(s@.skip(0) == s@);
    while a < n && is_white_char(s[a])
        invariant
            a <= n,
            n == s@.len(),
            trim_start(s@) == trim_start(s@.skip(a as int)),
        decreases n - a,
    {
        assert(s@.skip(a as int).drop_first() == s@.skip(a + 1));
        a = a + 1;
    }
    assert(trim_start(s@) == s@.skip(a as int));
    let mut b: usize = n;
    assert(s@.subrange(a as int, b as int) == s@.skip(a as int));
    while b > a && is_white_char(s[b - 1])
        invariant
            a <= b <= n,
            n == s@.len(),
            trim(s@) == trim_end(s@.subrange(a as int, b as int)),
        decreases b - a,
    {
        assert(s@.subrange(a as int, b as int).drop_last() == s@.subrange(a as int, b - 1));
        b = b - 1;
    }
    let mut res: Vec<char> = Vec::new();
    let mut k: usize = a;
    while k < b
        invariant
            a <= k <= b <= n,
            n == s@.len(),
            res@ == s@.subrange(a as int, k as int),
        decreases b - k,
    {
        res.push(s[k]);
        k = k + 1;
        assert(res@ == s@.subrange(a as int, k as int));
    }
    res
}

/// Whether `w` is a prefix of `s`, as `str::starts_with` says.
pub fn has_prefix(s: &[char], w: &[char]) -> (b: bool)
    ensures
        b == w@.is_prefix_of(s@),
{
    if w.len() > s.len() {
        return false;
    }
    let mut i: usize = 0;
    while i < w.len()
        invariant
            i <= w@.len() <= s@.len(),
            forall|j: int| 0 <= j < i ==> s@[j] == w@[j],
        decreases w@.len() - i,
    {
        if s[i] != w[i] {
            assert(s@.subrange(0, w@.len() as int)[i as int] != w@[i as int]);
            return false;
        }
        i = i + 1;
    }
    assert(w@ == s@.subrange(0, w@.len() as int));
    true
}

/// Whether `w` occurs at position `i` of `s`.
fn occurs_at_exec(s: &[char], w: &[char], i: usize) -> (b: bool)
    requires
        i + w@.len() <= s@.len(),
    ensures
        b == occurs_at(s@, w@, i as int),
{
    let n = s.len();
    let mut j: usize = 0;
    while j < w.len()
        invariant
            n == s@.len(),
            j <= w@.len(),
            i + w@.len() <= s@.len(),
            forall|k: int| 0 <= k < j ==> s@[i + k] == w@[k],
        decreases w@.len() - j,
    {
        if s[i + j] != w[j] {
            assert(s@.subrange(i as int, i + w@.len())[j as int] != w@[j as int]);
            return false;
        }
        j = j + 1;
    }
    assert(s@.subrange(i as int, i + w@.len()) == w@);
    true
}

/// Whether `w` occurs in `s`, as `str::contains` says.
pub fn contains_chars(s: &[char], w: &[char]) -> (b: bool)
    ensures
        b == contains(s@, w@),
{
    if w.len() > s.len() {
        return false;
    }
    if w.len() == 0 {
        assert(s@.subrange(0, 0) == w@);
        assert(occurs_at(s@, w@, 0));
        return true;
    }
    let end = s.len() - w.len() + 1;
    let mut i: usize = 0;
    while i < end
        invariant
            end + w@.len() == s@.len() + 1,
            i <= end,
            forall|k: int| 0 <= k < i ==> !occurs_at(s@, w@, k),
        decreases end - i,
    {
        if occurs_at_exec(s, w, i) {
            return true;
        }
        i = i + 1;
    }
    false
}

/// Every field that `scan` has closed is non-empty, and no field holds a
/// separator; once `s` holds a non-separator, some field has begun.
proof fn lemma_scan(s: Seq<char>, colon: bool)
    ensures
        forall|k: int| 0 <= k < scan(s, colon).0.len() ==> #[trigger] scan(s, colon).0[k].len() > 0,
        forall|k: int, j: int|
            0 <= k < scan(s, colon).0.len() && 0 <= j < scan(s, colon).0[k].len() ==> !is_separator(
                #[trigger] scan(s, colon).0[k][j],
                colon,
            ),
        forall|j: int| 0 <= j < scan(s, colon).1.len() ==> !is_separator(#[trigger] scan(s, colon).1[j], colon),
        (exists|i: int| 0 <= i < s.len() && !is_separator(#[trigger] s[i], colon)) ==> scan(s, colon).0.len()
            + scan(s, colon).1.len() > 0,
    decreases s.len(),
{
    if s.len() > 0 {
        let p = s.drop_last();
        lemma_scan(p, colon);
        if exists|i: int| 0 <= i < s.len() && !is_separator(#[trigger] s[i], colon) {
            let i = choose|i: int| 0 <= i < s.len() && !is_separator(#[trigger] s[i], colon);
            if i < p.len() {
                assert(!is_separator(p[i], colon));
            }
        }
    }
}

/// The fields of a line are non-empty and hold no separator, and a line that
/// holds a non-separator has at least one field.
pub proof fn lemma_fields(s: Seq<char>, colon: bool)
    ensures
        forall|k: int| 0 <= k < fields(s, colon).len() ==> #[trigger] fields(s, colon)[k].len() > 0,
        forall|k: int, j: int|
            0 <= k < fields(s, colon).len() && 0 <= j < fields(s, colon)[k].len() ==> !is_separator(
                #[trigger] fields(s, colon)[k][j],
                colon,
            ),
        (exists|i: int| 0 <= i < s.len() && !is_separator(#[trigger] s[i], colon)) ==> fields(s, colon).len()
            > 0,
{
    lemma_scan(s, colon);
    let (done, cur) = scan(s, colon);
    if cur.len() > 0 {
        assert forall|k: int, j: int|
            0 <= k < fields(s, colon).len() && 0 <= j < fields(s, colon)[k].len() implies !is_separator(
            #[trigger] fields(s, colon)[k][j],
            colon,
        ) by {
            if k < done.len() {
                assert(fields(s, colon)[k] == done[k]);
            } else {
                assert(fields(s, colon)[k] == cur);
            }
        }
    }
}

/// `trim_start(s)` is `s` from some position on, and starts with a
/// non-white character unless it is empty.
proof fn lemma_trim_start(s: Seq<char>)
    ensures
        exists|k: int| 0 <= k <= s.len() && trim_start(s) == s.skip(k),
        trim_start(s).len() > 0 ==> !is_white(trim_start(s)[0]),
    decreases s.len(),
{
    if s.len() > 0 && is_white(s[0]) {
        lemma_trim_start(s.drop_first());
        let k = choose|k: int| 0 <= k <= s.drop_first().len() && trim_start(s.drop_first()) == s.drop_first().skip(k);
        assert(s.drop_first().skip(k) == s.skip(k + 1));
    } else {
        assert(s.skip(0) == s);
    }
}

/// A line that does not trim to nothing holds a non-white character.
pub proof fn lemma_trim_nonempty(s: Seq<char>)
    requires
        trim(s).len() > 0,
    ensures
        exists|i: int| 0 <= i < s.len() && !is_white(#[trigger] s[i]),
{
    lemma_trim_start(s);
    let t = trim_start(s);
    lemma_trim_end_prefix(t);
    let k = choose|k: int| 0 <= k <= s.len() && t == s.skip(k);
    assert(t.len() > 0);
    assert(!is_white(t[0]));
    assert(s[k] == t[0]);
}

/// `trim_end(t)` is a prefix of `t`.
proof fn lemma_trim_end_prefix(t: Seq<char>)
    ensures
        trim_end(t).len() <= t.len(),
        trim_end(t).len() > 0 ==> trim_end(t)[0] == t[0],
    decreases t.len(),
{
    if t.len() > 0 && is_white(t.last()) {
        lemma_trim_end_prefix(t.drop_last());
    }
}

/// A separator in front of a line does not change how it is read.
proof fn lemma_scan_leading_separator(c: char, s: Seq<char>, colon: bool)
    requires
        is_separator(c, colon),
    ensures
        scan(seq![c] + s, colon) == scan(s, colon),
    decreases s.len(),
{
    if s.len() == 0 {
        assert(seq![c] + s =~= seq![c]);
        assert(seq![c].drop_last() =~= Seq::<char>::empty());
        assert(s =~= Seq::<char>::empty());
        assert(scan(Seq::<char>::empty(), colon) == (Seq::<Seq<char>>::empty(), Seq::<char>::empty()));
        assert(scan(seq![c], colon) == (Seq::<Seq<char>>::empty(), Seq::<char>::empty()));
    } else {
        lemma_scan_leading_separator(c, s.drop_last(), colon);
        assert((seq![c] + s).drop_last() =~= seq![c] + s.drop_last());
        assert((seq![c] + s).last() == s.last());
    }
}

/// A separator at the end of a line does not change its fields.
proof fn lemma_fields_trailing_separator(s: Seq<char>, c: char, colon: bool)
    requires
        is_separator(c, colon),
    ensures
        fields(s.push(c), colon) == fields(s, colon),
{
    assert(s.push(c).drop_last() =~= s);
}

/// Trimming white space off a line does not change its fields: the fields of
/// a line are those of its trimmed text.
pub proof fn lemma_fields_of_trim(s: Seq<char>, colon: bool)
    ensures
        fields(trim(s), colon) == fields(s, colon),
        fields(trim_start(s), colon) == fields(s, colon),
{
    lemma_fields_of_trim_start(s, colon);
    lemma_fields_of_trim_end(trim_start(s), colon);
}

proof fn lemma_fields_of_trim_start(s: Seq<char>, colon: bool)
    ensures
        fields(trim_start(s), colon) == fields(s, colon),
    decreases s.len(),
{
    if s.len() > 0 && is_white(s[0]) {
        lemma_fields_of_trim_start(s.drop_first(), colon);
        lemma_scan_leading_separator(s[0], s.drop_first(), colon);
        assert(seq![s[0]] + s.drop_first() =~= s);
    }
}

proof fn lemma_fields_of_trim_end(s: Seq<char>, colon: bool)
    ensures
        fields(trim_end(s), colon) == fields(s, colon),
    decreases s.len(),
{
    if s.len() > 0 && is_white(s.last()) {
        lemma_fields_of_trim_end(s.drop_last(), colon);
        lemma_fields_trailing_separator(s.drop_last(), s.last(), colon);
        assert(s.drop_last().push(s.last()) =~= s);
    }
}

/// The characters of `s` that are not separators, in order.
pub open spec fn non_separators(s: Seq<char>, colon: bool) -> Seq<char> {
    s.filter(|c: char| !is_separator(c, colon))
}

proof fn lemma_scan_keeps_characters(s: Seq<char>, colon: bool)
    ensures
        scan(s, colon).0.flatten() + scan(s, colon).1 == non_separators(s, colon),
    decreases s.len(),
{
    let pred = |c: char| !is_separator(c, colon);
    if s.len() == 0 {
        reveal(Seq::filter);
        assert(Seq::<Seq<char>>::empty().flatten() =~= Seq::<char>::empty());
        assert(Seq::<char>::empty() + Seq::<char>::empty() =~= Seq::<char>::empty());
    } else {
        let p = s.drop_last();
        let c = s.last();
        lemma_scan_keeps_characters(p, colon);
        assert(p.push(c) =~= s);
        p.lemma_filter_push(c, pred);
        let (done, cur) = scan(p, colon);
        if is_separator(c, colon) {
            if cur.len() > 0 {
                done.lemma_flatten_push(cur);
                assert(done.push(cur).flatten() + Seq::<char>::empty() =~= done.flatten() + cur);
            } else {
                assert(done.flatten() + Seq::<char>::empty() =~= done.flatten() + cur);
            }
        } else {
            assert(done.flatten() + cur.push(c) =~= (done.flatten() + cur).push(c));
        }
    }
}

/// Splitting into fields loses no character and adds none: the fields, put
/// back together, are the characters of the line that are not separators.
/// With every field non-empty and free of separators (`lemma_fields`), the
/// fields are the maximal runs of non-separators.
pub proof fn lemma_fields_keep_characters(s: Seq<char>, colon: bool)
    ensures
        fields(s, colon).flatten() == non_separators(s, colon),
{
    lemma_scan_keeps_characters(s, colon);
    let (done, cur) = scan(s, colon);
    if cur.len() > 0 {
        done.lemma_flatten_push(cur);
    } else {
        assert(done.flatten() + cur =~= done.flatten());
    }
}

proof fn lemma_trim_start_bounds(s: Seq<char>)
    ensures
        exists|k: int|
            0 <= k <= s.len() && trim_start(s) == s.skip(k) && (forall|j: int|
                0 <= j < k ==> is_white(#[trigger] s[j])) && (k < s.len() ==> !is_white(s[k])),
    decreases s.len(),
{
    if s.len() > 0 && is_white(s[0]) {
        let t = s.drop_first();
        lemma_trim_start_bounds(t);
        let k = choose|k: int|
            0 <= k <= t.len() && trim_start(t) == t.skip(k) && (forall|j: int|
                0 <= j < k ==> is_white(#[trigger] t[j])) && (k < t.len() ==> !is_white(t[k]));
        assert(t.skip(k) =~= s.skip(k + 1));
        assert forall|j: int| 0 <= j < k + 1 implies is_white(#[trigger] s[j]) by {
            if j > 0 {
                assert(s[j] == t[j - 1]);
            }
        }
        if k + 1 < s.len() {
            assert(s[k + 1] == t[k]);
        }
    } else {
        assert(s.skip(0) =~= s);
    }
}

proof fn lemma_trim_end_bounds(t: Seq<char>)
    ensures
        exists|m: int|
            0 <= m <= t.len() && trim_end(t) == t.take(m) && (forall|j: int|
                m <= j < t.len() ==> is_white(#[trigger] t[j])) && (m > 0 ==> !is_white(t[m - 1])),
    decreases t.len(),
{
    if t.len() > 0 && is_white(t.last()) {
        let u = t.drop_last();
        lemma_trim_end_bounds(u);
        let m = choose|m: int|
            0 <= m <= u.len() && trim_end(u) == u.take(m) && (forall|j: int|
                m <= j < u.len() ==> is_white(#[trigger] u[j])) && (m > 0 ==> !is_white(u[m - 1]));
        assert(u.take(m) =~= t.take(m));
        assert forall|j: int| m <= j < t.len() implies is_white(#[trigger] t[j]) by {
            if j < u.len() {
                assert(t[j] == u[j]);
            }
        }
        if m > 0 {
            assert(t[m - 1] == u[m - 1]);
        }
    } else {
        assert(t.take(t.len() as int) =~= t);
    }
}

/// Trimming removes white space at both ends and nothing else: the trimmed
/// text is a contiguous part of the line, everything before and after it is
/// white space, and it neither starts nor ends with white space.
pub proof fn lemma_trim_bounds(s: Seq<char>)
    ensures
        exists|a: int, b: int|
            0 <= a <= b <= s.len() && trim(s) == s.subrange(a, b) && (forall|j: int|
                0 <= j < a ==> is_white(#[trigger] s[j])) && (forall|j: int|
                b <= j < s.len() ==> is_white(#[trigger] s[j])),
        trim(s).len() > 0 ==> !is_white(trim(s)[0]) && !is_white(trim(s).last()),
{
    lemma_trim_start_bounds(s);
    let k = choose|k: int|
        0 <= k <= s.len() && trim_start(s) == s.skip(k) && (forall|j: int|
            0 <= j < k ==> is_white(#[trigger] s[j])) && (k < s.len() ==> !is_white(s[k]));
    let t = s.skip(k);
    lemma_trim_end_bounds(t);
    let m = choose|m: int|
        0 <= m <= t.len() && trim_end(t) == t.take(m) && (forall|j: int|
            m <= j < t.len() ==> is_white(#[trigger] t[j])) && (m > 0 ==> !is_white(t[m - 1]));
    assert(t.take(m) =~= s.subrange(k, k + m));
    assert forall|j: int| k + m <= j < s.len() implies is_white(#[trigger] s[j]) by {
        assert(s[j] == t[j - k]);
    }
    if m > 0 {
        assert(trim(s)[0] == s[k]);
        assert(trim(s).last() == t[m - 1]);
    }
}

} // verus!
