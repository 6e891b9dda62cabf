//! Bank statement reconstruction from extracted page text: lines are normalised, page
//! furniture is dropped, a dated line opens a statement row, and following lines extend
//! its narration until the next dated line. The amount is the last money-like token of a
//! line, its sign taken from the row's debit/credit hints.

use vstd::prelude::*;
use crate::text::{
    is_ws, lemma_trim_fixed, is_ascii_digit, is_ascii_alpha, ascii_lower, trim, trim_start, starts_with, contains,
    collapse, collapse_whitespace, chars_of, chars_are, to_ascii_lower, starts_with_exec,
    contains_exec, is_whitespace, digit_run_end, digit_end, digit_comma_run_end, digit_comma_end,
    without_commas, trim_chars, string_of, join_spaced, join_words, first_occurrence, occurs_at, find, lemma_first_occurrence_occurs, texts_view,
};
use crate::domain::entities::{ParserError, RawStatement, StatementView};
use crate::money::{Amount, DecimalView, decimal_parse, negated};

verus! {

/// Splitting the first `n` characters at line breaks: the non-empty pieces completed so
/// far and the piece in progress.
pub open spec fn line_state(s: Seq<char>, n: int) -> (Seq<Seq<char>>, Seq<char>)
    decreases n,
{
    if n <= 0 || n > s.len() {
        (Seq::empty(), Seq::empty())
    } else {
        let (ls, cur) = line_state(s, n - 1);
        let c = s[n - 1];
        if c != '\n' {
            (ls, cur.push(c))
        } else if cur.len() > 0 {
            (ls.push(cur), Seq::empty())
        } else {
            (ls, Seq::empty())
        }
    }
}

/// The non-empty pieces of a text between line breaks.
pub open spec fn line_pieces(s: Seq<char>) -> Seq<Seq<char>> {
    let (ls, cur) = line_state(s, s.len() as int);
    if cur.len() > 0 {
        ls.push(cur)
    } else {
        ls
    }
}

/// Each piece with its whitespace collapsed, the ones left empty dropped.
pub open spec fn kept_lines(pieces: Seq<Seq<char>>) -> Seq<Seq<char>>
    decreases pieces.len(),
{
    if pieces.len() == 0 {
        Seq::empty()
    } else {
        let prev = kept_lines(pieces.drop_last());
        let c = collapse(pieces.last());
        if c.len() == 0 {
            prev
        } else {
            prev.push(c)
        }
    }
}

/// The lines of a page: split at line breaks, whitespace runs collapsed to one space,
/// blank lines dropped.
pub open spec fn normalized_lines(page: Seq<char>) -> Seq<Seq<char>> {
    kept_lines(line_pieces(page))
}

/// Page furniture: page numbers and the bare column headers of a statement table.
pub open spec fn is_noise(line: Seq<char>) -> bool {
    let lower = ascii_lower(line);
    ||| starts_with(lower, "page "@)
    ||| contains(lower, "page "@) && contains(lower, "of"@)
    ||| lower == "date"@
    ||| lower == "details"@
    ||| lower == "particulars"@
    ||| lower == "narration"@
    ||| lower == "description"@
    ||| lower == "debit"@
    ||| lower == "credit"@
    ||| lower == "amount"@
    ||| lower == "balance"@
    ||| lower == "running balance"@
    ||| lower == "available balance"@
}

/// The page's text split into its lines.
fn page_pieces(page: &Vec<char>) -> (r: Vec<Vec<char>>)
    ensures
        r@.map_values(|v: Vec<char>| v@) == line_pieces(page@),
{
    let mut out: Vec<Vec<char>> = Vec::new();
    let mut cur: Vec<char> = Vec::new();
    let ghost mut done: Seq<Seq<char>> = Seq::empty();
    let mut i: usize = 0;
    while i < page.len()
        invariant
            i <= page.len(),
            line_state(page@, i as int) == (done, cur@),
            out@.map_values(|v: Vec<char>| v@) == done,
        decreases page.len() - i,
    {
        let c = page[i];
        if c != '\n' {
            cur.push(c);
        } else if cur.len() > 0 {
            proof {
                done = done.push(cur@);
            }
            out.push(cur);
            cur = Vec::new();
            proof {
                assert(out@.map_values(|v: Vec<char>| v@) =~= done);
            }
        } else {
            cur = Vec::new();
        }
        proof {
            assert(cur@ == line_state(page@, i + 1).1);
        }
        i = i + 1;
    }
    if cur.len() > 0 {
        proof {
            done = done.push(cur@);
        }
        out.push(cur);
        proof {
            assert(out@.map_values(|v: Vec<char>| v@) =~= done);
        }
    }
    out
}

/// Splits a page's text into lines, collapses the whitespace of each and drops the
/// blank ones.
pub fn normalize_page_text(page_text: &str) -> (r: Vec<Vec<char>>)
    ensures
        r@.map_values(|v: Vec<char>| v@) == normalized_lines(page_text@),
{
    let chars = chars_of(page_text);
    let pieces = page_pieces(&chars);
    let ghost pv = pieces@.map_values(|v: Vec<char>| v@);
    let mut out: Vec<Vec<char>> = Vec::new();
    let mut i: usize = 0;
    while i < pieces.len()
        invariant
            i <= pieces.len(),
            pv == pieces@.map_values(|v: Vec<char>| v@),
            pv == line_pieces(page_text@),
            out@.map_values(|v: Vec<char>| v@) == kept_lines(pv.take(i as int)),
        decreases pieces.len() - i,
    {
        let line = collapse_whitespace(&pieces[i]);
        proof {
            assert(pv.take(i + 1).drop_last() =~= pv.take(i as int));
            assert(pv.take(i + 1).last() == pieces@[i as int]@);
        }
        if line.len() > 0 {
            out.push(line);
            proof {
                assert(out@.map_values(|v: Vec<char>| v@) =~= kept_lines(pv.take(i as int)).push(collapse(pv[i as int])));
            }
        }
        i = i + 1;
    }
    proof {
        assert(pv.take(pieces.len() as int) =~= pv);
    }
    out
}

/// Whether a line is page furniture rather than a statement row.
pub fn is_noise_line(line: &Vec<char>) -> (r: bool)
    ensures
        r == is_noise(line@),
{
    let lower = to_ascii_lower(line);
    let page = chars_of("page ");
    let of = chars_of("of");
    if starts_with_exec(&lower, &page) || (contains_exec(&lower, &page) && contains_exec(&lower, &of)) {
        return true;
    }
    chars_are(&lower, "date") || chars_are(&lower, "details") || chars_are(&lower, "particulars")
        || chars_are(&lower, "narration") || chars_are(&lower, "description") || chars_are(&lower, "debit")
        || chars_are(&lower, "credit") || chars_are(&lower, "amount") || chars_are(&lower, "balance")
        || chars_are(&lower, "running balance") || chars_are(&lower, "available balance")
}


pub open spec fn is_digit_at(t: Seq<char>, i: int) -> bool {
    0 <= i < t.len() && is_ascii_digit(t[i])
}

/// `n` ASCII digits start at `i`.
pub open spec fn digits_at(t: Seq<char>, i: int, n: int) -> bool {
    forall|k: int| 0 <= k < n ==> #[trigger] is_digit_at(t, i + k)
}

/// The end of the run of whitespace starting at `j`.
pub open spec fn ws_run_end(t: Seq<char>, j: int) -> int
    decreases t.len() - j,
{
    if 0 <= j < t.len() && is_ws(t[j]) {
        ws_run_end(t, j + 1)
    } else {
        j
    }
}

/// The end of the run of ASCII letters starting at `j`.
pub open spec fn alpha_run_end(t: Seq<char>, j: int) -> int
    decreases t.len() - j,
{
    if 0 <= j < t.len() && is_ascii_alpha(t[j]) {
        alpha_run_end(t, j + 1)
    } else {
        j
    }
}

pub open spec fn char_at(t: Seq<char>, i: int, c: char) -> bool {
    0 <= i < t.len() && t[i] == c
}

/// `\d{2}/\d{2}/\d{2,4}` (with `sep` in place of `/`) at the start of `t`: where it ends.
pub open spec fn numeric_date_end(t: Seq<char>, sep: char) -> Option<int> {
    if digits_at(t, 0, 2) && char_at(t, 2, sep) && digits_at(t, 3, 2) && char_at(t, 5, sep) && digits_at(t, 6, 2) {
        let e = digit_run_end(t, 8);
        Some(if e > 10 { 10 } else { e })
    } else {
        None
    }
}

/// `\d{4}-\d{2}-\d{2}` at the start of `t`.
pub open spec fn iso_date_end(t: Seq<char>) -> Option<int> {
    if digits_at(t, 0, 4) && char_at(t, 4, '-') && digits_at(t, 5, 2) && char_at(t, 7, '-') && digits_at(t, 8, 2) {
        Some(10)
    } else {
        None
    }
}

/// `\d{1,2}\s+[A-Za-z]{3,9}\s+\d{4}` at the start of `t`.
pub open spec fn day_month_date_end(t: Seq<char>) -> Option<int> {
    let a = if is_digit_at(t, 1) { 2int } else { 1int };
    let b = ws_run_end(t, a);
    let c = alpha_run_end(t, b);
    let d = ws_run_end(t, c);
    if is_digit_at(t, 0) && b > a && 3 <= c - b <= 9 && d > c && digits_at(t, d, 4) {
        Some(d + 4)
    } else {
        None
    }
}

/// `[A-Za-z]{3,9}\s+\d{1,2},\s+\d{4}` at the start of `t`.
pub open spec fn month_day_date_end(t: Seq<char>) -> Option<int> {
    let c = alpha_run_end(t, 0);
    let d = ws_run_end(t, c);
    let n = if is_digit_at(t, d + 1) { 2int } else { 1int };
    let f = d + n + 1;
    let g = ws_run_end(t, f);
    if 3 <= c <= 9 && d > c && is_digit_at(t, d) && char_at(t, f - 1, ',') && g > f && digits_at(t, g, 4) {
        Some(g + 4)
    } else {
        None
    }
}

/// The date forms tried in order: `dd/mm/yy(yy)`, `dd-mm-yy(yy)`, `yyyy-mm-dd`,
/// `d Month yyyy`, `Month d, yyyy`.
pub open spec fn date_end_by(t: Seq<char>, k: int) -> Option<int> {
    if k == 0 {
        numeric_date_end(t, '/')
    } else if k == 1 {
        numeric_date_end(t, '-')
    } else if k == 2 {
        iso_date_end(t)
    } else if k == 3 {
        day_month_date_end(t)
    } else {
        month_day_date_end(t)
    }
}

/// What follows the date is whitespace and then one line (the rest of the line pattern,
/// `\s*(.*)$`, where `.` stops at a line break).
pub open spec fn rest_is_one_line(t: Seq<char>, e: int) -> bool {
    !trim_start(t.skip(e)).contains('\n')
}

pub open spec fn date_split_from(t: Seq<char>, k: int) -> Option<(Seq<char>, Seq<char>)>
    decreases 5 - k,
{
    if k < 0 || k >= 5 {
        None
    } else {
        match date_end_by(t, k) {
            Some(e) => if rest_is_one_line(t, e) {
                Some((trim(t.take(e)), trim(t.skip(e))))
            } else {
                date_split_from(t, k + 1)
            },
            None => date_split_from(t, k + 1),
        }
    }
}

/// A line that starts with a date, split into the date and the rest, both trimmed: the
/// first date form that matches decides.
pub open spec fn date_split(t: Seq<char>) -> Option<(Seq<char>, Seq<char>)> {
    date_split_from(t, 0)
}

/// A line opening with a `dd/mm/yyyy` date, then whitespace and the rest of one line,
/// splits into that date and the trimmed rest.
pub proof fn lemma_slash_date_line(t: Seq<char>)
    requires
        t.len() > 10,
        digits_at(t, 0, 2),
        t[2] == '/',
        digits_at(t, 3, 2),
        t[5] == '/',
        digits_at(t, 6, 4),
        is_ws(t[10]),
        !trim_start(t.skip(10)).contains('\n'),
    ensures
        date_split(t) == Some((t.take(10), trim(t.skip(10)))),
{
    reveal_with_fuel(date_split_from, 2);
    reveal_with_fuel(digit_run_end, 4);
    assert(is_digit_at(t, 0int + 0) && is_digit_at(t, 0int + 1));
    assert(is_digit_at(t, 6int + 0) && is_digit_at(t, 6int + 1) && is_digit_at(t, 6int + 2) && is_digit_at(t, 6int + 3));
    assert(is_digit_at(t, 9));
    assert(digits_at(t, 6, 2));
    assert(digit_run_end(t, 10) == 10);
    assert(digit_run_end(t, 8) == 10);
    assert(t.take(10)[0] == t[0] && t.take(10)[9] == t[9]);
    lemma_trim_fixed(t.take(10));
}

/// A line opening with a `yyyy-mm-dd` date, then whitespace and the rest of one line,
/// splits into that date and the trimmed rest.
pub proof fn lemma_iso_date_line(t: Seq<char>)
    requires
        t.len() > 10,
        digits_at(t, 0, 4),
        t[4] == '-',
        digits_at(t, 5, 2),
        t[7] == '-',
        digits_at(t, 8, 2),
        is_ws(t[10]),
        !trim_start(t.skip(10)).contains('\n'),
    ensures
        date_split(t) == Some((t.take(10), trim(t.skip(10)))),
{
    reveal_with_fuel(date_split_from, 4);
    assert(is_digit_at(t, 0int + 2) && is_digit_at(t, 0) && is_digit_at(t, 8int + 1));
    assert(t.take(10)[0] == t[0] && t.take(10)[9] == t[9]);
    lemma_trim_fixed(t.take(10));
}

fn is_digit_exec(t: &Vec<char>, i: usize) -> (r: bool)
    ensures
        r == is_digit_at(t@, i as int),
{
    i < t.len() && '0' <= t[i] && t[i] <= '9'
}

fn digits_exec(t: &Vec<char>, i: usize, n: usize) -> (r: bool)
    ensures
        r == digits_at(t@, i as int, n as int),
{
    if i > t.len() || n > t.len() - i {
        proof {
            if n > 0 {
                let k: int = if i >= t.len() { 0 } else { t.len() - i };
                assert(!is_digit_at(t@, i + k));
            }
        }
        return n == 0;
    }
    let mut k: usize = 0;
    while k < n
        invariant
            k <= n,
            i + n <= t.len(),
            forall|m: int| 0 <= m < k ==> #[trigger] is_digit_at(t@, i + m),
        decreases n - k,
    {
        if !is_digit_exec(t, i + k) {
            return false;
        }
        k = k + 1;
    }
    true
}

fn char_is(t: &Vec<char>, i: usize, c: char) -> (r: bool)
    ensures
        r == char_at(t@, i as int, c),
{
    i < t.len() && t[i] == c
}

fn ws_end(t: &Vec<char>, j: usize) -> (r: usize)
    requires
        j <= t.len(),
    ensures
        r == ws_run_end(t@, j as int),
        j <= r <= t.len(),
{
    let mut k = j;
    while k < t.len() && is_whitespace(t[k])
        invariant
            j <= k <= t.len(),
            ws_run_end(t@, j as int) == ws_run_end(t@, k as int),
        decreases t.len() - k,
    {
        k = k + 1;
    }
    k
}

fn alpha_end(t: &Vec<char>, j: usize) -> (r: usize)
    requires
        j <= t.len(),
    ensures
        r == alpha_run_end(t@, j as int),
        j <= r <= t.len(),
{
    let mut k = j;
    while k < t.len() && (('A' <= t[k] && t[k] <= 'Z') || ('a' <= t[k] && t[k] <= 'z'))
        invariant
            j <= k <= t.len(),
            alpha_run_end(t@, j as int) == alpha_run_end(t@, k as int),
        decreases t.len() - k,
    {
        k = k + 1;
    }
    k
}

fn numeric_date_end_exec(t: &Vec<char>, sep: char) -> (r: Option<usize>)
    ensures
        r matches Some(e) ==> numeric_date_end(t@, sep) == Some(e as int) && e <= t.len(),
        r is None ==> numeric_date_end(t@, sep) is None,
{
    if digits_exec(t, 0, 2) && char_is(t, 2, sep) && digits_exec(t, 3, 2) && char_is(t, 5, sep) && digits_exec(t, 6, 2) {
        proof {
            assert(is_digit_at(t@, 6int + 1));
        }
        let e = digit_end(t, 8);
        Some(if e > 10 { 10 } else { e })
    } else {
        None
    }
}

fn iso_date_end_exec(t: &Vec<char>) -> (r: Option<usize>)
    ensures
        r matches Some(e) ==> iso_date_end(t@) == Some(e as int) && e <= t.len(),
        r is None ==> iso_date_end(t@) is None,
{
    if digits_exec(t, 0, 4) && char_is(t, 4, '-') && digits_exec(t, 5, 2) && char_is(t, 7, '-') && digits_exec(t, 8, 2) {
        proof {
            assert(is_digit_at(t@, 8int + 1));
        }
        Some(10)
    } else {
        None
    }
}

fn day_month_date_end_exec(t: &Vec<char>) -> (r: Option<usize>)
    ensures
        r matches Some(e) ==> day_month_date_end(t@) == Some(e as int) && e <= t.len(),
        r is None ==> day_month_date_end(t@) is None,
{
    if !is_digit_exec(t, 0) {
        return None;
    }
    let a: usize = if is_digit_exec(t, 1) { 2 } else { 1 };
    let b = ws_end(t, a);
    let c = alpha_end(t, b);
    let d = ws_end(t, c);
    if b > a && c - b >= 3 && c - b <= 9 && d > c && digits_exec(t, d, 4) {
        proof {
            assert(is_digit_at(t@, d + 3));
        }
        Some(d + 4)
    } else {
        None
    }
}

fn month_day_date_end_exec(t: &Vec<char>) -> (r: Option<usize>)
    ensures
        r matches Some(e) ==> month_day_date_end(t@) == Some(e as int) && e <= t.len(),
        r is None ==> month_day_date_end(t@) is None,
{
    let c = alpha_end(t, 0);
    let d = ws_end(t, c);
    if !(c >= 3 && c <= 9 && d > c && is_digit_exec(t, d)) {
        return None;
    }
    let n: usize = if is_digit_exec(t, d + 1) { 2 } else { 1 };
    let comma = d + n;
    if !char_is(t, comma, ',') {
        return None;
    }
    let f = comma + 1;
    let g = ws_end(t, f);
    if g > f && digits_exec(t, g, 4) {
        proof {
            assert(is_digit_at(t@, g + 3));
        }
        Some(g + 4)
    } else {
        None
    }
}

fn date_end_by_exec(t: &Vec<char>, k: usize) -> (r: Option<usize>)
    ensures
        r matches Some(e) ==> date_end_by(t@, k as int) == Some(e as int) && e <= t.len(),
        r is None ==> date_end_by(t@, k as int) is None,
{
    if k == 0 {
        numeric_date_end_exec(t, '/')
    } else if k == 1 {
        numeric_date_end_exec(t, '-')
    } else if k == 2 {
        iso_date_end_exec(t)
    } else if k == 3 {
        day_month_date_end_exec(t)
    } else {
        month_day_date_end_exec(t)
    }
}

/// The characters from `start` on.
fn suffix(t: &Vec<char>, start: usize) -> (r: Vec<char>)
    requires
        start <= t.len(),
    ensures
        r@ == t@.skip(start as int),
{
    let mut out: Vec<char> = Vec::new();
    let mut k = start;
    while k < t.len()
        invariant
            start <= k <= t.len(),
            out@ == t@.subrange(start as int, k as int),
        decreases t.len() - k,
    {
        out.push(t[k]);
        proof {
            assert(t@.subrange(start as int, k + 1) =~= t@.subrange(start as int, k as int).push(t@[k as int]));
        }
        k = k + 1;
    }
    proof {
        assert(t@.subrange(start as int, t.len() as int) =~= t@.skip(start as int));
    }
    out
}

/// The characters before `end`.
fn prefix(t: &Vec<char>, end: usize) -> (r: Vec<char>)
    requires
        end <= t.len(),
    ensures
        r@ == t@.take(end as int),
{
    let mut out: Vec<char> = Vec::new();
    let mut k: usize = 0;
    while k < end
        invariant
            k <= end <= t.len(),
            out@ == t@.take(k as int),
        decreases end - k,
    {
        out.push(t[k]);
        proof {
            assert(t@.take(k + 1) =~= t@.take(k as int).push(t@[k as int]));
        }
        k = k + 1;
    }
    out
}

/// Whether what follows `e` is whitespace and then a single line.
fn rest_is_one_line_exec(t: &Vec<char>, e: usize) -> (r: bool)
    requires
        e <= t.len(),
    ensures
        r == rest_is_one_line(t@, e as int),
{
    let rest = suffix(t, e);
    let start = ws_end(&rest, 0);
    proof {
        assert(rest@.skip(0) =~= rest@);
        lemma_trim_start_skip(rest@, 0, start as int);
    }
    let mut k = start;
    while k < rest.len()
        invariant
            start <= k <= rest.len(),
            rest@ == t@.skip(e as int),
            trim_start(rest@) == rest@.skip(start as int),
            forall|m: int| start <= m < k ==> rest@[m] != '\n',
        decreases rest.len() - k,
    {
        if rest[k] == '\n' {
            proof {
                assert(rest@.skip(start as int)[k - start] == '\n');
                assert(trim_start(rest@).contains('\n'));
            }
            return false;
        }
        k = k + 1;
    }
    proof {
        assert forall|m: int| 0 <= m < rest@.skip(start as int).len() implies rest@.skip(start as int)[m] != '\n' by {
            assert(rest@.skip(start as int)[m] == rest@[start + m]);
        }
    }
    true
}

proof fn lemma_ws_run_end_ge(t: Seq<char>, j: int)
    ensures
        ws_run_end(t, j) >= j,
    decreases t.len() - j,
{
    if 0 <= j < t.len() && is_ws(t[j]) {
        lemma_ws_run_end_ge(t, j + 1);
    }
}

proof fn lemma_trim_start_skip(t: Seq<char>, j: int, e: int)
    requires
        0 <= j <= e <= t.len(),
        e == ws_run_end(t, j),
    ensures
        trim_start(t.skip(j)) == t.skip(e),
    decreases e - j,
{
    if j < e {
        assert(0 <= j < t.len() && is_ws(t[j]));
        assert(ws_run_end(t, j + 1) == e);
        assert(t.skip(j).drop_first() =~= t.skip(j + 1));
        assert(t.skip(j)[0] == t[j]);
        lemma_trim_start_skip(t, j + 1, e);
        assert(trim_start(t.skip(j)) == trim_start(t.skip(j).drop_first()));
    } else {
        if 0 <= j < t.len() && is_ws(t[j]) {
            lemma_ws_run_end_ge(t, j + 1);
        }
        if t.skip(j).len() > 0 {
            assert(t.skip(j)[0] == t[j]);
        }
    }
}

/// Splits a line that starts with a date into the date and the rest.
pub fn extract_date_and_body(line: &Vec<char>) -> (r: Option<(Vec<char>, Vec<char>)>)
    ensures
        r matches Some((d, b)) ==> date_split(line@) == Some((d@, b@)),
        r is None ==> date_split(line@) is None,
{
    let mut k: usize = 0;
    while k < 5
        invariant
            k <= 5,
            date_split(line@) == date_split_from(line@, k as int),
        decreases 5 - k,
    {
        match date_end_by_exec(line, k) {
            Some(e) => {
                if rest_is_one_line_exec(line, e) {
                    let date = crate::text::trim_chars(&prefix(line, e));
                    let body = crate::text::trim_chars(&suffix(line, e));
                    return Some((date, body));
                }
            },
            None => {},
        }
        k = k + 1;
    }
    None
}


/// Where the money-like token `\(?-?\d[\d,]*(?:\.\d{1,2})?\)?` that starts at `s` ends,
/// each optional part taken when present.
pub open spec fn amount_end(t: Seq<char>, s: int) -> Option<int> {
    let p = if char_at(t, s, '(') { s + 1 } else { s };
    let q = if char_at(t, p, '-') { p + 1 } else { p };
    if !is_digit_at(t, q) {
        None
    } else {
        let e1 = digit_comma_run_end(t, q + 1);
        let e2 = if char_at(t, e1, '.') && is_digit_at(t, e1 + 1) {
            if is_digit_at(t, e1 + 2) { e1 + 3 } else { e1 + 2 }
        } else {
            e1
        };
        Some(if char_at(t, e2, ')') { e2 + 1 } else { e2 })
    }
}

/// `dr`, `cr`, `debit` or `credit`, in any case.
pub open spec fn sign_word(w: Seq<char>) -> bool {
    let l = ascii_lower(w);
    l == "dr"@ || l == "cr"@ || l == "debit"@ || l == "credit"@
}

/// What may follow the amount to the end of the line: whitespace, with at most one
/// debit/credit word in it (`(?:\s*(dr|cr|debit|credit))?\s*$`).
pub open spec fn tail_fits(tail: Seq<char>) -> bool {
    trim(tail).len() == 0 || sign_word(trim(tail))
}

/// A money token starting at `s` that the rest of the line allows: where it ends.
pub open spec fn amount_at(t: Seq<char>, s: int) -> Option<int> {
    match amount_end(t, s) {
        Some(a) => if tail_fits(t.skip(a)) {
            Some(a)
        } else {
            None
        },
        None => None,
    }
}

/// The leftmost money token at or after `s` that ends the line (as a regular
/// expression search finds it): its start and end.
pub open spec fn first_amount(t: Seq<char>, s: int) -> Option<(int, int)>
    decreases t.len() - s,
{
    if s < 0 || s >= t.len() {
        None
    } else {
        match amount_at(t, s) {
            Some(a) => Some((s, a)),
            None => first_amount(t, s + 1),
        }
    }
}

/// `str::trim_start_matches` with one character.
pub open spec fn strip_leading(s: Seq<char>, c: char) -> Seq<char>
    decreases s.len(),
{
    if s.len() > 0 && s[0] == c {
        strip_leading(s.drop_first(), c)
    } else {
        s
    }
}

/// `str::trim_end_matches` with one character.
pub open spec fn strip_trailing(s: Seq<char>, c: char) -> Seq<char>
    decreases s.len(),
{
    if s.len() > 0 && s.last() == c {
        strip_trailing(s.drop_last(), c)
    } else {
        s
    }
}

pub open spec fn is_punct(c: char) -> bool {
    c == '-' || c == ':' || c == ',' || c == ';'
}

pub open spec fn strip_punct_start(s: Seq<char>) -> Seq<char>
    decreases s.len(),
{
    if s.len() > 0 && is_punct(s[0]) {
        strip_punct_start(s.drop_first())
    } else {
        s
    }
}

pub open spec fn strip_punct_end(s: Seq<char>) -> Seq<char>
    decreases s.len(),
{
    if s.len() > 0 && is_punct(s.last()) {
        strip_punct_end(s.drop_last())
    } else {
        s
    }
}

/// `-`, `:`, `,` and `;` removed from both ends.
pub open spec fn strip_punct(s: Seq<char>) -> Seq<char> {
    strip_punct_end(strip_punct_start(s))
}

/// The number in a money token: trimmed, opening brackets, closing brackets and minus
/// signs taken off (in that order), commas removed.
pub open spec fn token_text(raw: Seq<char>) -> Seq<char> {
    without_commas(strip_leading(strip_trailing(strip_leading(trim(raw), '('), ')'), '-'))
}

/// The value of a money token, if its number parses as a decimal.
pub open spec fn parse_token(raw: Seq<char>) -> Option<DecimalView> {
    if token_text(raw).len() == 0 {
        None
    } else {
        decimal_parse(token_text(raw))
    }
}

/// What a statement line says about the direction of its amount.
#[derive(Debug, Clone, Copy, PartialEq, Eq, Structural)]
pub enum SignHint {
    Unknown,
    Negative,
    Positive,
}

/// A bracketed or minus-signed token, `debit` in the line or `dr` in the tail marks money
/// out; otherwise `credit` in the line or `cr` in the tail marks money in.
pub open spec fn sign_hint_of(raw: Seq<char>, tail: Seq<char>, text: Seq<char>) -> SignHint {
    let lowered = ascii_lower(text);
    let tail_lower = ascii_lower(tail);
    if (raw.len() > 0 && raw[0] == '(') || (raw.len() > 0 && raw[0] == '-') || contains(lowered, "debit"@)
        || contains(tail_lower, "dr"@) {
        SignHint::Negative
    } else if contains(lowered, "credit"@) || contains(tail_lower, "cr"@) {
        SignHint::Positive
    } else {
        SignHint::Unknown
    }
}

/// Which words decide the direction of a line's amount: `debit` anywhere in the line (in
/// any case), an amount token opening with a bracket or a minus sign, or `dr` after the
/// token mark money out; failing all of those, `credit` in the line or `cr` after the
/// token mark money in; otherwise the line says nothing.
pub proof fn lemma_sign_words(raw: Seq<char>, tail: Seq<char>, text: Seq<char>)
    ensures
        contains(ascii_lower(text), "debit"@) ==> sign_hint_of(raw, tail, text) == SignHint::Negative,
        contains(ascii_lower(tail), "dr"@) ==> sign_hint_of(raw, tail, text) == SignHint::Negative,
        raw.len() > 0 && (raw[0] == '(' || raw[0] == '-') ==> sign_hint_of(raw, tail, text) == SignHint::Negative,
        sign_hint_of(raw, tail, text) == SignHint::Positive <==> (!contains(ascii_lower(text), "debit"@) && !contains(
            ascii_lower(tail),
            "dr"@,
        ) && !(raw.len() > 0 && (raw[0] == '(' || raw[0] == '-')) && (contains(ascii_lower(text), "credit"@)
            || contains(ascii_lower(tail), "cr"@))),
        sign_hint_of(raw, tail, text) == SignHint::Negative || sign_hint_of(raw, tail, text) == SignHint::Positive
            || sign_hint_of(raw, tail, text) == SignHint::Unknown,
{
}

/// A money-out hint negates the amount, a money-in hint keeps it.
pub proof fn lemma_sign_applied(amount: DecimalView, narration: Seq<char>)
    ensures
        signed_amount(amount, SignHint::Negative, narration) == (DecimalView {
            negative: !amount.negative,
            digits: amount.digits,
            scale: amount.scale,
        }),
        signed_amount(amount, SignHint::Positive, narration) == amount,
{
}

/// A line split into its narration, the value of its trailing money token and the sign
/// hint; with no such token, the trimmed line and nothing else.
pub open spec fn split_amount(text: Seq<char>) -> (Seq<char>, Option<DecimalView>, SignHint) {
    match first_amount(text, 0) {
        Some((s, a)) => {
            let raw = text.subrange(s, a);
            let tail = trim(text.skip(a));
            (strip_punct(trim(text.take(s))), parse_token(raw), sign_hint_of(raw, tail, text))
        },
        None => (trim(text), None, SignHint::Unknown),
    }
}

/// A line with an amount token and `debit` anywhere in it (in any case) is money out.
pub proof fn lemma_debit_line_is_money_out(text: Seq<char>)
    requires
        first_amount(text, 0) is Some,
        contains(ascii_lower(text), "debit"@),
    ensures
        split_amount(text).2 == SignHint::Negative,
{
    let (s0, a) = first_amount(text, 0)->Some_0;
    lemma_sign_words(text.subrange(s0, a), trim(text.skip(a)), text);
}

/// The amount with its sign: negated for money out, kept for money in, and with no hint
/// negated when the narration mentions `dr`.
pub open spec fn signed_amount(amount: DecimalView, hint: SignHint, narration: Seq<char>) -> DecimalView {
    match hint {
        SignHint::Negative => negated(amount),
        SignHint::Positive => amount,
        SignHint::Unknown => if contains(ascii_lower(narration), "dr"@) {
            negated(amount)
        } else {
            amount
        },
    }
}

fn amount_end_exec(t: &Vec<char>, s: usize) -> (r: Option<usize>)
    requires
        s < t.len(),
    ensures
        r matches Some(a) ==> amount_end(t@, s as int) == Some(a as int) && s < a <= t.len(),
        r is None ==> amount_end(t@, s as int) is None,
{
    let p = if char_is(t, s, '(') { s + 1 } else { s };
    let q = if char_is(t, p, '-') { p + 1 } else { p };
    if !is_digit_exec(t, q) {
        return None;
    }
    let e1 = digit_comma_end(t, q + 1);
    let e2 = if char_is(t, e1, '.') && is_digit_exec(t, e1 + 1) {
        if is_digit_exec(t, e1 + 2) { e1 + 3 } else { e1 + 2 }
    } else {
        e1
    };
    Some(if char_is(t, e2, ')') { e2 + 1 } else { e2 })
}

fn is_sign_word(w: &Vec<char>) -> (r: bool)
    ensures
        r == sign_word(w@),
{
    let l = to_ascii_lower(w);
    chars_are(&l, "dr") || chars_are(&l, "cr") || chars_are(&l, "debit") || chars_are(&l, "credit")
}

fn amount_at_exec(t: &Vec<char>, s: usize) -> (r: Option<usize>)
    requires
        s < t.len(),
    ensures
        r matches Some(a) ==> amount_at(t@, s as int) == Some(a as int) && s < a <= t.len(),
        r is None ==> amount_at(t@, s as int) is None,
{
    match amount_end_exec(t, s) {
        Some(a) => {
            let tail = trim_chars(&suffix(t, a));
            if tail.len() == 0 || is_sign_word(&tail) {
                Some(a)
            } else {
                None
            }
        },
        None => None,
    }
}

fn strip_leading_exec(s: &Vec<char>, c: char) -> (r: Vec<char>)
    ensures
        r@ == strip_leading(s@, c),
{
    let mut i: usize = 0;
    proof {
        assert(s@.skip(0) =~= s@);
    }
    while i < s.len() && s[i] == c
        invariant
            i <= s.len(),
            strip_leading(s@, c) == strip_leading(s@.skip(i as int), c),
        decreases s.len() - i,
    {
        proof {
            assert(s@.skip(i as int).drop_first() =~= s@.skip(i + 1));
        }
        i = i + 1;
    }
    suffix(s, i)
}

fn strip_trailing_exec(s: &Vec<char>, c: char) -> (r: Vec<char>)
    ensures
        r@ == strip_trailing(s@, c),
{
    let mut j: usize = s.len();
    proof {
        assert(s@.take(s.len() as int) =~= s@);
    }
    while j > 0 && s[j - 1] == c
        invariant
            j <= s.len(),
            strip_trailing(s@, c) == strip_trailing(s@.take(j as int), c),
        decreases j,
    {
        proof {
            assert(s@.take(j as int).drop_last() =~= s@.take(j - 1));
        }
        j = j - 1;
    }
    prefix(s, j)
}

fn strip_punct_exec(s: &Vec<char>) -> (r: Vec<char>)
    ensures
        r@ == strip_punct(s@),
{
    let mut i: usize = 0;
    proof {
        assert(s@.skip(0) =~= s@);
    }
    while i < s.len() && (s[i] == '-' || s[i] == ':' || s[i] == ',' || s[i] == ';')
        invariant
            i <= s.len(),
            strip_punct_start(s@) == strip_punct_start(s@.skip(i as int)),
        decreases s.len() - i,
    {
        proof {
            assert(s@.skip(i as int).drop_first() =~= s@.skip(i + 1));
        }
        i = i + 1;
    }
    let t = suffix(s, i);
    let mut j: usize = t.len();
    proof {
        assert(t@.take(t.len() as int) =~= t@);
    }
    while j > 0 && (t[j - 1] == '-' || t[j - 1] == ':' || t[j - 1] == ',' || t[j - 1] == ';')
        invariant
            j <= t.len(),
            t@ == strip_punct_start(s@),
            strip_punct_end(t@) == strip_punct_end(t@.take(j as int)),
        decreases j,
    {
        proof {
            assert(t@.take(j as int).drop_last() =~= t@.take(j - 1));
        }
        j = j - 1;
    }
    prefix(&t, j)
}

/// The value of a money token: brackets and a leading minus taken off, commas removed.
fn parse_decimal_token(raw: &Vec<char>) -> (r: Option<Amount>)
    ensures
        r matches Some(v) ==> parse_token(raw@) == Some(v@),
        r is None ==> parse_token(raw@) is None,
{
    let a = strip_leading_exec(&trim_chars(raw), '(');
    let b = strip_trailing_exec(&a, ')');
    let c = strip_leading_exec(&b, '-');
    let mut cleaned: Vec<char> = Vec::new();
    let mut j: usize = 0;
    while j < c.len()
        invariant
            j <= c.len(),
            cleaned@ == without_commas(c@.take(j as int)),
        decreases c.len() - j,
    {
        proof {
            assert(c@.take(j + 1).drop_last() =~= c@.take(j as int));
        }
        if c[j] != ',' {
            cleaned.push(c[j]);
        }
        j = j + 1;
    }
    proof {
        assert(c@.take(c.len() as int) =~= c@);
    }
    if cleaned.len() == 0 {
        return None;
    }
    let text = string_of(&cleaned);
    Amount::parse(text.as_str())
}

/// The sign hint of a line from its token, its tail and the whole line.
pub fn infer_sign_hint(raw: &Vec<char>, tail: &Vec<char>, full_text: &Vec<char>) -> (r: SignHint)
    ensures
        r == sign_hint_of(raw@, tail@, full_text@),
{
    let lowered = to_ascii_lower(full_text);
    let tail_lower = to_ascii_lower(tail);
    let starts_open = raw.len() > 0 && raw[0] == '(';
    let starts_minus = raw.len() > 0 && raw[0] == '-';
    if starts_open || starts_minus || contains_exec(&lowered, &chars_of("debit"))
        || contains_exec(&tail_lower, &chars_of("dr")) {
        return SignHint::Negative;
    }
    if contains_exec(&lowered, &chars_of("credit")) || contains_exec(&tail_lower, &chars_of("cr")) {
        return SignHint::Positive;
    }
    SignHint::Unknown
}

/// Splits the trailing money token off a line.
pub fn split_amount_from_text(text: &Vec<char>) -> (r: (Vec<char>, Option<Amount>, SignHint))
    ensures
        r.0@ == split_amount(text@).0,
        r.2 == split_amount(text@).2,
        match r.1 {
            Some(v) => split_amount(text@).1 == Some(v@),
            None => split_amount(text@).1 is None,
        },
{
    let mut s: usize = 0;
    while s < text.len()
        invariant
            s <= text.len(),
            first_amount(text@, 0) == first_amount(text@, s as int),
        decreases text.len() - s,
    {
        match amount_at_exec(text, s) {
            Some(a) => {
                let raw = suffix(&prefix(text, a), s);
                proof {
                    assert(raw@ =~= text@.subrange(s as int, a as int));
                }
                let tail = trim_chars(&suffix(text, a));
                let amount = parse_decimal_token(&raw);
                let hint = infer_sign_hint(&raw, &tail, text);
                let narration = strip_punct_exec(&trim_chars(&prefix(text, s)));
                return (narration, amount, hint);
            },
            None => {},
        }
        s = s + 1;
    }
    (trim_chars(text), None, SignHint::Unknown)
}

/// The amount with the sign the line's hints give it.
pub fn apply_sign(amount: Amount, sign_hint: SignHint, narration: &Vec<char>) -> (r: Amount)
    ensures
        r@ == signed_amount(amount@, sign_hint, narration@),
{
    match sign_hint {
        SignHint::Negative => amount.neg(),
        SignHint::Positive => amount,
        SignHint::Unknown => {
            if contains_exec(&to_ascii_lower(narration), &chars_of("dr")) {
                amount.neg()
            } else {
                amount
            }
        },
    }
}


/// The words after which a narration names the other party.
pub open spec fn counterparty_keywords() -> Seq<Seq<char>> {
    seq![" to "@, " from "@, " beneficiary "@, " sender "@, " receiver "@]
}

/// The trimmed text after the first occurrence of `kw` (ignoring ASCII case), when
/// there is one and the text is not empty.
pub open spec fn text_after(fragment: Seq<char>, kw: Seq<char>) -> Option<Seq<char>> {
    match first_occurrence(ascii_lower(fragment), kw) {
        Some(i) => {
            let candidate = trim(fragment.skip(i + kw.len()));
            if candidate.len() > 0 {
                Some(candidate)
            } else {
                None
            }
        },
        None => None,
    }
}

/// Trying the words in order, the first that gives a text after it.
pub open spec fn counterparty_from(fragment: Seq<char>, k: int) -> Option<Seq<char>>
    decreases 5 - k,
{
    if k < 0 || k >= 5 {
        None
    } else {
        match text_after(fragment, counterparty_keywords()[k]) {
            Some(c) => Some(c),
            None => counterparty_from(fragment, k + 1),
        }
    }
}

pub open spec fn counterparty_of(fragment: Seq<char>) -> Option<Seq<char>> {
    counterparty_from(fragment, 0)
}

/// The other party is the text after " to ", else after " from ", " beneficiary ",
/// " sender " or " receiver ", in that order (the first of these words that is followed by
/// some text); a narration with none of them names no other party.
pub proof fn lemma_counterparty_words(f: Seq<char>)
    ensures
        text_after(f, " to "@) matches Some(c) ==> counterparty_of(f) == Some(c),
        text_after(f, " to "@) is None ==> (text_after(f, " from "@) matches Some(c) ==> counterparty_of(f) == Some(c)),
        text_after(f, " to "@) is None && text_after(f, " from "@) is None ==> (text_after(f, " beneficiary "@) matches Some(
            c,
        ) ==> counterparty_of(f) == Some(c)),
        text_after(f, " to "@) is None && text_after(f, " from "@) is None && text_after(f, " beneficiary "@) is None ==> (
        text_after(f, " sender "@) matches Some(c) ==> counterparty_of(f) == Some(c)),
        text_after(f, " to "@) is None && text_after(f, " from "@) is None && text_after(f, " beneficiary "@) is None
            && text_after(f, " sender "@) is None ==> (text_after(f, " receiver "@) matches Some(c) ==> counterparty_of(f)
            == Some(c)),
        text_after(f, " to "@) is None && text_after(f, " from "@) is None && text_after(f, " beneficiary "@) is None
            && text_after(f, " sender "@) is None && text_after(f, " receiver "@) is None ==> counterparty_of(f) is None,
{
    reveal_with_fuel(counterparty_from, 6);
    let ks = counterparty_keywords();
    assert(ks[0] == " to "@);
    assert(ks[1] == " from "@);
    assert(ks[2] == " beneficiary "@);
    assert(ks[3] == " sender "@);
    assert(ks[4] == " receiver "@);
}

fn text_after_exec(fragment: &Vec<char>, lowered: &Vec<char>, kw: &Vec<char>) -> (r: Option<Vec<char>>)
    requires
        lowered@ == ascii_lower(fragment@),
    ensures
        r matches Some(c) ==> text_after(fragment@, kw@) == Some(c@),
        r is None ==> text_after(fragment@, kw@) is None,
{
    let n = lowered.len();
    match find(lowered, kw) {
        Some(index) => {
            proof {
                lemma_first_occurrence_occurs(lowered@, kw@);
                assert(occurs_at(lowered@, kw@, index as int));
                assert(lowered@.len() == fragment@.len());
            }
            let start = index + kw.len();
            let candidate = trim_chars(&suffix(fragment, start));
            if candidate.len() > 0 {
                Some(candidate)
            } else {
                None
            }
        },
        None => None,
    }
}

/// The other party named in a narration fragment, if any.
pub fn detect_counterparty(fragment: &Vec<char>) -> (r: Option<Vec<char>>)
    ensures
        r matches Some(c) ==> counterparty_of(fragment@) == Some(c@),
        r is None ==> counterparty_of(fragment@) is None,
{
    let lowered = to_ascii_lower(fragment);
    let mut keywords: Vec<Vec<char>> = Vec::new();
    keywords.push(chars_of(" to "));
    keywords.push(chars_of(" from "));
    keywords.push(chars_of(" beneficiary "));
    keywords.push(chars_of(" sender "));
    keywords.push(chars_of(" receiver "));
    proof {
        assert forall|x: int| 0 <= x < 5 implies keywords@[x]@ == counterparty_keywords()[x] by {}
    }
    let mut k: usize = 0;
    while k < 5
        invariant
            k <= 5,
            keywords@.len() == 5,
            lowered@ == ascii_lower(fragment@),
            forall|x: int| 0 <= x < 5 ==> keywords@[x]@ == counterparty_keywords()[x],
            counterparty_of(fragment@) == counterparty_from(fragment@, k as int),
        decreases 5 - k,
    {
        match text_after_exec(fragment, &lowered, &keywords[k]) {
            Some(c) => {
                return Some(c);
            },
            None => {},
        }
        k = k + 1;
    }
    None
}

/// A statement row being assembled: its date, narration fragments, amount once seen and
/// other party once seen.
pub struct DraftView {
    pub date: Seq<char>,
    pub parts: Seq<Seq<char>>,
    pub amount: Option<DecimalView>,
    pub counterparty: Option<Seq<char>>,
}

pub open spec fn new_draft(date: Seq<char>) -> DraftView {
    DraftView { date, parts: Seq::empty(), amount: None, counterparty: None }
}

/// A fragment added to the narration (trimmed; nothing when blank); the first fragment
/// that names another party sets it.
pub open spec fn pushed_narration(d: DraftView, fragment: Seq<char>) -> DraftView {
    let cleaned = trim(fragment);
    if cleaned.len() == 0 {
        d
    } else {
        DraftView {
            parts: d.parts.push(cleaned),
            counterparty: if d.counterparty is None { counterparty_of(cleaned) } else { d.counterparty },
            ..d
        }
    }
}

/// The text after a date: its narration is added and its amount, when it has one, is
/// the row's amount.
pub open spec fn with_body(d: DraftView, body: Seq<char>) -> DraftView {
    if body.len() == 0 {
        d
    } else {
        let (narration, amount, hint) = split_amount(body);
        let d1 = if narration.len() > 0 { pushed_narration(d, narration) } else { d };
        match amount {
            Some(v) => DraftView { amount: Some(signed_amount(v, hint, narration)), ..d1 },
            None => d1,
        }
    }
}

/// A following line: its narration is added, and its amount is taken when the row has
/// none yet.
pub open spec fn with_continuation(d: DraftView, line: Seq<char>) -> DraftView {
    let (narration, amount, hint) = split_amount(line);
    let d1 = if narration.len() > 0 { pushed_narration(d, narration) } else { d };
    match amount {
        Some(v) => if d1.amount is None {
            DraftView { amount: Some(signed_amount(v, hint, narration)), ..d1 }
        } else {
            d1
        },
        None => d1,
    }
}

/// A finished row: it needs an amount and a narration (the fragments joined with
/// spaces, trimmed) that is not empty.
pub open spec fn finished(d: DraftView) -> Option<StatementView> {
    let narration = trim(join_spaced(d.parts));
    match d.amount {
        Some(a) => if narration.len() > 0 {
            Some(StatementView { date: d.date, narration, amount: a, counterparty: d.counterparty })
        } else {
            None
        },
        None => None,
    }
}

/// The rows so far with the open one closed.
pub open spec fn closed_rows(done: Seq<StatementView>, current: Option<DraftView>) -> Seq<StatementView> {
    match current {
        Some(d) => match finished(d) {
            Some(r) => done.push(r),
            None => done,
        },
        None => done,
    }
}

/// The rows completed so far and the row being assembled.
pub struct PageState {
    pub done: Seq<StatementView>,
    pub current: Option<DraftView>,
}

/// One line of a page: furniture is skipped; a dated line closes the open row and opens
/// a new one; any other line extends the open row.
pub open spec fn page_step(st: PageState, line: Seq<char>) -> PageState {
    if is_noise(line) {
        st
    } else {
        match date_split(line) {
            Some((date, body)) => PageState {
                done: closed_rows(st.done, st.current),
                current: Some(with_body(new_draft(date), body)),
            },
            None => match st.current {
                Some(d) => PageState { done: st.done, current: Some(with_continuation(d, line)) },
                None => st,
            },
        }
    }
}

pub open spec fn page_run(lines: Seq<Seq<char>>) -> PageState
    decreases lines.len(),
{
    if lines.len() == 0 {
        PageState { done: Seq::empty(), current: None }
    } else {
        page_step(page_run(lines.drop_last()), lines.last())
    }
}

/// The statement rows of a page's lines.
pub open spec fn page_statements(lines: Seq<Seq<char>>) -> Seq<StatementView> {
    closed_rows(page_run(lines).done, page_run(lines).current)
}

/// The statement rows of every page, in order.
pub open spec fn pages_statements(pages: Seq<Seq<char>>) -> Seq<StatementView>
    decreases pages.len(),
{
    if pages.len() == 0 {
        Seq::empty()
    } else {
        pages_statements(pages.drop_last()) + page_statements(normalized_lines(pages.last()))
    }
}

/// Every row has a narration.
pub open spec fn rows_have_narration(rows: Seq<StatementView>) -> bool {
    forall|k: int| 0 <= k < rows.len() ==> (#[trigger] rows[k]).narration.len() > 0
}

proof fn lemma_closed_rows(done: Seq<StatementView>, current: Option<DraftView>)
    requires
        rows_have_narration(done),
    ensures
        rows_have_narration(closed_rows(done, current)),
{
    let r = closed_rows(done, current);
    assert forall|k: int| 0 <= k < r.len() implies (#[trigger] r[k]).narration.len() > 0 by {
        if k < done.len() {
            assert(r[k] == done[k]);
        }
    }
}

proof fn lemma_page_run(lines: Seq<Seq<char>>)
    ensures
        rows_have_narration(page_run(lines).done),
    decreases lines.len(),
{
    if lines.len() > 0 {
        lemma_page_run(lines.drop_last());
        let st = page_run(lines.drop_last());
        lemma_closed_rows(st.done, st.current);
    }
}

/// Every statement row the parser gives has a narration: rows whose text is blank are
/// never returned.
pub proof fn lemma_rows_have_narration(pages: Seq<Seq<char>>)
    ensures
        rows_have_narration(pages_statements(pages)),
    decreases pages.len(),
{
    if pages.len() > 0 {
        lemma_rows_have_narration(pages.drop_last());
        let lines = normalized_lines(pages.last());
        lemma_page_run(lines);
        lemma_closed_rows(page_run(lines).done, page_run(lines).current);
        let a = pages_statements(pages.drop_last());
        let b = page_statements(lines);
        assert forall|k: int| 0 <= k < (a + b).len() implies (#[trigger] (a + b)[k]).narration.len() > 0 by {
            if k < a.len() {
                assert((a + b)[k] == a[k]);
            } else {
                assert((a + b)[k] == b[k - a.len()]);
            }
        }
    }
}

pub open spec fn statements_view(v: Seq<RawStatement>) -> Seq<StatementView> {
    v.map_values(|r: RawStatement| r.view_of())
}

struct StatementDraft {
    date: Vec<char>,
    narration_parts: Vec<Vec<char>>,
    amount: Option<Amount>,
    counterparty: Option<Vec<char>>,
}

impl StatementDraft {
    spec fn view_of(self) -> DraftView {
        DraftView {
            date: self.date@,
            parts: self.narration_parts@.map_values(|v: Vec<char>| v@),
            amount: match self.amount {
                Some(a) => Some(a@),
                None => None,
            },
            counterparty: match self.counterparty {
                Some(c) => Some(c@),
                None => None,
            },
        }
    }

    fn new(date: Vec<char>) -> (r: Self)
        ensures
            r.view_of() == new_draft(date@),
    {
        let r = StatementDraft { date, narration_parts: Vec::new(), amount: None, counterparty: None };
        proof {
            assert(r.view_of().parts =~= Seq::<Seq<char>>::empty());
        }
        r
    }

    fn push_narration(&mut self, fragment: &Vec<char>)
        ensures
            final(self).view_of() == pushed_narration(old(self).view_of(), fragment@),
    {
        let cleaned = trim_chars(fragment);
        if cleaned.len() == 0 {
            return;
        }
        let ghost before = self.view_of();
        let found = if self.counterparty.is_none() { detect_counterparty(&cleaned) } else { None };
        let ghost cv = cleaned@;
        self.narration_parts.push(cleaned);
        if self.counterparty.is_none() {
            self.counterparty = found;
        }
        proof {
            assert(self.view_of().parts =~= before.parts.push(cv));
        }
    }

    fn apply_body_to_draft(&mut self, body: &Vec<char>)
        ensures
            final(self).view_of() == with_body(old(self).view_of(), body@),
    {
        if body.len() == 0 {
            return;
        }
        let (narration, amount, sign_hint) = split_amount_from_text(body);
        if narration.len() > 0 {
            self.push_narration(&narration);
        }
        match amount {
            Some(v) => {
                self.amount = Some(apply_sign(v, sign_hint, &narration));
            },
            None => {},
        }
    }

    fn apply_continuation_line(&mut self, line: &Vec<char>)
        ensures
            final(self).view_of() == with_continuation(old(self).view_of(), line@),
    {
        let (narration, amount, sign_hint) = split_amount_from_text(line);
        if narration.len() > 0 {
            self.push_narration(&narration);
        }
        if self.amount.is_none() {
            match amount {
                Some(v) => {
                    self.amount = Some(apply_sign(v, sign_hint, &narration));
                },
                None => {},
            }
        }
    }

    fn finish(self) -> (r: Option<RawStatement>)
        ensures
            r matches Some(s) ==> finished(self.view_of()) == Some(s.view_of()),
            r is None ==> finished(self.view_of()) is None,
    {
        let amount = match self.amount {
            Some(a) => a,
            None => {
                return None;
            },
        };
        let narration = trim_chars(&join_words(&self.narration_parts));
        if narration.len() == 0 {
            return None;
        }
        let counterparty = match &self.counterparty {
            Some(c) => Some(string_of(c)),
            None => None,
        };
        let r = RawStatement {
            date: string_of(&self.date),
            narration: string_of(&narration),
            amount,
            counterparty,
        };
        Some(r)
    }
}

fn close_draft(results: &mut Vec<RawStatement>, current: Option<StatementDraft>)
    ensures
        statements_view(final(results)@) == closed_rows(
            statements_view(old(results)@),
            match current {
                Some(d) => Some(d.view_of()),
                None => None,
            },
        ),
{
    match current {
        Some(d) => {
            match d.finish() {
                Some(r) => {
                    let ghost before = statements_view(results@);
                    results.push(r);
                    proof {
                        assert(statements_view(results@) =~= before.push(r.view_of()));
                    }
                },
                None => {},
            }
        },
        None => {},
    }
}

/// Reconstructs the statement rows of one page's lines.
pub fn parse_page_lines(lines: &Vec<Vec<char>>) -> (r: Vec<RawStatement>)
    ensures
        statements_view(r@) == page_statements(lines@.map_values(|v: Vec<char>| v@)),
{
    let ghost lv = lines@.map_values(|v: Vec<char>| v@);
    let mut results: Vec<RawStatement> = Vec::new();
    let mut current: Option<StatementDraft> = None;
    let mut i: usize = 0;
    proof {
        assert(statements_view(results@) =~= Seq::<StatementView>::empty());
        assert(lv.take(0) =~= Seq::<Seq<char>>::empty());
    }
    while i < lines.len()
        invariant
            i <= lines.len(),
            lv == lines@.map_values(|v: Vec<char>| v@),
            page_run(lv.take(i as int)) == (PageState {
                done: statements_view(results@),
                current: match current {
                    Some(d) => Some(d.view_of()),
                    None => None,
                },
            }),
        decreases lines.len() - i,
    {
        let line = &lines[i];
        proof {
            assert(lv.take(i + 1).drop_last() =~= lv.take(i as int));
            assert(lv.take(i + 1).last() == line@);
        }
        if is_noise_line(line) {
        } else {
            match extract_date_and_body(line) {
                Some((date, body)) => {
                    let previous = current;
                    close_draft(&mut results, previous);
                    let mut draft = StatementDraft::new(date);
                    draft.apply_body_to_draft(&body);
                    current = Some(draft);
                },
                None => {
                    match current {
                        Some(mut d) => {
                            d.apply_continuation_line(line);
                            current = Some(d);
                        },
                        None => {
                            current = None;
                        },
                    }
                },
            }
        }
        i = i + 1;
    }
    proof {
        assert(lv.take(lines.len() as int) =~= lv);
    }
    close_draft(&mut results, current);
    results
}


/// The page texts handed to the parser: each page's text, or `None` when the file could
/// not be read.
pub open spec fn extraction_view(pages: Option<Vec<String>>) -> Option<Seq<Seq<char>>> {
    match pages {
        None => None,
        Some(v) => Some(texts_view(v@)),
    }
}

/// Reconstructs the statement rows of every page, in order; a document in which no row
/// can be found is of an unknown format.
pub fn parse_pages(pages: Vec<String>) -> (r: Result<Vec<RawStatement>, ParserError>)
    ensures
        match r {
            Ok(v) => statements_view(v@) == pages_statements(texts_view(pages@)) && v@.len() > 0,
            Err(e) => e == ParserError::UnknownFormat && pages_statements(texts_view(pages@)).len() == 0,
        },
{
    let ghost pv = texts_view(pages@);
    let mut statements: Vec<RawStatement> = Vec::new();
    let mut i: usize = 0;
    proof {
        assert(pv.take(0) =~= Seq::<Seq<char>>::empty());
        assert(statements_view(statements@) =~= Seq::<StatementView>::empty());
    }
    while i < pages.len()
        invariant
            i <= pages.len(),
            pv == texts_view(pages@),
            statements_view(statements@) == pages_statements(pv.take(i as int)),
        decreases pages.len() - i,
    {
        let lines = normalize_page_text(pages[i].as_str());
        let mut page_rows = parse_page_lines(&lines);
        let ghost before = statements_view(statements@);
        let ghost rows = statements_view(page_rows@);
        statements.append(&mut page_rows);
        proof {
            assert(pv.take(i + 1).drop_last() =~= pv.take(i as int));
            assert(pv.take(i + 1).last() == pages@[i as int]@);
            assert(statements_view(statements@) =~= before + rows);
        }
        i = i + 1;
    }
    proof {
        assert(pv.take(pages.len() as int) =~= pv);
    }
    if statements.len() == 0 {
        return Err(ParserError::UnknownFormat);
    }
    Ok(statements)
}

/// The PDF statement parser.
pub struct PdfParserAdapter;

impl PdfParserAdapter {
    pub fn new() -> (r: Self) {
        PdfParserAdapter
    }

    /// Reconstructs the statement rows from the text of each page of a PDF, as the text
    /// extractor gave it; a file the extractor could not read (`None`) is a file error.
    pub fn parse_pdf(&self, pages: Option<Vec<String>>) -> (r: Result<Vec<RawStatement>, ParserError>)
        ensures
            match extraction_view(pages) {
                None => r == Err::<Vec<RawStatement>, ParserError>(ParserError::FileError),
                Some(texts) => match r {
                    Ok(v) => statements_view(v@) == pages_statements(texts) && v@.len() > 0,
                    Err(e) => e == ParserError::UnknownFormat && pages_statements(texts).len() == 0,
                },
            },
    {
        match pages {
            Some(texts) => parse_pages(texts),
            None => Err(ParserError::FileError),
        }
    }
}

} // verus!
