//! Extraction of advisory records from the listing page.
//!
//! The page is plain text; an advisory block is a date in `YYYY-MM-DD`
//! form, the delimiter ` - <A HREF="`, the link target up to the closing
//! quote, `">`, an optional `[slackware-security]` marker, and the link
//! text through the closing parenthesis of the advisory code. The grammar
//! is written out as spec functions below; [`extract_advisories`] is proved
//! to return exactly the blocks that grammar recognizes, in document order.

use vstd::prelude::*;

use crate::advisor::{Advisor, AdvisorView, Date, date_valid, spec_days_in_month};

verus! {

/// The fixed text between the date and the link target of a block.
pub open spec fn delim() -> Seq<char> {
    " - <A HREF=\""@
}

/// The marker the upstream page puts in front of the link text.
pub open spec fn marker() -> Seq<char> {
    "[slackware-security]"@
}

/// The advisory-listing base address that link targets are relative to.
pub open spec fn base_url() -> Seq<char> {
    "http://www.slackware.com/security/"@
}

pub open spec fn spec_digit(c: char) -> int {
    if c == '0' {
        0
    } else if c == '1' {
        1
    } else if c == '2' {
        2
    } else if c == '3' {
        3
    } else if c == '4' {
        4
    } else if c == '5' {
        5
    } else if c == '6' {
        6
    } else if c == '7' {
        7
    } else if c == '8' {
        8
    } else if c == '9' {
        9
    } else {
        -1
    }
}

pub open spec fn is_digit(c: char) -> bool {
    spec_digit(c) >= 0
}

/// Ten characters in the shape `YYYY-MM-DD`.
pub open spec fn date_shape(s: Seq<char>) -> bool {
    &&& s.len() == 10
    &&& is_digit(s[0]) && is_digit(s[1]) && is_digit(s[2]) && is_digit(s[3])
    &&& s[4] == '-'
    &&& is_digit(s[5]) && is_digit(s[6])
    &&& s[7] == '-'
    &&& is_digit(s[8]) && is_digit(s[9])
}

/// The numbers written in a `YYYY-MM-DD` shaped sequence.
pub open spec fn date_of(s: Seq<char>) -> Date
    recommends
        date_shape(s),
{
    Date {
        year: (spec_digit(s[0]) * 1000 + spec_digit(s[1]) * 100 + spec_digit(s[2]) * 10
            + spec_digit(s[3])) as u32,
        month: (spec_digit(s[5]) * 10 + spec_digit(s[6])) as u32,
        day: (spec_digit(s[8]) * 10 + spec_digit(s[9])) as u32,
    }
}

pub open spec fn is_space(c: char) -> bool {
    c == ' ' || c == '\t' || c == '\r' || c == '\n'
}

/// The sequence with leading and trailing whitespace removed.
pub open spec fn trim_spec(s: Seq<char>) -> Seq<char>
    decreases s.len(),
{
    if s.len() > 0 && is_space(s[0]) {
        trim_spec(s.subrange(1, s.len() as int))
    } else if s.len() > 0 && is_space(s[s.len() - 1]) {
        trim_spec(s.subrange(0, s.len() - 1))
    } else {
        s
    }
}

/// First position at or after `i` holding the closing quote of a link
/// target; the search fails on a line break or at the end of the text.
pub open spec fn find_href_end(s: Seq<char>, i: int) -> Option<int>
    decreases s.len() - i,
    when 0 <= i <= s.len()
{
    if i >= s.len() {
        None
    } else if s[i] == '"' {
        Some(i)
    } else if s[i] == '\n' {
        None
    } else {
        find_href_end(s, i + 1)
    }
}

/// First position at or after `i` holding the closing parenthesis of the
/// advisory code; the search fails on a line break, a tag opening, or the
/// end of the text.
pub open spec fn find_label_end(s: Seq<char>, i: int) -> Option<int>
    decreases s.len() - i,
    when 0 <= i <= s.len()
{
    if i >= s.len() {
        None
    } else if s[i] == ')' {
        Some(i)
    } else if s[i] == '\n' || s[i] == '<' {
        None
    } else {
        find_label_end(s, i + 1)
    }
}

pub open spec fn marker_present(s: Seq<char>, j: int) -> bool {
    j + marker().len() <= s.len() && s.subrange(j, j + marker().len()) == marker()
}

/// One recognized advisory block: the raw date characters, the link
/// target, the trimmed link text, and the position just past the block.
#[verifier::ext_equal]
pub struct Block {
    pub date: Seq<char>,
    pub href: Seq<char>,
    pub label: Seq<char>,
    pub end: int,
}

/// The block starting at position `i`, if the grammar matches there.
pub open spec fn block_at(s: Seq<char>, i: int) -> Option<Block> {
    let d_end = i + 10;
    let h_start = d_end + delim().len();
    if i < 0 || h_start > s.len() {
        None
    } else if !date_shape(s.subrange(i, d_end)) {
        None
    } else if s.subrange(d_end, h_start) != delim() {
        None
    } else {
        match find_href_end(s, h_start) {
            None => None,
            Some(q) => {
                if q + 2 > s.len() || s[q + 1] != '>' {
                    None
                } else {
                    let t0 = if marker_present(s, q + 2) {
                        q + 2 + marker().len()
                    } else {
                        q + 2
                    };
                    match find_label_end(s, t0) {
                        None => None,
                        Some(p) => Some(
                            Block {
                                date: s.subrange(i, d_end),
                                href: s.subrange(h_start, q),
                                label: trim_spec(s.subrange(t0, p + 1)),
                                end: p + 1,
                            },
                        ),
                    }
                }
            },
        }
    }
}

proof fn lemma_find_href_end_some(s: Seq<char>, i: int)
    requires
        0 <= i <= s.len(),
    ensures
        find_href_end(s, i) matches Some(q) ==> i <= q < s.len(),
    decreases s.len() - i,
{
    if i < s.len() && s[i] != '"' && s[i] != '\n' {
        lemma_find_href_end_some(s, i + 1);
    }
}

proof fn lemma_find_label_end_some(s: Seq<char>, i: int)
    requires
        0 <= i <= s.len(),
    ensures
        find_label_end(s, i) matches Some(p) ==> i <= p < s.len(),
    decreases s.len() - i,
{
    if i < s.len() && s[i] != ')' && s[i] != '\n' && s[i] != '<' {
        lemma_find_label_end_some(s, i + 1);
    }
}

/// A recognized block lies inside the text and ends past its start.
pub proof fn lemma_block_at_bounds(s: Seq<char>, i: int)
    requires
        0 <= i <= s.len(),
    ensures
        block_at(s, i) matches Some(b) ==> i < b.end <= s.len(),
{
    let d_end = i + 10;
    let h_start = d_end + delim().len();
    if 0 <= h_start <= s.len() {
        lemma_find_href_end_some(s, h_start);
        if find_href_end(s, h_start) is Some {
            let q = find_href_end(s, h_start)->Some_0;
            if q + 2 <= s.len() {
                if marker_present(s, q + 2) {
                    lemma_find_label_end_some(s, q + 2 + marker().len());
                } else {
                    lemma_find_label_end_some(s, q + 2);
                }
            }
        }
    }
}

/// Every block of the text from position `i` on, in document order.
pub open spec fn blocks_from(s: Seq<char>, i: int) -> Seq<Block>
    decreases s.len() - i,
    when 0 <= i <= s.len()
    via blocks_from_decreases
{
    if i >= s.len() {
        Seq::empty()
    } else {
        match block_at(s, i) {
            Some(b) => seq![b] + blocks_from(s, b.end),
            None => blocks_from(s, i + 1),
        }
    }
}

#[via_fn]
proof fn blocks_from_decreases(s: Seq<char>, i: int) {
    lemma_block_at_bounds(s, i);
}

/// All blocks of the whole text, in document order.
pub open spec fn spec_blocks(s: Seq<char>) -> Seq<Block> {
    blocks_from(s, 0)
}

pub open spec fn block_date_valid(b: Block) -> bool {
    date_shape(b.date) && date_valid(date_of(b.date))
}

/// Whether every recognized block carries a real calendar date; when one
/// does not, the whole extraction fails rather than returning a partial
/// result.
pub open spec fn all_dates_valid(s: Seq<char>) -> bool {
    forall|k: int|
        0 <= k < spec_blocks(s).len() ==> #[trigger] block_date_valid(spec_blocks(s)[k])
}

/// The record a block turns into: no identifier yet, the parsed date, the
/// trimmed link text as the package name, the link target made absolute,
/// and the caller's year.
pub open spec fn advisory_view_of(b: Block, year: i32) -> AdvisorView {
    AdvisorView {
        id: None,
        date: date_of(b.date),
        package_name: b.label,
        url: base_url() + b.href,
        year,
    }
}

/// Extraction failed because a matched block's date is not a real
/// calendar date.
#[derive(Clone, Copy, PartialEq, Eq, Structural, Debug)]
pub enum ExtractError {
    InvalidDate,
}

fn digit_of(c: char) -> (r: Option<u32>)
    ensures
        r matches Some(v) ==> is_digit(c) && v == spec_digit(c),
        r is None ==> !is_digit(c),
{
    if c == '0' {
        Some(0)
    } else if c == '1' {
        Some(1)
    } else if c == '2' {
        Some(2)
    } else if c == '3' {
        Some(3)
    } else if c == '4' {
        Some(4)
    } else if c == '5' {
        Some(5)
    } else if c == '6' {
        Some(6)
    } else if c == '7' {
        Some(7)
    } else if c == '8' {
        Some(8)
    } else if c == '9' {
        Some(9)
    } else {
        None
    }
}

fn is_space_exec(c: char) -> (b: bool)
    ensures
        b == is_space(c),
{
    c == ' ' || c == '\t' || c == '\r' || c == '\n'
}

/// Whether `pat` occurs in `s` starting exactly at position `i`.
fn has_substr_at(s: &str, n: usize, i: usize, pat: &str) -> (b: bool)
    requires
        n == s@.len(),
        i <= n,
    ensures
        b == (i + pat@.len() <= s@.len() && s@.subrange(i as int, i + pat@.len()) == pat@),
{
    let m = pat.unicode_len();
    if m > n - i {
        return false;
    }
    let mut k: usize = 0;
    while k < m
        invariant
            n == s@.len(),
            m == pat@.len(),
            i + m <= n,
            0 <= k <= m,
            forall|j: int| 0 <= j < k ==> s@[i + j] == pat@[j],
        decreases m - k,
    {
        let cs = s.get_char(i + k);
        let cp = pat.get_char(k);
        if cs != cp {
            proof {
                assert(s@.subrange(i as int, i + pat@.len())[k as int] != pat@[k as int]);
            }
            return false;
        }
        k = k + 1;
    }
    proof {
        assert(s@.subrange(i as int, i + pat@.len()) =~= pat@);
    }
    true
}

fn find_href_end_exec(s: &str, n: usize, i: usize) -> (r: Option<usize>)
    requires
        n == s@.len(),
        i <= n,
    ensures
        match r {
            Some(q) => find_href_end(s@, i as int) == Some(q as int) && i <= q < n,
            None => find_href_end(s@, i as int) is None,
        },
{
    let mut j: usize = i;
    loop
        invariant
            n == s@.len(),
            i <= j <= n,
            find_href_end(s@, i as int) == find_href_end(s@, j as int),
        decreases n - j,
    {
        if j == n {
            return None;
        }
        let c = s.get_char(j);
        if c == '"' {
            return Some(j);
        }
        if c == '\n' {
            return None;
        }
        j = j + 1;
    }
}

fn find_label_end_exec(s: &str, n: usize, i: usize) -> (r: Option<usize>)
    requires
        n == s@.len(),
        i <= n,
    ensures
        match r {
            Some(p) => find_label_end(s@, i as int) == Some(p as int) && i <= p < n,
            None => find_label_end(s@, i as int) is None,
        },
{
    let mut j: usize = i;
    loop
        invariant
            n == s@.len(),
            i <= j <= n,
            find_label_end(s@, i as int) == find_label_end(s@, j as int),
        decreases n - j,
    {
        if j == n {
            return None;
        }
        let c = s.get_char(j);
        if c == ')' {
            return Some(j);
        }
        if c == '\n' || c == '<' {
            return None;
        }
        j = j + 1;
    }
}

/// Reads the ten characters starting at `i` as a `YYYY-MM-DD` date;
/// `None` exactly when they do not have that shape.
fn parse_date_at(s: &str, n: usize, i: usize) -> (r: Option<Date>)
    requires
        n == s@.len(),
        i + 10 <= n,
    ensures
        match r {
            Some(d) => date_shape(s@.subrange(i as int, i + 10)) && d == date_of(
                s@.subrange(i as int, i + 10),
            ),
            None => !date_shape(s@.subrange(i as int, i + 10)),
        },
{
    let ghost ds = s@.subrange(i as int, i + 10);
    if s.get_char(i + 4) != '-' || s.get_char(i + 7) != '-' {
        return None;
    }
    let d0 = digit_of(s.get_char(i));
    let d1 = digit_of(s.get_char(i + 1));
    let d2 = digit_of(s.get_char(i + 2));
    let d3 = digit_of(s.get_char(i + 3));
    let m0 = digit_of(s.get_char(i + 5));
    let m1 = digit_of(s.get_char(i + 6));
    let a0 = digit_of(s.get_char(i + 8));
    let a1 = digit_of(s.get_char(i + 9));
    match (d0, d1, d2, d3, m0, m1, a0, a1) {
        (Some(d0), Some(d1), Some(d2), Some(d3), Some(m0), Some(m1), Some(a0), Some(a1)) => {
            let d = Date {
                year: d0 * 1000 + d1 * 100 + d2 * 10 + d3,
                month: m0 * 10 + m1,
                day: a0 * 10 + a1,
            };
            proof {
                assert(ds[0] == s@[i as int]);
                assert(date_shape(ds));
            }
            Some(d)
        },
        _ => None,
    }
}

/// Whether the date names a real day of the proleptic Gregorian calendar.
fn date_is_valid(d: Date) -> (b: bool)
    ensures
        b == date_valid(d),
{
    if d.month < 1 || d.month > 12 || d.day < 1 || d.year > 9999 {
        return false;
    }
    let days: u32 = if d.month == 1 || d.month == 3 || d.month == 5 || d.month == 7 || d.month == 8
        || d.month == 10 || d.month == 12 {
        31
    } else if d.month == 4 || d.month == 6 || d.month == 9 || d.month == 11 {
        30
    } else if (d.year % 4 == 0 && d.year % 100 != 0) || d.year % 400 == 0 {
        29
    } else {
        28
    };
    proof {
        assert(days == spec_days_in_month(d.year as int, d.month as int));
    }
    d.day <= days
}

/// Copies `s` with leading and trailing whitespace removed.
fn trimmed(s: &str) -> (r: String)
    ensures
        r@ == trim_spec(s@),
{
    let n = s.unicode_len();
    let mut a: usize = 0;
    while a < n && is_space_exec(s.get_char(a))
        invariant
            n == s@.len(),
            0 <= a <= n,
            forall|k: int| 0 <= k < a ==> is_space(s@[k]),
        decreases n - a,
    {
        a = a + 1;
    }
    let mut b: usize = n;
    while b > a && is_space_exec(s.get_char(b - 1))
        invariant
            n == s@.len(),
            a <= b <= n,
            forall|k: int| b <= k < n ==> is_space(s@[k]),
        decreases b,
    {
        b = b - 1;
    }
    let t = s.substring_char(a, b);
    proof {
        lemma_trim_range(s@, a as int, b as int);
    }
    String::from_str(t)
}

/// `trim_spec` keeps exactly the stretch between the first and last
/// non-whitespace characters.
proof fn lemma_trim_range(s: Seq<char>, a: int, b: int)
    requires
        0 <= a <= b <= s.len(),
        forall|k: int| 0 <= k < a ==> is_space(s[k]),
        forall|k: int| b <= k < s.len() ==> is_space(s[k]),
        a < b ==> !is_space(s[a]) && !is_space(s[b - 1]),
    ensures
        trim_spec(s) == s.subrange(a, b),
    decreases s.len(),
{
    if s.len() > 0 && is_space(s[0]) {
        let t = s.subrange(1, s.len() as int);
        if a > 0 {
            lemma_trim_range(t, a - 1, b - 1);
            assert(s.subrange(a, b) =~= t.subrange(a - 1, b - 1));
        } else {
            // a == 0, so s[0] is not a space unless a == b: every
            // character is whitespace and the result is empty.
            assert(a == b);
            lemma_trim_range(t, 0, 0);
            assert(s.subrange(a, b) =~= t.subrange(0, 0));
        }
    } else if s.len() > 0 && is_space(s[s.len() - 1]) {
        let t = s.subrange(0, s.len() - 1);
        assert(b <= s.len() - 1);
        lemma_trim_range(t, a, b);
        assert(s.subrange(a, b) =~= t.subrange(a, b));
    } else {
        assert(a == 0);
        assert(b == s.len());
        assert(s.subrange(a, b) =~= s);
    }
}

/// The pieces of a block found at one position: the start of the link
/// target, the closing quote, the start of the link text, the closing
/// parenthesis, and the end of the block.
struct RawParts {
    date: Date,
    h_start: usize,
    q: usize,
    t0: usize,
    p: usize,
    end: usize,
}

fn try_block_at(s: &str, n: usize, i: usize) -> (r: Option<RawParts>)
    requires
        n == s@.len(),
        i < n,
    ensures
        match r {
            Some(rp) => {
                &&& block_at(s@, i as int) matches Some(b)
                &&& b == (Block {
                    date: s@.subrange(i as int, i + 10),
                    href: s@.subrange(rp.h_start as int, rp.q as int),
                    label: trim_spec(s@.subrange(rp.t0 as int, rp.p + 1)),
                    end: rp.end as int,
                })
                &&& rp.date == date_of(s@.subrange(i as int, i + 10))
                &&& rp.h_start == i + 10 + delim().len()
                &&& rp.h_start <= rp.q < n
                &&& rp.q + 2 <= rp.t0 <= rp.p < rp.end <= n
                &&& i < rp.end
            },
            None => block_at(s@, i as int) is None,
        },
{
    proof {
        reveal_strlit(" - <A HREF=\"");
        reveal_strlit("[slackware-security]");
    }
    if n - i < 22 {
        return None;
    }
    let d = match parse_date_at(s, n, i) {
        Some(d) => d,
        None => {
            return None;
        },
    };
    if !has_substr_at(s, n, i + 10, " - <A HREF=\"") {
        return None;
    }
    let h_start = i + 22;
    let q = match find_href_end_exec(s, n, h_start) {
        Some(q) => q,
        None => {
            return None;
        },
    };
    if q >= n - 1 {
        return None;
    }
    if s.get_char(q + 1) != '>' {
        return None;
    }
    let t0 = if has_substr_at(s, n, q + 2, "[slackware-security]") {
        q + 22
    } else {
        q + 2
    };
    let p = match find_label_end_exec(s, n, t0) {
        Some(p) => p,
        None => {
            return None;
        },
    };
    Some(RawParts { date: d, h_start, q, t0, p, end: p + 1 })
}

/// Parses the listing page body into advisory records, one per block the
/// grammar recognizes, in document order. The whole extraction fails the
/// moment one block's date is not a real calendar date: no partial result
/// is ever returned.
pub fn extract_advisories(body: &str, year: i32) -> (r: Result<Vec<Advisor>, ExtractError>)
    ensures
        match r {
            Ok(v) => {
                &&& all_dates_valid(body@)
                &&& v@.len() == spec_blocks(body@).len()
                &&& forall|k: int|
                    0 <= k < v@.len() ==> (#[trigger] v@[k])@ == advisory_view_of(
                        spec_blocks(body@)[k],
                        year,
                    )
            },
            Err(e) => !all_dates_valid(body@) && e == ExtractError::InvalidDate,
        },
{
    let n = body.unicode_len();
    let mut out: Vec<Advisor> = Vec::new();
    let ghost mut done: Seq<Block> = Seq::empty();
    let mut i: usize = 0;
    while i < n
        invariant
            n == body@.len(),
            0 <= i <= n,
            spec_blocks(body@) == done + blocks_from(body@, i as int),
            out@.len() == done.len(),
            forall|k: int|
                #![trigger done[k]]
                #![trigger out@[k]]
                0 <= k < done.len() ==> block_date_valid(done[k]) && out@[k]@ == advisory_view_of(
                    done[k],
                    year,
                ),
        decreases n - i,
    {
        match try_block_at(body, n, i) {
            Some(rp) => {
                let ghost b = block_at(body@, i as int)->Some_0;
                let d = rp.date;
                proof {
                    assert(blocks_from(body@, i as int) == seq![b] + blocks_from(
                        body@,
                        b.end,
                    ));
                    assert(spec_blocks(body@)[done.len() as int] == b);
                }
                if !date_is_valid(d) {
                    proof {
                        assert(!block_date_valid(b));
                        assert(!all_dates_valid(body@));
                    }
                    return Err(ExtractError::InvalidDate);
                }
                let href = body.substring_char(rp.h_start, rp.q);
                let url = String::from_str("http://www.slackware.com/security/").concat(href);
                let label = trimmed(body.substring_char(rp.t0, rp.p + 1));
                let adv = Advisor::new(None, d, label, url, year);
                proof {
                    assert(adv@ =~= advisory_view_of(b, year));
                }
                out.push(adv);
                proof {
                    done = done.push(b);
                    assert(spec_blocks(body@) =~= done + blocks_from(body@, b.end));
                }
                i = rp.end;
            },
            None => {
                proof {
                    assert(blocks_from(body@, i as int) == blocks_from(body@, i + 1));
                }
                i = i + 1;
            },
        }
    }
    proof {
        assert(blocks_from(body@, n as int) =~= Seq::<Block>::empty());
        assert(spec_blocks(body@) =~= done);
        assert forall|k: int| 0 <= k < spec_blocks(body@).len() implies #[trigger] block_date_valid(
            spec_blocks(body@)[k],
        ) by {
            assert(block_date_valid(done[k]));
        }
        assert forall|k: int| 0 <= k < out@.len() implies (#[trigger] out@[k])@ == advisory_view_of(
            spec_blocks(body@)[k],
            year,
        ) by {
            assert(out@[k]@ == advisory_view_of(done[k], year));
        }
    }
    Ok(out)
}

} // verus!
