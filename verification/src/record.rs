//! Parsing of one raw staged-change record line.
//!
//! A record line has the shape
//! `<src_mode> <dst_mode> <src_hash> <dst_hash> <status><score?> <src_path>[\t<dst_path>]`:
//! two six-digit mode fields, two forty-character lowercase-hex object ids, a
//! one-letter status optionally followed by up to three score digits, and one
//! or two path fields.  The path part is "rest of line": it is split at the
//! first tab that still leaves a non-empty second path, so paths containing
//! spaces survive unchanged.

use vstd::prelude::*;

use crate::util::copy_range;

verus! {

pub const SPACE: u8 = 32;

pub const TAB: u8 = 9;

pub const NEWLINE: u8 = 10;

/// A byte is an ASCII decimal digit.
pub open spec fn is_digit_byte(b: u8) -> bool {
    48 <= b && b <= 57
}

/// A byte is a lowercase ASCII hexadecimal digit.
pub open spec fn is_hex_byte(b: u8) -> bool {
    is_digit_byte(b) || (97 <= b && b <= 102)
}

/// A byte is one of the status letters `A C D M R T U X B`.
pub open spec fn is_status_byte(b: u8) -> bool {
    b == 65 || b == 66 || b == 67 || b == 68 || b == 77 || b == 82 || b == 84 || b == 85 || b == 88
}

pub open spec fn all_digits(s: Seq<u8>) -> bool {
    forall|i: int| 0 <= i < s.len() ==> is_digit_byte(s[i])
}

pub open spec fn all_hex(s: Seq<u8>) -> bool {
    forall|i: int| 0 <= i < s.len() ==> is_hex_byte(s[i])
}

pub open spec fn no_newline(s: Seq<u8>) -> bool {
    forall|i: int| 0 <= i < s.len() ==> s[i] != NEWLINE
}

/// Position `i` of `s` exists and holds a digit.
pub open spec fn digit_at(s: Seq<u8>, i: int) -> bool {
    0 <= i < s.len() && is_digit_byte(s[i])
}

/// Length of the score-digit run that follows the status letter, capped at
/// three digits as the grammar caps it.
pub open spec fn score_len(s: Seq<u8>) -> int {
    if !digit_at(s, 97) {
        0
    } else if !digit_at(s, 98) {
        1
    } else if !digit_at(s, 99) {
        2
    } else {
        3
    }
}

/// The whole line matches the record grammar.
pub open spec fn line_matches(s: Seq<u8>) -> bool {
    let k = score_len(s);
    &&& s.len() >= 99 + k
    &&& all_digits(s.subrange(0, 6))
    &&& s[6] == SPACE
    &&& all_digits(s.subrange(7, 13))
    &&& s[13] == SPACE
    &&& all_hex(s.subrange(14, 54))
    &&& s[54] == SPACE
    &&& all_hex(s.subrange(55, 95))
    &&& s[95] == SPACE
    &&& is_status_byte(s[96])
    &&& s[97 + k] == SPACE
    &&& no_newline(s.subrange(98 + k, s.len() as int))
}

/// First position of the path part at which it splits into two paths: the
/// first tab, at or after position one, that still leaves at least one byte
/// after it; `-1` when there is no such tab.
pub open spec fn split_from(t: Seq<u8>, i: int) -> int
    decreases t.len() - i,
{
    if i < 1 || i + 1 >= t.len() {
        -1
    } else if t[i] == TAB {
        i
    } else {
        split_from(t, i + 1)
    }
}

pub open spec fn split_pos(t: Seq<u8>) -> int {
    split_from(t, 1)
}

/// The first path captured from the path part of a line.
pub open spec fn src_of(t: Seq<u8>) -> Seq<u8> {
    let p = split_pos(t);
    if p < 0 {
        t
    } else {
        t.subrange(0, p)
    }
}

/// The second path captured from the path part of a line; empty when the line
/// carries only one path.
pub open spec fn dst_of(t: Seq<u8>) -> Seq<u8> {
    let p = split_pos(t);
    if p < 0 {
        Seq::empty()
    } else {
        t.subrange(p + 1, t.len() as int)
    }
}

/// One staged change, as parsed from a record line.
pub struct DiffRecord {
    pub src_mode: Vec<u8>,
    pub dst_mode: Vec<u8>,
    pub src_hash: Vec<u8>,
    pub dst_hash: Vec<u8>,
    pub status: u8,
    pub score_digits: Vec<u8>,
    pub src_path: Vec<u8>,
    pub dst_path: Vec<u8>,
}

pub ghost struct RecordModel {
    pub src_mode: Seq<u8>,
    pub dst_mode: Seq<u8>,
    pub src_hash: Seq<u8>,
    pub dst_hash: Seq<u8>,
    pub status: u8,
    pub score_digits: Seq<u8>,
    pub src_path: Seq<u8>,
    pub dst_path: Seq<u8>,
}

impl View for DiffRecord {
    type V = RecordModel;

    open spec fn view(&self) -> RecordModel {
        RecordModel {
            src_mode: self.src_mode@,
            dst_mode: self.dst_mode@,
            src_hash: self.src_hash@,
            dst_hash: self.dst_hash@,
            status: self.status,
            score_digits: self.score_digits@,
            src_path: self.src_path@,
            dst_path: self.dst_path@,
        }
    }
}

/// Well-formedness of a record: exactly what parsing a grammatical line
/// guarantees of each field.
pub open spec fn wf_record(r: RecordModel) -> bool {
    &&& r.src_mode.len() == 6 && all_digits(r.src_mode)
    &&& r.dst_mode.len() == 6 && all_digits(r.dst_mode)
    &&& r.src_hash.len() == 40 && all_hex(r.src_hash)
    &&& r.dst_hash.len() == 40 && all_hex(r.dst_hash)
    &&& is_status_byte(r.status)
    &&& r.score_digits.len() <= 3 && all_digits(r.score_digits)
    &&& r.src_path.len() >= 1 && no_newline(r.src_path)
    &&& no_newline(r.dst_path)
}

/// The line a record prints back to: every captured field in place, the tab
/// re-inserted exactly when a second path was captured.
pub open spec fn render(r: RecordModel) -> Seq<u8> {
    r.src_mode + seq![SPACE] + r.dst_mode + seq![SPACE] + r.src_hash + seq![SPACE] + r.dst_hash
        + seq![SPACE] + seq![r.status] + r.score_digits + seq![SPACE] + r.src_path + (
    if r.dst_path.len() == 0 {
        Seq::<u8>::empty()
    } else {
        seq![TAB] + r.dst_path
    })
}

/// A record line did not match the grammar.
#[derive(Clone, Copy, PartialEq, Eq, Structural, Debug)]
pub struct ParseError {
}

fn is_digit_b(b: u8) -> (r: bool)
    ensures
        r == is_digit_byte(b),
{
    48 <= b && b <= 57
}

fn is_hex_b(b: u8) -> (r: bool)
    ensures
        r == is_hex_byte(b),
{
    (48 <= b && b <= 57) || (97 <= b && b <= 102)
}

fn is_status_b(b: u8) -> (r: bool)
    ensures
        r == is_status_byte(b),
{
    b == 65 || b == 66 || b == 67 || b == 68 || b == 77 || b == 82 || b == 84 || b == 85 || b == 88
}

fn all_digits_range(v: &Vec<u8>, a: usize, b: usize) -> (r: bool)
    requires
        a <= b <= v.len(),
    ensures
        r == all_digits(v@.subrange(a as int, b as int)),
{
    let mut i: usize = a;
    while i < b
        invariant
            a <= i <= b <= v.len(),
            forall|j: int| a <= j < i ==> is_digit_byte(v@[j]),
        decreases b - i,
    {
        if !is_digit_b(v[i]) {
            proof {
                assert(v@.subrange(a as int, b as int)[i - a] == v@[i as int]);
            }
            return false;
        }
        i = i + 1;
    }
    proof {
        assert forall|m: int| 0 <= m < b - a implies is_digit_byte(
            v@.subrange(a as int, b as int)[m],
        ) by {
            assert(v@.subrange(a as int, b as int)[m] == v@[a + m]);
        }
    }
    true
}

fn all_hex_range(v: &Vec<u8>, a: usize, b: usize) -> (r: bool)
    requires
        a <= b <= v.len(),
    ensures
        r == all_hex(v@.subrange(a as int, b as int)),
{
    let mut i: usize = a;
    while i < b
        invariant
            a <= i <= b <= v.len(),
            forall|j: int| a <= j < i ==> is_hex_byte(v@[j]),
        decreases b - i,
    {
        if !is_hex_b(v[i]) {
            proof {
                assert(v@.subrange(a as int, b as int)[i - a] == v@[i as int]);
            }
            return false;
        }
        i = i + 1;
    }
    proof {
        assert forall|m: int| 0 <= m < b - a implies is_hex_byte(
            v@.subrange(a as int, b as int)[m],
        ) by {
            assert(v@.subrange(a as int, b as int)[m] == v@[a + m]);
        }
    }
    true
}

/// Find the split position of a path part, mirroring `split_pos`.
fn find_split(t: &Vec<u8>) -> (r: Option<usize>)
    ensures
        r matches Some(p) ==> split_pos(t@) == p as int && 1 <= p && p + 1 < t@.len() && t@[p as int]
            == TAB,
        r is None ==> split_pos(t@) == -1,
{
    if t.len() < 2 {
        return None;
    }
    let mut i: usize = 1;
    while i + 1 < t.len()
        invariant
            1 <= i < t@.len(),
            split_pos(t@) == split_from(t@, i as int),
        decreases t.len() - i,
    {
        if t[i] == TAB {
            return Some(i);
        }
        i = i + 1;
    }
    None
}

/// Parse one raw staged-change record line.
///
/// Succeeds exactly on the lines the grammar admits, captures every field
/// without trimming or alteration, and — witnessed by `render` — prints back
/// to the very line it was given.
#[verifier::rlimit(60)]
pub fn parse_diff(line: &Vec<u8>) -> (r: Result<DiffRecord, ParseError>)
    ensures
        r is Ok <==> line_matches(line@),
        r matches Ok(rec) ==> ({
            let k = score_len(line@);
            let t = line@.subrange(98 + k, line@.len() as int);
            &&& rec@.src_mode == line@.subrange(0, 6)
            &&& rec@.dst_mode == line@.subrange(7, 13)
            &&& rec@.src_hash == line@.subrange(14, 54)
            &&& rec@.dst_hash == line@.subrange(55, 95)
            &&& rec@.status == line@[96]
            &&& rec@.score_digits == line@.subrange(97, 97 + k)
            &&& rec@.src_path == src_of(t)
            &&& rec@.dst_path == dst_of(t)
            &&& render(rec@) == line@
            &&& wf_record(rec@)
        }),
{
    let n = line.len();
    proof {
        assert(score_len(line@) >= 0);
    }
    if n < 99 {
        return Err(ParseError {  });
    }
    if !all_digits_range(line, 0, 6) {
        return Err(ParseError {  });
    }
    if line[6] != SPACE {
        return Err(ParseError {  });
    }
    if !all_digits_range(line, 7, 13) {
        return Err(ParseError {  });
    }
    if line[13] != SPACE {
        return Err(ParseError {  });
    }
    if !all_hex_range(line, 14, 54) {
        return Err(ParseError {  });
    }
    if line[54] != SPACE {
        return Err(ParseError {  });
    }
    if !all_hex_range(line, 55, 95) {
        return Err(ParseError {  });
    }
    if line[95] != SPACE {
        return Err(ParseError {  });
    }
    if !is_status_b(line[96]) {
        return Err(ParseError {  });
    }
    let mut k: usize = 0;
    if is_digit_b(line[97]) {
        if is_digit_b(line[98]) {
            if 99 < n && is_digit_b(line[99]) {
                k = 3;
            } else {
                k = 2;
            }
        } else {
            k = 1;
        }
    }
    proof {
        assert(k as int == score_len(line@));
    }
    if n < 99 + k {
        return Err(ParseError {  });
    }
    if line[97 + k] != SPACE {
        return Err(ParseError {  });
    }
    let tail_start = 98 + k;
    let mut i: usize = tail_start;
    while i < n
        invariant
            tail_start <= i <= n,
            n == line@.len(),
            tail_start == 98 + score_len(line@),
            forall|j: int| tail_start <= j < i ==> line@[j] != NEWLINE,
        decreases n - i,
    {
        if line[i] == NEWLINE {
            proof {
                assert(line@.subrange(tail_start as int, n as int)[i - tail_start] == NEWLINE);
            }
            return Err(ParseError {  });
        }
        i = i + 1;
    }
    let tail = copy_range(line, tail_start, n);
    let ghost t = tail@;
    proof {
        assert forall|m: int| 0 <= m < t.len() implies t[m] != NEWLINE by {
            assert(t[m] == line@[tail_start + m]);
        }
        assert(line_matches(line@));
    }
    let (src_path, dst_path) = match find_split(&tail) {
        Some(p) => {
            let s = copy_range(&tail, 0, p);
            let d = copy_range(&tail, p + 1, tail.len());
            (s, d)
        },
        None => (tail, Vec::<u8>::new()),
    };
    let rec = DiffRecord {
        src_mode: copy_range(line, 0, 6),
        dst_mode: copy_range(line, 7, 13),
        src_hash: copy_range(line, 14, 54),
        dst_hash: copy_range(line, 55, 95),
        status: line[96],
        score_digits: copy_range(line, 97, 97 + k),
        src_path,
        dst_path,
    };
    proof {
        let s = line@;
        let ki = k as int;
        assert(rec@.src_path == src_of(t) && rec@.dst_path == dst_of(t));
        lemma_grammar_facts(s);
        assert forall|j: int| 0 <= j < ki implies is_digit_byte(#[trigger] s[97 + j]) by {
            if j == 0 {
                assert(digit_at(s, 97));
            } else if j == 1 {
                assert(digit_at(s, 98));
            } else {
                assert(digit_at(s, 99));
            }
        }
        assert forall|j: int| 0 <= j < rec@.score_digits.len() implies is_digit_byte(
            rec@.score_digits[j],
        ) by {
            assert(rec@.score_digits[j] == s[97 + j]);
        }
        assert(no_newline(rec@.src_path)) by {
            if split_pos(t) < 0 {
            } else {
                assert forall|m: int| 0 <= m < rec@.src_path.len() implies rec@.src_path[m]
                    != NEWLINE by {
                    assert(rec@.src_path[m] == t[m]);
                }
            }
        }
        assert(no_newline(rec@.dst_path)) by {
            if split_pos(t) < 0 {
            } else {
                assert forall|m: int| 0 <= m < rec@.dst_path.len() implies rec@.dst_path[m]
                    != NEWLINE by {
                    assert(rec@.dst_path[m] == t[split_pos(t) + 1 + m]);
                }
            }
        }
        assert(wf_record(rec@));
        lemma_tail_recompose(t);
        assert(s =~= s.subrange(0, 6) + seq![SPACE] + s.subrange(7, 13) + seq![SPACE] + s.subrange(
            14,
            54,
        ) + seq![SPACE] + s.subrange(55, 95) + seq![SPACE] + seq![s[96]] + s.subrange(97, 97 + ki)
            + seq![SPACE] + t);
        assert(render(rec@) =~= s);
    }
    Ok(rec)
}

/// Every score digit position named by `score_len` indeed holds a digit, and
/// the path part of a grammatical line is non-empty.
proof fn lemma_grammar_facts(s: Seq<u8>)
    requires
        line_matches(s),
    ensures
        score_len(s) >= 1 ==> digit_at(s, 97),
        score_len(s) >= 2 ==> digit_at(s, 98),
        score_len(s) >= 3 ==> digit_at(s, 99),
        s.len() >= 99 + score_len(s),
{
}

/// Properties of the split search: where it stops there is a qualifying tab,
/// and before that there is none.
proof fn lemma_split_props(t: Seq<u8>, i: int)
    requires
        1 <= i,
    ensures
        ({
            let p = split_from(t, i);
            &&& (p >= 0 ==> i <= p && p + 1 < t.len() && t[p] == TAB)
            &&& (p == -1 ==> forall|j: int| i <= j && j + 1 < t.len() ==> t[j] != TAB)
        }),
    decreases t.len() - i,
{
    if i + 1 >= t.len() {
    } else if t[i] == TAB {
    } else {
        lemma_split_props(t, i + 1);
    }
}

/// A path part reassembles from its captured paths: the first path, then —
/// exactly when a second path was captured — a tab and the second path.
proof fn lemma_tail_recompose(t: Seq<u8>)
    requires
        t.len() >= 1,
    ensures
        src_of(t).len() >= 1,
        split_pos(t) >= 0 ==> dst_of(t).len() >= 1,
        t =~= src_of(t) + (if dst_of(t).len() == 0 {
            Seq::<u8>::empty()
        } else {
            seq![TAB] + dst_of(t)
        }),
{
    lemma_split_props(t, 1);
    let p = split_pos(t);
    if p >= 0 {
        assert(t =~= t.subrange(0, p) + (seq![TAB] + t.subrange(p + 1, t.len() as int)));
    } else {
        assert(t =~= t + Seq::<u8>::empty());
    }
}

/// Numeric value of a digit string.
pub open spec fn digits_val(s: Seq<u8>) -> int
    decreases s.len(),
{
    if s.len() == 0 {
        0
    } else {
        digits_val(s.drop_last()) * 10 + (s.last() - 48)
    }
}

/// The similarity score of a record: absent when no score digits were
/// captured, otherwise their numeric value.
pub open spec fn score_spec(s: Seq<u8>) -> Option<i32> {
    if s.len() == 0 {
        None
    } else {
        Some(digits_val(s) as i32)
    }
}

impl DiffRecord {
    /// The similarity score carried after the status letter, if any.
    pub fn score(&self) -> (r: Option<i32>)
        requires
            self@.score_digits.len() <= 3,
            all_digits(self@.score_digits),
        ensures
            r == score_spec(self@.score_digits),
    {
        let ghost s = self@.score_digits;
        if self.score_digits.len() == 0 {
            None
        } else if self.score_digits.len() == 1 {
            let v: i32 = self.score_digits[0] as i32 - 48;
            proof {
                assert(s.drop_last().len() == 0);
                assert(digits_val(s.drop_last()) == 0);
                assert(v as int == digits_val(s));
            }
            Some(v)
        } else if self.score_digits.len() == 2 {
            let v: i32 = (self.score_digits[0] as i32 - 48) * 10 + (self.score_digits[1] as i32
                - 48);
            proof {
                assert(s.drop_last().drop_last().len() == 0);
                assert(digits_val(s.drop_last().drop_last()) == 0);
                assert(s.drop_last().last() == s[0]);
                assert(digits_val(s.drop_last()) == s[0] - 48);
                assert(v as int == digits_val(s));
            }
            Some(v)
        } else {
            let v: i32 = ((self.score_digits[0] as i32 - 48) * 10 + (self.score_digits[1] as i32
                - 48)) * 10 + (self.score_digits[2] as i32 - 48);
            proof {
                assert(s.drop_last().drop_last().drop_last().len() == 0);
                assert(digits_val(s.drop_last().drop_last().drop_last()) == 0);
                assert(s.drop_last().drop_last().last() == s[0]);
                assert(digits_val(s.drop_last().drop_last()) == s[0] - 48);
                assert(s.drop_last().last() == s[1]);
                assert(digits_val(s.drop_last()) == (s[0] - 48) * 10 + (s[1] - 48));
                assert(v as int == digits_val(s));
            }
            Some(v)
        }
    }
}

} // verus!
