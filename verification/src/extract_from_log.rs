//! Log extraction: turn the lines of a maintenance-tool diagnostic log into
//! an ordered manifest of blob records, cross-checked against the reported
//! total error count, with every unrecognised error line surfaced.

use vstd::prelude::*;
use vstd::string::*;

verus! {

/// `pat` occurs in `s` starting at position `i`.
pub open spec fn occurs_at(s: Seq<char>, pat: Seq<char>, i: int) -> bool {
    0 <= i && i + pat.len() <= s.len() && s.subrange(i, i + pat.len() as int) == pat
}

/// `s` begins with `pre`.
pub open spec fn begins_with(s: Seq<char>, pre: Seq<char>) -> bool {
    occurs_at(s, pre, 0)
}

/// Position of the rightmost occurrence of `pat` in `s` that starts at or
/// before `hi`; `-1` when there is none.
pub open spec fn last_occurrence_from(s: Seq<char>, pat: Seq<char>, hi: int) -> int
    decreases hi + 1,
{
    if hi < 0 {
        -1
    } else if occurs_at(s, pat, hi) {
        hi
    } else {
        last_occurrence_from(s, pat, hi - 1)
    }
}

proof fn lemma_last_occurrence_step_down(s: Seq<char>, pat: Seq<char>, a: int, b: int)
    requires
        a <= b,
        forall|j: int| a < j <= b ==> !occurs_at(s, pat, j),
    ensures
        last_occurrence_from(s, pat, b) == last_occurrence_from(s, pat, a),
    decreases b - a,
{
    if a < b {
        lemma_last_occurrence_step_down(s, pat, a, b - 1);
    }
}

/// Tests whether `pat` occurs in `s` at position `i`.
fn match_at(s: &str, pat: &str, i: usize) -> (b: bool)
    ensures
        b == occurs_at(s@, pat@, i as int),
{
    let slen: usize = s.unicode_len();
    let plen: usize = pat.unicode_len();
    if i > slen || plen > slen - i {
        return false;
    }
    let mut k: usize = 0;
    while k < plen
        invariant
            0 <= k <= plen,
            i + plen <= slen,
            slen == s@.len(),
            plen == pat@.len(),
            forall|m: int| 0 <= m < k ==> s@[i + m] == pat@[m],
        decreases plen - k,
    {
        if s.get_char(i + k) != pat.get_char(k) {
            proof {
                let sub = s@.subrange(i as int, i + pat@.len() as int);
                assert(sub[k as int] == s@[i + k]);
                assert(sub != pat@);
            }
            return false;
        }
        k += 1;
    }
    proof {
        assert(s@.subrange(i as int, i + pat@.len() as int) =~= pat@);
    }
    true
}

/// Rightmost occurrence of `pat` in `s` starting at or before `hi`.
fn rfind_at_most(s: &str, pat: &str, hi: usize) -> (r: Option<usize>)
    ensures
        match r {
            Some(i) => i <= hi && i as int == last_occurrence_from(s@, pat@, hi as int),
            None => last_occurrence_from(s@, pat@, hi as int) == -1,
        },
{
    let slen: usize = s.unicode_len();
    let plen: usize = pat.unicode_len();
    if plen > slen {
        proof {
            lemma_last_occurrence_step_down(s@, pat@, -1, hi as int);
        }
        return None;
    }
    let mut i: usize = if hi > slen - plen {
        slen - plen
    } else {
        hi
    };
    proof {
        lemma_last_occurrence_step_down(s@, pat@, i as int, hi as int);
    }
    loop
        invariant
            i <= hi,
            slen == s@.len(),
            plen == pat@.len(),
            last_occurrence_from(s@, pat@, hi as int) == last_occurrence_from(s@, pat@, i as int),
        decreases i,
    {
        if match_at(s, pat, i) {
            return Some(i);
        }
        proof {
            assert(last_occurrence_from(s@, pat@, i as int) == last_occurrence_from(
                s@,
                pat@,
                i as int - 1,
            ));
        }
        if i == 0 {
            return None;
        }
        i = i - 1;
    }
}

/// The repository's path-sharding rule: an identifier `abcdefREST` is stored
/// at `abc/def/REST.f` (three levels, the last segment with a literal `.f`
/// suffix). Defined for identifiers of at least six characters.
pub open spec fn derived_path(id: Seq<char>) -> Seq<char> {
    id.subrange(0, 3) + seq!['/'] + id.subrange(3, 6) + seq!['/'] + id.skip(6) + seq!['.', 'f']
}

/// Maps a blob identifier to the relative path the repository stores it at.
///
/// The derivation is pure and total on every identifier of at least six
/// characters: the result is pinned to `derived_path`, so two calls on the
/// same identifier always agree.
pub fn to_expected_path(blob_id: &str) -> (r: String)
    requires
        blob_id@.len() >= 6,
    ensures
        r@ == derived_path(blob_id@),
{
    let n = blob_id.unicode_len();
    let seg0 = blob_id.substring_char(0, 3);
    let seg1 = blob_id.substring_char(3, 6);
    let seg2 = blob_id.substring_char(6, n);
    let mut r = String::from_str(seg0);
    r.append("/");
    r.append(seg1);
    r.append("/");
    r.append(seg2);
    r.append(".f");
    proof {
        reveal_strlit("/");
        reveal_strlit(".f");
        assert(r@ =~= derived_path(blob_id@));
    }
    r
}

/// The prefix that marks a diagnostic error line.
pub open spec fn error_prefix() -> Seq<char> {
    seq!['e', 'r', 'r', 'o', 'r', ' ', 'p', 'r', 'o', 'c', 'e', 's', 's', 'i', 'n', 'g']
}

/// The error prefix followed by the space that the error-line shape requires.
pub open spec fn error_prefix_sp() -> Seq<char> {
    error_prefix() + seq![' ']
}

/// The marker that separates the free text from the object identifier.
pub open spec fn object_marker() -> Seq<char> {
    seq![' ', 'o', 'b', 'j', 'e', 'c', 't', ' ']
}

/// The marker that separates the object identifier from the blob identifier.
pub open spec fn missing_blob_marker() -> Seq<char> {
    seq![
        ' ', 'i', 's', ' ', 'b', 'a', 'c', 'k', 'e', 'd', ' ', 'b', 'y', ' ', 'm', 'i', 's', 's',
        'i', 'n', 'g', ' ', 'b', 'l', 'o', 'b', ' ',
    ]
}

/// The prefix that marks the summary line carrying the total error count.
pub open spec fn count_prefix() -> Seq<char> {
    seq!['e', 'n', 'c', 'o', 'u', 'n', 't', 'e', 'r', 'e', 'd', ' ']
}

/// Start of the chosen occurrence of the missing-blob marker: the rightmost
/// one, as the greedy reading of the error-line shape picks it.
pub open spec fn blob_marker_pos(l: Seq<char>) -> int {
    last_occurrence_from(l, missing_blob_marker(), l.len() as int)
}

/// Start of the chosen occurrence of the object marker: the rightmost one
/// that still leaves room for an object identifier before the missing-blob
/// marker.
pub open spec fn object_marker_pos(l: Seq<char>) -> int {
    last_occurrence_from(l, object_marker(), blob_marker_pos(l) - 8)
}

/// The line has the full error-line shape: the error prefix with its
/// trailing space, an object marker at or after position 17, and a
/// missing-blob marker after it.
pub open spec fn is_matched_error_line(l: Seq<char>) -> bool {
    begins_with(l, error_prefix_sp()) && blob_marker_pos(l) >= 0 && object_marker_pos(l) >= 17
}

/// The object identifier a matched error line carries.
pub open spec fn line_object_id(l: Seq<char>) -> Seq<char> {
    l.subrange(object_marker_pos(l) + 8, blob_marker_pos(l))
}

/// The blob identifier a matched error line carries.
pub open spec fn line_blob_id(l: Seq<char>) -> Seq<char> {
    l.subrange(blob_marker_pos(l) + 27, l.len() as int)
}

/// The line announces an error but need not have the full shape.
pub open spec fn is_error_prefixed(l: Seq<char>) -> bool {
    begins_with(l, error_prefix())
}

/// An error line that does not have the full shape: it is surfaced to the
/// operator rather than dropped.
pub open spec fn is_unprocessable_line(l: Seq<char>) -> bool {
    is_error_prefixed(l) && !is_matched_error_line(l)
}

/// ASCII decimal digit.
pub open spec fn is_ascii_digit_char(c: char) -> bool {
    48 <= c as int && c as int <= 57
}

/// Numeric value of an ASCII digit.
pub open spec fn digit_value(c: char) -> int {
    c as int - 48
}

/// Value of a run of decimal digits, most significant first.
pub open spec fn digits_value(s: Seq<char>) -> int
    decreases s.len(),
{
    if s.len() == 0 {
        0
    } else {
        digits_value(s.drop_last()) * 10 + digit_value(s.last())
    }
}

/// First position at or after `i` that does not hold a digit.
pub open spec fn digit_run_end(l: Seq<char>, i: int) -> int
    decreases l.len() - i,
{
    if i < 0 || i >= l.len() || !is_ascii_digit_char(l[i]) {
        i
    } else {
        digit_run_end(l, i + 1)
    }
}

/// The line is a summary line: the count prefix followed by at least one
/// digit.
pub open spec fn is_count_line(l: Seq<char>) -> bool {
    begins_with(l, count_prefix()) && l.len() > 12 && is_ascii_digit_char(l[12])
}

/// The digits captured from a summary line: the maximal run after the
/// prefix.
pub open spec fn count_digits(l: Seq<char>) -> Seq<char> {
    l.subrange(12, digit_run_end(l, 12))
}

/// The total error count a summary line reports.
pub open spec fn count_value(l: Seq<char>) -> int {
    digits_value(count_digits(l))
}

proof fn lemma_digit_run_end(l: Seq<char>, i: int)
    requires
        0 <= i <= l.len(),
    ensures
        i <= digit_run_end(l, i) <= l.len(),
        forall|m: int| i <= m < digit_run_end(l, i) ==> is_ascii_digit_char(l[m]),
        digit_run_end(l, i) < l.len() ==> !is_ascii_digit_char(l[digit_run_end(l, i)]),
    decreases l.len() - i,
{
    if i < l.len() && is_ascii_digit_char(l[i]) {
        lemma_digit_run_end(l, i + 1);
    }
}

proof fn lemma_digits_value_nonneg(s: Seq<char>)
    requires
        forall|m: int| 0 <= m < s.len() ==> is_ascii_digit_char(s[m]),
    ensures
        digits_value(s) >= 0,
    decreases s.len(),
{
    if s.len() > 0 {
        lemma_digits_value_nonneg(s.drop_last());
    }
}

proof fn lemma_last_occurrence_props(s: Seq<char>, pat: Seq<char>, hi: int)
    ensures
        last_occurrence_from(s, pat, hi) == -1 || (0 <= last_occurrence_from(s, pat, hi)
            && last_occurrence_from(s, pat, hi) <= hi && occurs_at(
            s,
            pat,
            last_occurrence_from(s, pat, hi),
        )),
    decreases hi + 1,
{
    if hi >= 0 && !occurs_at(s, pat, hi) {
        lemma_last_occurrence_props(s, pat, hi - 1);
    }
}

/// What one log line is, with the values it carries.
#[derive(Debug)]
pub enum LineClass {
    /// The full error-line shape: carries the captured identifiers.
    MatchedError { object_id: String, blob_id: String },
    /// The error prefix without the full shape.
    UnprocessableError,
    /// A summary line whose reported count fits a `u32`.
    CountLine { value: u32 },
    /// A summary line whose reported count does not fit a `u32`.
    CountOverflow,
    /// Any other line: carries nothing of interest.
    Other,
}

fn exec_is_digit(c: char) -> (b: bool)
    ensures
        b == is_ascii_digit_char(c),
{
    let cu: u32 = c as u32;
    48 <= cu && cu <= 57
}

/// Reads the reported total from a summary line; `None` when the digit run
/// exceeds `u32::MAX`.
fn parse_count(line: &str) -> (r: Option<u32>)
    requires
        is_count_line(line@),
    ensures
        match r {
            Some(v) => v as int == count_value(line@),
            None => count_value(line@) > u32::MAX,
        },
{
    let slen: usize = line.unicode_len();
    proof {
        lemma_digit_run_end(line@, 12);
    }
    let mut e: usize = 12;
    loop
        invariant
            12 <= e <= slen,
            slen == line@.len(),
            digit_run_end(line@, 12) == digit_run_end(line@, e as int),
        ensures
            12 <= e <= slen,
            slen == line@.len(),
            e as int == digit_run_end(line@, 12),
        decreases slen - e,
    {
        if e == slen {
            break;
        }
        if !exec_is_digit(line.get_char(e)) {
            break;
        }
        e += 1;
    }
    let e_end: usize = e;
    let mut k: usize = 12;
    let mut acc: u32 = 0;
    let mut overflow: bool = false;
    proof {
        assert(line@.subrange(12, 12) =~= Seq::<char>::empty());
    }
    while k < e_end
        invariant
            12 <= k <= e_end <= slen,
            slen == line@.len(),
            e_end as int == digit_run_end(line@, 12),
            forall|m: int| 12 <= m < e_end ==> is_ascii_digit_char(line@[m]),
            !overflow ==> acc as int == digits_value(line@.subrange(12, k as int)),
            overflow ==> digits_value(line@.subrange(12, k as int)) > u32::MAX,
        decreases e_end - k,
    {
        let c = line.get_char(k);
        let d: u32 = (c as u32) - 48;
        proof {
            assert(line@.subrange(12, k as int + 1).drop_last() =~= line@.subrange(12, k as int));
            assert(line@.subrange(12, k as int + 1).last() == line@[k as int]);
            assert(forall|m: int|
                0 <= m < k - 12 ==> line@.subrange(12, k as int)[m] == line@[12 + m]);
            lemma_digits_value_nonneg(line@.subrange(12, k as int));
        }
        let ghost prev = digits_value(line@.subrange(12, k as int));
        let ghost next = digits_value(line@.subrange(12, k as int + 1));
        proof {
            assert(next == prev * 10 + d);
        }
        if overflow {
            proof {
                assert(next > u32::MAX);
            }
        } else if acc > (u32::MAX - d) / 10 {
            proof {
                assert(acc * 10 + d > u32::MAX) by {
                    let w = (u32::MAX - d) as int;
                    assert(w == 10 * (w / 10) + (w % 10) && 0 <= w % 10 < 10) by {
                        vstd::arithmetic::div_mod::lemma_fundamental_div_mod(w, 10);
                        vstd::arithmetic::div_mod::lemma_mod_bound(w, 10);
                    }
                }
            }
            overflow = true;
        } else {
            proof {
                assert(acc * 10 + d <= u32::MAX) by {
                    let w = (u32::MAX - d) as int;
                    assert(w == 10 * (w / 10) + (w % 10) && 0 <= w % 10 < 10) by {
                        vstd::arithmetic::div_mod::lemma_fundamental_div_mod(w, 10);
                        vstd::arithmetic::div_mod::lemma_mod_bound(w, 10);
                    }
                }
            }
            acc = acc * 10 + d;
        }
        k += 1;
    }
    proof {
        assert(line@.subrange(12, e_end as int) =~= count_digits(line@));
    }
    if overflow {
        None
    } else {
        Some(acc)
    }
}

/// Classifies one log line, capturing the values the extraction needs.
pub fn classify_line(line: &str) -> (r: LineClass)
    ensures
        match r {
            LineClass::MatchedError { object_id, blob_id } => is_matched_error_line(line@)
                && object_id@ == line_object_id(line@) && blob_id@ == line_blob_id(line@),
            LineClass::UnprocessableError => is_unprocessable_line(line@),
            LineClass::CountLine { value } => is_count_line(line@) && value as int == count_value(
                line@,
            ),
            LineClass::CountOverflow => is_count_line(line@) && count_value(line@) > u32::MAX,
            LineClass::Other => !is_error_prefixed(line@) && !is_count_line(line@),
        },
{
    proof {
        reveal_strlit("error processing");
        reveal_strlit("error processing ");
        reveal_strlit(" object ");
        reveal_strlit(" is backed by missing blob ");
        reveal_strlit("encountered ");
        assert(("error processing")@ =~= error_prefix());
        assert(("error processing ")@ =~= error_prefix_sp());
        assert((" object ")@ =~= object_marker());
        assert((" is backed by missing blob ")@ =~= missing_blob_marker());
        assert(("encountered ")@ =~= count_prefix());
    }
    let slen: usize = line.unicode_len();
    if match_at(line, "error processing", 0) {
        if !match_at(line, "error processing ", 0) {
            return LineClass::UnprocessableError;
        }
        match rfind_at_most(line, " is backed by missing blob ", slen) {
            None => LineClass::UnprocessableError,
            Some(j) => {
                proof {
                    lemma_last_occurrence_props(line@, missing_blob_marker(), slen as int);
                }
                if j < 25 {
                    proof {
                        lemma_last_occurrence_props(line@, object_marker(), j as int - 8);
                    }
                    return LineClass::UnprocessableError;
                }
                match rfind_at_most(line, " object ", j - 8) {
                    None => LineClass::UnprocessableError,
                    Some(i) => {
                        if i < 17 {
                            LineClass::UnprocessableError
                        } else {
                            let object_id = String::from_str(line.substring_char(i + 8, j));
                            let blob_id = String::from_str(line.substring_char(j + 27, slen));
                            LineClass::MatchedError { object_id, blob_id }
                        }
                    },
                }
            },
        }
    } else if match_at(line, "encountered ", 0) && slen > 12 && exec_is_digit(line.get_char(12)) {
        match parse_count(line) {
            Some(value) => LineClass::CountLine { value },
            None => LineClass::CountOverflow,
        }
    } else {
        LineClass::Other
    }
}

/// Checked form of the derivation: `None` exactly when the identifier is too
/// short for the sharding rule to apply.
pub fn try_to_expected_path(blob_id: &str) -> (r: Option<String>)
    ensures
        match r {
            Some(p) => blob_id@.len() >= 6 && p@ == derived_path(blob_id@),
            None => blob_id@.len() < 6,
        },
{
    let n = blob_id.unicode_len();
    if n < 6 {
        None
    } else {
        Some(to_expected_path(blob_id))
    }
}

/// One extracted record: the damaged object, the missing blob backing it,
/// and the path the repository stores that blob at.
#[derive(Debug)]
pub struct ObjectAndBlobId {
    pub object_id: String,
    pub blob_id: String,
    pub expected_path: String,
}

/// Mathematical view of an extracted record.
pub struct ExtractedView {
    pub object_id: Seq<char>,
    pub blob_id: Seq<char>,
    pub expected_path: Seq<char>,
}

impl View for ObjectAndBlobId {
    type V = ExtractedView;

    open spec fn view(&self) -> ExtractedView {
        ExtractedView {
            object_id: self.object_id@,
            blob_id: self.blob_id@,
            expected_path: self.expected_path@,
        }
    }
}

/// The views of a log's lines.
pub open spec fn line_views(lines: Seq<String>) -> Seq<Seq<char>> {
    lines.map_values(|s: String| s@)
}

/// The record one matched error line yields: the captured identifiers and
/// the path derived from the blob identifier.
pub open spec fn record_of_line(l: Seq<char>) -> ExtractedView {
    ExtractedView {
        object_id: line_object_id(l),
        blob_id: line_blob_id(l),
        expected_path: derived_path(line_blob_id(l)),
    }
}

/// The records a log's matched error lines yield, in log order.
pub open spec fn log_records(lines: Seq<Seq<char>>) -> Seq<ExtractedView>
    decreases lines.len(),
{
    if lines.len() == 0 {
        Seq::empty()
    } else if is_matched_error_line(lines.last()) {
        log_records(lines.drop_last()) + seq![record_of_line(lines.last())]
    } else {
        log_records(lines.drop_last())
    }
}

/// A log's unprocessable error lines, in log order.
pub open spec fn log_unprocessable(lines: Seq<Seq<char>>) -> Seq<Seq<char>>
    decreases lines.len(),
{
    if lines.len() == 0 {
        Seq::empty()
    } else if is_unprocessable_line(lines.last()) {
        log_unprocessable(lines.drop_last()) + seq![lines.last()]
    } else {
        log_unprocessable(lines.drop_last())
    }
}

/// The reported total error count: the value of the last summary line, the
/// most recent one winning when a log carries several.
pub open spec fn log_reported_count(lines: Seq<Seq<char>>) -> Option<int>
    decreases lines.len(),
{
    if lines.len() == 0 {
        None
    } else if is_count_line(lines.last()) {
        Some(count_value(lines.last()))
    } else {
        log_reported_count(lines.drop_last())
    }
}

/// A line the scan rejects outright: a matched error line whose blob
/// identifier is too short for the sharding rule, or a summary line whose
/// count does not fit a `u32`.
pub open spec fn is_bad_line(l: Seq<char>) -> bool {
    (is_matched_error_line(l) && line_blob_id(l).len() < 6) || (is_count_line(l) && count_value(l)
        > u32::MAX)
}

proof fn lemma_line_kinds(l: Seq<char>)
    ensures
        is_matched_error_line(l) ==> is_error_prefixed(l),
        !(is_error_prefixed(l) && is_count_line(l)),
{
    if is_matched_error_line(l) {
        assert(l.subrange(0, 17) == error_prefix_sp());
        assert(forall|m: int| 0 <= m < 16 ==> l.subrange(0, 16)[m] == l.subrange(0, 17)[m]);
        assert(l.subrange(0, 16) =~= error_prefix());
    }
    if is_error_prefixed(l) && is_count_line(l) {
        assert(l.subrange(0, 16)[1] == l[1]);
        assert(l.subrange(0, 12)[1] == l[1]);
        assert(error_prefix()[1] == 'r');
        assert(count_prefix()[1] == 'n');
        assert(false);
    }
}

/// A successful extraction: the manifest records in log order, the
/// unprocessable lines (non-empty only when they are tolerated), the
/// reported total, and whether that total disagrees with the number of
/// matched lines.
#[derive(Debug)]
pub struct Extraction {
    pub records: Vec<ObjectAndBlobId>,
    pub unprocessable: Vec<String>,
    pub reported_count: u32,
    pub count_mismatch: bool,
}

/// Why an extraction cannot complete.
#[derive(Debug)]
pub enum ExtractError {
    /// A matched error line carried a blob identifier shorter than six
    /// characters, so no storage path can be derived for it.
    ShortBlobId { blob_id: String },
    /// A summary line reported a count too large to represent.
    CountOutOfRange,
    /// No summary line was found, so there is nothing to cross-check the
    /// matched lines against.
    MissingTotalCount,
    /// Unprocessable error lines were present and not tolerated; they are
    /// listed for the operator.
    UnprocessableLines { lines: Vec<String> },
}

/// Scans a log's lines and builds the manifest records, enforcing the
/// presence of the reported total and surfacing every unprocessable line.
pub fn extract_records(lines: &Vec<String>, continue_on_unknown_errors: bool) -> (r: Result<
    Extraction,
    ExtractError,
>)
    ensures
        ({
            let lv = line_views(lines@);
            match r {
                Ok(ex) => (forall|m: int| 0 <= m < lv.len() ==> !is_bad_line(lv[m]))
                    && log_reported_count(lv) == Some(ex.reported_count as int)
                    && ex.records@.len() == log_records(lv).len() && (forall|m: int|
                    0 <= m < ex.records@.len() ==> ex.records@[m]@ == log_records(lv)[m])
                    && ex.unprocessable@.len() == log_unprocessable(lv).len() && (forall|m: int|
                    0 <= m < ex.unprocessable@.len() ==> ex.unprocessable@[m]@
                        == log_unprocessable(lv)[m]) && (continue_on_unknown_errors
                    || ex.unprocessable@.len() == 0) && ex.count_mismatch == (log_records(lv).len()
                    != ex.reported_count as int),
                Err(ExtractError::ShortBlobId { blob_id }) => exists|k: int|
                    0 <= k < lv.len() && is_matched_error_line(lv[k]) && line_blob_id(lv[k]).len()
                        < 6 && blob_id@ == line_blob_id(lv[k]) && (forall|m: int|
                        0 <= m < k ==> !is_bad_line(lv[m])),
                Err(ExtractError::CountOutOfRange) => exists|k: int|
                    0 <= k < lv.len() && is_count_line(lv[k]) && count_value(lv[k]) > u32::MAX && (
                    forall|m: int| 0 <= m < k ==> !is_bad_line(lv[m])),
                Err(ExtractError::MissingTotalCount) => (forall|m: int|
                    0 <= m < lv.len() ==> !is_bad_line(lv[m])) && log_reported_count(lv) is None,
                Err(ExtractError::UnprocessableLines { lines: ul }) => (forall|m: int|
                    0 <= m < lv.len() ==> !is_bad_line(lv[m])) && log_reported_count(lv) is Some
                    && !continue_on_unknown_errors && ul@.len() > 0 && ul@.len()
                    == log_unprocessable(lv).len() && (forall|m: int|
                    0 <= m < ul@.len() ==> ul@[m]@ == log_unprocessable(lv)[m]),
            }
        }),
{
    let ghost lv = line_views(lines@);
    let mut records: Vec<ObjectAndBlobId> = Vec::new();
    let mut unprocessable: Vec<String> = Vec::new();
    let mut reported: Option<u32> = None;
    let mut idx: usize = 0;
    while idx < lines.len()
        invariant
            0 <= idx <= lines.len(),
            lv == line_views(lines@),
            lv.len() == lines@.len(),
            forall|m: int| 0 <= m < idx ==> !is_bad_line(lv[m]),
            records@.len() == log_records(lv.subrange(0, idx as int)).len(),
            forall|m: int|
                0 <= m < records@.len() ==> records@[m]@ == log_records(
                    lv.subrange(0, idx as int),
                )[m],
            unprocessable@.len() == log_unprocessable(lv.subrange(0, idx as int)).len(),
            forall|m: int|
                0 <= m < unprocessable@.len() ==> unprocessable@[m]@ == log_unprocessable(
                    lv.subrange(0, idx as int),
                )[m],
            match reported {
                Some(c) => log_reported_count(lv.subrange(0, idx as int)) == Some(c as int),
                None => log_reported_count(lv.subrange(0, idx as int)) is None,
            },
        decreases lines.len() - idx,
    {
        let ghost pre = lv.subrange(0, idx as int);
        let ghost post = lv.subrange(0, idx as int + 1);
        proof {
            assert(post.drop_last() =~= pre);
            assert(post.last() == lv[idx as int]);
            assert(lv[idx as int] == lines@[idx as int]@);
        }
        let line: &String = &lines[idx];
        match classify_line(line.as_str()) {
            LineClass::MatchedError { object_id, blob_id } => {
                let blen = blob_id.unicode_len();
                if blen < 6 {
                    return Err(ExtractError::ShortBlobId { blob_id });
                }
                let expected_path = to_expected_path(blob_id.as_str());
                records.push(ObjectAndBlobId { object_id, blob_id, expected_path });
                proof {
                    lemma_line_kinds(lv[idx as int]);
                }
            },
            LineClass::UnprocessableError => {
                let copy: String = line.clone();
                unprocessable.push(copy);
                proof {
                    lemma_line_kinds(lv[idx as int]);
                }
            },
            LineClass::CountLine { value } => {
                reported = Some(value);
                proof {
                    lemma_line_kinds(lv[idx as int]);
                }
            },
            LineClass::CountOverflow => {
                return Err(ExtractError::CountOutOfRange);
            },
            LineClass::Other => {
                proof {
                    lemma_line_kinds(lv[idx as int]);
                }
            },
        }
        idx += 1;
    }
    proof {
        assert(lv.subrange(0, lines@.len() as int) =~= lv);
    }
    let reported_count: u32 = match reported {
        Some(c) => c,
        None => {
            return Err(ExtractError::MissingTotalCount);
        },
    };
    if unprocessable.len() > 0 && !continue_on_unknown_errors {
        return Err(ExtractError::UnprocessableLines { lines: unprocessable });
    }
    let count_mismatch = records.len() != (reported_count as usize);
    Ok(Extraction { records, unprocessable, reported_count, count_mismatch })
}

} // verus!
