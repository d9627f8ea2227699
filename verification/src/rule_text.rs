use vstd::prelude::*;
use vstd::string::StrSliceExecFns;

verus! {

// The evaluator operates entirely in one fixed zone, so it accepts only rule
// text blocks whose instants are all anchored to UTC: every `DTSTART`,
// `RDATE` and `EXDATE` value and every `UNTIL` parameter value must end in
// `Z`, and no `TZID` parameter may appear. For any other text the engine
// would resolve an instant in the machine's local zone, making acceptance
// and occurrences depend on the environment. The engine's grammar admits
// property names in upper case only, but parameter names in either case, so
// `TZID` and `UNTIL` are matched here case-insensitively.

/// Index of the end of the line containing position `i`: the next line break
/// at or after `i`, or the end of the text.
pub open spec fn line_end(s: Seq<char>, i: int) -> int
    decreases s.len() - i when 0 <= i <= s.len()
{
    if i >= s.len() {
        s.len() as int
    } else if s[i] == '\n' {
        i
    } else {
        line_end(s, i + 1)
    }
}

pub proof fn lemma_line_end_bounds(s: Seq<char>, i: int)
    requires
        0 <= i <= s.len(),
    ensures
        i <= line_end(s, i) <= s.len(),
    decreases s.len() - i,
{
    if i < s.len() && s[i] != '\n' {
        lemma_line_end_bounds(s, i + 1);
    }
}

/// Whether position `i` begins a line.
pub open spec fn line_start(s: Seq<char>, i: int) -> bool {
    0 <= i < s.len() && (i == 0 || s[i - 1] == '\n')
}

/// A `TZID` parameter name, in either case, begins at `i`.
pub open spec fn tzid_at(s: Seq<char>, i: int) -> bool {
    &&& 0 <= i
    &&& i + 4 <= s.len()
    &&& (s[i] == 'T' || s[i] == 't')
    &&& (s[i + 1] == 'Z' || s[i + 1] == 'z')
    &&& (s[i + 2] == 'I' || s[i + 2] == 'i')
    &&& (s[i + 3] == 'D' || s[i + 3] == 'd')
}

/// An `UNTIL` parameter name, in either case, begins at `i`.
pub open spec fn until_at(s: Seq<char>, i: int) -> bool {
    &&& 0 <= i
    &&& i + 5 <= s.len()
    &&& (s[i] == 'U' || s[i] == 'u')
    &&& (s[i + 1] == 'N' || s[i + 1] == 'n')
    &&& (s[i + 2] == 'T' || s[i + 2] == 't')
    &&& (s[i + 3] == 'I' || s[i + 3] == 'i')
    &&& (s[i + 4] == 'L' || s[i + 4] == 'l')
}

/// A `DTSTART` property name begins at `i`.
pub open spec fn dtstart_at(s: Seq<char>, i: int) -> bool {
    &&& 0 <= i
    &&& i + 7 <= s.len()
    &&& s[i] == 'D'
    &&& s[i + 1] == 'T'
    &&& s[i + 2] == 'S'
    &&& s[i + 3] == 'T'
    &&& s[i + 4] == 'A'
    &&& s[i + 5] == 'R'
    &&& s[i + 6] == 'T'
}

/// An `RDATE` property name begins at `i`.
pub open spec fn rdate_at(s: Seq<char>, i: int) -> bool {
    &&& 0 <= i
    &&& i + 5 <= s.len()
    &&& s[i] == 'R'
    &&& s[i + 1] == 'D'
    &&& s[i + 2] == 'A'
    &&& s[i + 3] == 'T'
    &&& s[i + 4] == 'E'
}

/// An `EXDATE` property name begins at `i`.
pub open spec fn exdate_at(s: Seq<char>, i: int) -> bool {
    &&& 0 <= i
    &&& i + 6 <= s.len()
    &&& s[i] == 'E'
    &&& s[i + 1] == 'X'
    &&& s[i + 2] == 'D'
    &&& s[i + 3] == 'A'
    &&& s[i + 4] == 'T'
    &&& s[i + 5] == 'E'
}

/// The line containing `i` is non-empty past `i` and its last character is
/// `Z`.
pub open spec fn line_ends_in_utc(s: Seq<char>, i: int) -> bool {
    line_end(s, i) > i && s[line_end(s, i) - 1] == 'Z'
}

/// Position `k` is not a comma, or sits right after a `Z` (and not at the
/// start of its line).
pub open spec fn comma_ok(s: Seq<char>, i: int, k: int) -> bool {
    s[k] == ',' ==> k > i && s[k - 1] == 'Z'
}

/// Every comma in the line containing `i` directly follows a `Z`, so every
/// comma-separated value in a date list ends in `Z`.
pub open spec fn commas_end_utc(s: Seq<char>, i: int) -> bool {
    forall|k: int| i <= k < line_end(s, i) ==> #[trigger] comma_ok(s, i, k)
}

/// The run from `j` up to the first `;` or line break is non-empty and its
/// last character is `Z`.
pub open spec fn value_ends_utc(s: Seq<char>, j: int) -> bool
    decreases s.len() - j when j <= s.len()
{
    if j < 0 || j >= s.len() {
        false
    } else if s[j] == ';' || s[j] == '\n' {
        false
    } else if j + 1 == s.len() || s[j + 1] == ';' || s[j + 1] == '\n' {
        s[j] == 'Z'
    } else {
        value_ends_utc(s, j + 1)
    }
}

/// A rule text block is zone-fixed when every instant it can name is
/// anchored to UTC: no `TZID` anywhere, every `DTSTART`, `RDATE` and
/// `EXDATE` line ends in `Z` (with every listed date ending in `Z`), and
/// every `UNTIL` value ends in `Z`. On such a block the engine's acceptance
/// and its occurrence sequence depend on the characters alone, and the
/// engine never resolves a civil time in a zone that could skip it.
pub open spec fn zone_fixed(s: Seq<char>) -> bool {
    &&& (forall|j: int| !#[trigger] tzid_at(s, j))
    &&& (forall|j: int| #[trigger] until_at(s, j) ==> value_ends_utc(s, j + 5))
    &&& (forall|j: int| line_start(s, j) && #[trigger] dtstart_at(s, j) ==> line_ends_in_utc(s, j))
    &&& (forall|j: int|
        line_start(s, j) && #[trigger] rdate_at(s, j) ==> line_ends_in_utc(s, j) && commas_end_utc(
            s,
            j,
        ))
    &&& (forall|j: int|
        line_start(s, j) && #[trigger] exdate_at(s, j) ==> line_ends_in_utc(s, j)
            && commas_end_utc(s, j))
}

/// Finds the end of the line containing `i`.
fn find_line_end(s: &str, i: usize) -> (e: usize)
    requires
        i <= s@.len(),
    ensures
        e as int == line_end(s@, i as int),
        i <= e <= s@.len(),
{
    let n = s.unicode_len();
    let mut j = i;
    while j < n && s.get_char(j) != '\n'
        invariant
            i <= j <= n,
            n == s@.len(),
            line_end(s@, i as int) == line_end(s@, j as int),
        decreases n - j,
    {
        assert(line_end(s@, j as int) == line_end(s@, j as int + 1));
        j += 1;
    }
    proof {
        lemma_line_end_bounds(s@, j as int);
    }
    j
}

/// Checks that the run from `j` to the first `;` or line break ends in `Z`.
fn value_ends_utc_check(s: &str, j: usize) -> (b: bool)
    requires
        j <= s@.len(),
    ensures
        b == value_ends_utc(s@, j as int),
{
    let n = s.unicode_len();
    let mut k = j;
    while k < n
        invariant
            j <= k <= n,
            n == s@.len(),
            value_ends_utc(s@, j as int) == value_ends_utc(s@, k as int),
        decreases n - k,
    {
        let c = s.get_char(k);
        if c == ';' || c == '\n' {
            return false;
        }
        if k + 1 == n {
            return c == 'Z';
        }
        let d = s.get_char(k + 1);
        if d == ';' || d == '\n' {
            return c == 'Z';
        }
        assert(value_ends_utc(s@, k as int) == value_ends_utc(s@, k as int + 1));
        k += 1;
    }
    proof {
        assert(!value_ends_utc(s@, k as int));
    }
    false
}

/// Checks whether a `TZID` parameter name, in either case, begins at `i`.
fn tzid_check(s: &str, i: usize) -> (b: bool)
    requires
        i < s@.len(),
    ensures
        b == tzid_at(s@, i as int),
{
    let n = s.unicode_len();
    if n - i < 4 {
        return false;
    }
    let c0 = s.get_char(i);
    let c1 = s.get_char(i + 1);
    let c2 = s.get_char(i + 2);
    let c3 = s.get_char(i + 3);
    (c0 == 'T' || c0 == 't') && (c1 == 'Z' || c1 == 'z') && (c2 == 'I' || c2 == 'i') && (c3 == 'D'
        || c3 == 'd')
}

/// Checks whether an `UNTIL` parameter name, in either case, begins at `i`.
fn until_check(s: &str, i: usize) -> (b: bool)
    requires
        i < s@.len(),
    ensures
        b == until_at(s@, i as int),
{
    let n = s.unicode_len();
    if n - i < 5 {
        return false;
    }
    let c0 = s.get_char(i);
    let c1 = s.get_char(i + 1);
    let c2 = s.get_char(i + 2);
    let c3 = s.get_char(i + 3);
    let c4 = s.get_char(i + 4);
    (c0 == 'U' || c0 == 'u') && (c1 == 'N' || c1 == 'n') && (c2 == 'T' || c2 == 't') && (c3 == 'I'
        || c3 == 'i') && (c4 == 'L' || c4 == 'l')
}

/// Checks whether a `DTSTART` property name begins at `i`.
fn dtstart_check(s: &str, i: usize) -> (b: bool)
    requires
        i < s@.len(),
    ensures
        b == dtstart_at(s@, i as int),
{
    let n = s.unicode_len();
    if n - i < 7 {
        return false;
    }
    s.get_char(i) == 'D' && s.get_char(i + 1) == 'T' && s.get_char(i + 2) == 'S' && s.get_char(
        i + 3,
    ) == 'T' && s.get_char(i + 4) == 'A' && s.get_char(i + 5) == 'R' && s.get_char(i + 6) == 'T'
}

/// Checks whether an `RDATE` property name begins at `i`.
fn rdate_check(s: &str, i: usize) -> (b: bool)
    requires
        i < s@.len(),
    ensures
        b == rdate_at(s@, i as int),
{
    let n = s.unicode_len();
    if n - i < 5 {
        return false;
    }
    s.get_char(i) == 'R' && s.get_char(i + 1) == 'D' && s.get_char(i + 2) == 'A' && s.get_char(
        i + 3,
    ) == 'T' && s.get_char(i + 4) == 'E'
}

/// Checks whether an `EXDATE` property name begins at `i`.
fn exdate_check(s: &str, i: usize) -> (b: bool)
    requires
        i < s@.len(),
    ensures
        b == exdate_at(s@, i as int),
{
    let n = s.unicode_len();
    if n - i < 6 {
        return false;
    }
    s.get_char(i) == 'E' && s.get_char(i + 1) == 'X' && s.get_char(i + 2) == 'D' && s.get_char(
        i + 3,
    ) == 'A' && s.get_char(i + 4) == 'T' && s.get_char(i + 5) == 'E'
}

/// Checks that the line containing `i` ends in `Z`, and, when `commas` is
/// set, that every comma in it directly follows a `Z`.
fn line_utc_check(s: &str, i: usize, commas: bool) -> (b: bool)
    requires
        i < s@.len(),
    ensures
        b == (line_ends_in_utc(s@, i as int) && (commas ==> commas_end_utc(s@, i as int))),
{
    let e = find_line_end(s, i);
    if e == i {
        return false;
    }
    if s.get_char(e - 1) != 'Z' {
        return false;
    }
    if commas {
        let mut k = i;
        while k < e
            invariant
                commas,
                i <= k <= e,
                e as int == line_end(s@, i as int),
                e <= s@.len(),
                forall|m: int| i <= m < k ==> #[trigger] comma_ok(s@, i as int, m),
            decreases e - k,
        {
            if s.get_char(k) == ',' {
                if k == i {
                    proof {
                        assert(!comma_ok(s@, i as int, k as int));
                        assert(!commas_end_utc(s@, i as int));
                    }
                    return false;
                }
                if s.get_char(k - 1) != 'Z' {
                    proof {
                        assert(!comma_ok(s@, i as int, k as int));
                        assert(!commas_end_utc(s@, i as int));
                    }
                    return false;
                }
            }
            proof {
                assert(comma_ok(s@, i as int, k as int));
            }
            k += 1;
        }
    }
    true
}

/// Checks that a rule text block is zone-fixed.
pub fn is_zone_fixed(s: &str) -> (b: bool)
    ensures
        b == zone_fixed(s@),
{
    let n = s.unicode_len();
    let mut i: usize = 0;
    while i < n
        invariant
            0 <= i <= n,
            n == s@.len(),
            forall|j: int| 0 <= j < i ==> !#[trigger] tzid_at(s@, j),
            forall|j: int| 0 <= j < i && #[trigger] until_at(s@, j) ==> value_ends_utc(s@, j + 5),
            forall|j: int|
                0 <= j < i && line_start(s@, j) && #[trigger] dtstart_at(s@, j)
                    ==> line_ends_in_utc(s@, j),
            forall|j: int|
                0 <= j < i && line_start(s@, j) && #[trigger] rdate_at(s@, j) ==> line_ends_in_utc(
                    s@,
                    j,
                ) && commas_end_utc(s@, j),
            forall|j: int|
                0 <= j < i && line_start(s@, j) && #[trigger] exdate_at(s@, j) ==> line_ends_in_utc(
                    s@,
                    j,
                ) && commas_end_utc(s@, j),
        decreases n - i,
    {
        if tzid_check(s, i) {
            return false;
        }
        if until_check(s, i) {
            if !value_ends_utc_check(s, i + 5) {
                return false;
            }
        }
        let at_line_start = i == 0 || s.get_char(i - 1) == '\n';
        if at_line_start {
            if dtstart_check(s, i) {
                if !line_utc_check(s, i, false) {
                    return false;
                }
            }
            if rdate_check(s, i) {
                if !line_utc_check(s, i, true) {
                    return false;
                }
            }
            if exdate_check(s, i) {
                if !line_utc_check(s, i, true) {
                    return false;
                }
            }
        }
        i += 1;
    }
    true
}

} // verus!
