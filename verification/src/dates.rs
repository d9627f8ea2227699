use vstd::prelude::*;

verus! {

/// Day number of the calendar day of 0000-01-01, the earliest day a
/// four-digit year can name (day numbers count days since 1970-01-01).
pub const DAY_MIN: i64 = -719_528;

/// Day number of the calendar day of 9999-12-31, the latest day a
/// four-digit year can name.
pub const DAY_MAX: i64 = 2_932_896;

/// The calendar day, in the fixed UTC zone, that an instant (in seconds
/// since the Unix epoch) falls on: the floor of the instant divided by the
/// seconds of one day.
pub open spec fn day_of_instant(t: int) -> int {
    t / 86_400
}

/// Computes the calendar day of an instant.
pub fn floor_day(t: i64) -> (d: i64)
    ensures
        d as int == day_of_instant(t as int),
{
    t.checked_div_euclid(86_400).unwrap()
}

/// The `YYYY-MM-DD` shape: ten characters, two hyphens, eight decimal digits.
pub open spec fn date_shaped(s: Seq<char>) -> bool {
    &&& s.len() == 10
    &&& s[4] == '-'
    &&& s[7] == '-'
    &&& forall|i: int|
        0 <= i < 10 && i != 4 && i != 7 ==> '0' <= #[trigger] s[i] && s[i] <= '9'
}

/// Checks a string for the `YYYY-MM-DD` shape.
pub fn is_date_shaped(s: &str) -> (b: bool)
    ensures
        b == date_shaped(s@),
{
    let n = s.unicode_len();
    if n != 10 {
        return false;
    }
    let mut i: usize = 0;
    while i < 10
        invariant
            0 <= i <= 10,
            s@.len() == 10,
            forall|k: int|
                0 <= k < i && k != 4 && k != 7 ==> '0' <= #[trigger] s@[k] && s@[k] <= '9',
            forall|k: int| 0 <= k < i && (k == 4 || k == 7) ==> s@[k] == '-',
        decreases 10 - i,
    {
        let c = s.get_char(i);
        if i == 4 || i == 7 {
            if c != '-' {
                return false;
            }
        } else {
            if c < '0' || c > '9' {
                return false;
            }
        }
        i += 1;
    }
    true
}

/// Strict lexicographic order on character sequences, by code point.
pub open spec fn lex_lt(a: Seq<char>, b: Seq<char>) -> bool
    decreases a.len(),
{
    if b.len() == 0 {
        false
    } else if a.len() == 0 {
        true
    } else if a[0] != b[0] {
        (a[0] as u32) < (b[0] as u32)
    } else {
        lex_lt(a.drop_first(), b.drop_first())
    }
}

/// Lexicographic order is irreflexive, so `lex_lt(a, b)` entails `a != b`.
pub proof fn lemma_lex_lt_irreflexive(a: Seq<char>)
    ensures
        !lex_lt(a, a),
    decreases a.len(),
{
    if a.len() > 0 {
        lemma_lex_lt_irreflexive(a.drop_first());
    }
}

} // verus!
