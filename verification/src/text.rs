use vstd::prelude::*;

verus! {

/// The value of a decimal digit string.
pub open spec fn decimal_value(digits: Seq<char>) -> int
    decreases digits.len(),
{
    if digits.len() == 0 {
        0
    } else {
        decimal_value(digits.drop_last()) * 10 + (digits.last() as int - '0' as int)
    }
}

pub open spec fn all_digits(s: Seq<char>) -> bool {
    forall|i: int| 0 <= i < s.len() ==> '0' <= #[trigger] s[i] <= '9'
}

/// What `str::parse::<i64>` gives: an optional `+` or `-` sign followed by at
/// least one decimal digit and nothing else, whose value fits in an `i64`.
pub open spec fn parse_i64_spec(s: Seq<char>) -> Option<i64> {
    if s.len() == 0 {
        None
    } else {
        let negative = s[0] == '-';
        let digits = if s[0] == '-' || s[0] == '+' { s.drop_first() } else { s };
        let v = if negative { -decimal_value(digits) } else { decimal_value(digits) };
        if digits.len() == 0 || !all_digits(digits) || v < i64::MIN || v > i64::MAX {
            None
        } else {
            Some(v as i64)
        }
    }
}

/// What `str::parse::<u64>` gives: an optional `+` sign followed by at least
/// one decimal digit and nothing else, whose value fits in a `u64`.
pub open spec fn parse_u64_spec(s: Seq<char>) -> Option<u64> {
    let digits = if s.len() > 0 && s[0] == '+' { s.drop_first() } else { s };
    if digits.len() == 0 || !all_digits(digits) || decimal_value(digits) > u64::MAX {
        None
    } else {
        Some(decimal_value(digits) as u64)
    }
}

/// Calls `str::parse::<i64>`, whose documentation accepts exactly an optional
/// sign followed by decimal digits whose value fits in the type.
#[verifier::external_body]
pub(crate) fn parse_i64(s: &String) -> (r: Option<i64>)
    ensures
        r == parse_i64_spec(s@),
{
    s.parse::<i64>().ok()
}

/// Calls `str::parse::<u64>`, whose documentation accepts exactly an optional
/// `+` sign followed by decimal digits whose value fits in the type.
#[verifier::external_body]
pub(crate) fn parse_u64(s: &String) -> (r: Option<u64>)
    ensures
        r == parse_u64_spec(s@),
{
    s.parse::<u64>().ok()
}

/// The position of the first `d` in `s`; the length of `s` if there is none.
pub open spec fn first_at(s: Seq<char>, d: char) -> int
    decreases s.len(),
{
    if s.len() == 0 {
        0
    } else if s[0] == d {
        0
    } else {
        1 + first_at(s.drop_first(), d)
    }
}

/// The pieces of `s` between the occurrences of `d`, as `str::split` gives
/// them: one more piece than there are `d`s, empty pieces included.
pub open spec fn split_spec(s: Seq<char>, d: char) -> Seq<Seq<char>>
    decreases s.len(),
{
    if first_at(s, d) >= s.len() {
        seq![s]
    } else {
        proof {
            lemma_first_at_bounds(s, d);
        }
        seq![s.take(first_at(s, d))] + split_spec(s.skip(first_at(s, d) + 1), d)
    }
}

pub proof fn lemma_first_at_bounds(s: Seq<char>, d: char)
    ensures
        0 <= first_at(s, d) <= s.len(),
    decreases s.len(),
{
    if s.len() > 0 && s[0] != d {
        lemma_first_at_bounds(s.drop_first(), d);
    }
}

proof fn lemma_first_at(s: Seq<char>, d: char, k: int)
    requires
        0 <= k <= s.len(),
        forall|j: int| 0 <= j < k ==> s[j] != d,
        k < s.len() ==> s[k] == d,
    ensures
        first_at(s, d) == k,
    decreases s.len(),
{
    if s.len() > 0 && k > 0 {
        let t = s.drop_first();
        assert forall|j: int| 0 <= j < k - 1 implies t[j] != d by {
            assert(t[j] == s[j + 1]);
        }
        lemma_first_at(t, d, k - 1);
    }
}

/// Splitting gives at least one piece.
pub proof fn lemma_split_nonempty(s: Seq<char>, d: char)
    ensures
        split_spec(s, d).len() >= 1,
{
}

/// Splits `s` at every `d`.
pub fn split(s: &str, d: char) -> (r: Vec<String>)
    ensures
        r@.map_values(|x: String| x@) == split_spec(s@, d),
{
    let n = s.unicode_len();
    let mut parts: Vec<String> = Vec::new();
    let mut start: usize = 0;
    let mut i: usize = 0;
    assert(s@.skip(0) =~= s@);
    assert(parts@.map_values(|x: String| x@) + split_spec(s@, d) =~= split_spec(s@, d));
    while i < n
        invariant
            n == s@.len(),
            start <= i <= n,
            forall|j: int| start <= j < i ==> s@[j] != d,
            split_spec(s@, d) == parts@.map_values(|x: String| x@) + split_spec(s@.skip(start as int), d),
        decreases n - i,
    {
        if s.get_char(i) == d {
            let piece = s.substring_char(start, i).to_owned();
            proof {
                let t = s@.skip(start as int);
                lemma_first_at(t, d, i - start);
                assert(t.take(i - start) =~= piece@);
                assert(t.skip(i - start + 1) =~= s@.skip(i + 1));
                assert(parts@.push(piece).map_values(|x: String| x@) =~= parts@.map_values(|x: String| x@).push(
                    piece@,
                ));
                assert(split_spec(t, d) == seq![piece@] + split_spec(s@.skip(i + 1), d));
            }
            parts.push(piece);
            start = i + 1;
        }
        i = i + 1;
    }
    let last = s.substring_char(start, n).to_owned();
    proof {
        let t = s@.skip(start as int);
        lemma_first_at(t, d, t.len() as int);
        assert(t =~= last@);
        assert(parts@.push(last).map_values(|x: String| x@) =~= parts@.map_values(|x: String| x@).push(last@));
    }
    parts.push(last);
    parts
}

/// A Unicode `White_Space` character, as `char::is_whitespace` documents it.
pub open spec fn is_whitespace(c: char) -> bool {
    ||| ('\u{9}' <= c && c <= '\u{d}')
    ||| c == ' '
    ||| c == '\u{85}'
    ||| c == '\u{a0}'
    ||| c == '\u{1680}'
    ||| ('\u{2000}' <= c && c <= '\u{200a}')
    ||| c == '\u{2028}'
    ||| c == '\u{2029}'
    ||| c == '\u{202f}'
    ||| c == '\u{205f}'
    ||| c == '\u{3000}'
}

/// `t` is `s` without its leading and trailing whitespace.
pub open spec fn is_trimmed_of(s: Seq<char>, t: Seq<char>) -> bool {
    exists|i: int, j: int|
        0 <= i <= j <= s.len() && t == s.subrange(i, j) && (forall|k: int|
            0 <= k < i ==> is_whitespace(#[trigger] s[k])) && (forall|k: int|
            j <= k < s.len() ==> is_whitespace(#[trigger] s[k])) && (t.len() > 0 ==> !is_whitespace(t[0])
            && !is_whitespace(t.last()))
}

/// Calls `str::trim`, which documents that it removes leading and trailing
/// whitespace, whitespace being the Unicode `White_Space` property.
#[verifier::external_body]
pub(crate) fn trim(s: &str) -> (r: String)
    ensures
        is_trimmed_of(s@, r@),
{
    s.trim().to_string()
}

} // verus!
