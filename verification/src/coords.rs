//! Coordinate text handling: splitting "lat,lon" input into its two
//! trimmed parts. Turning each part into a number is floating-point work
//! that happens outside the crate.

use crate::errors::UsageError;
use vstd::prelude::*;
use vstd::string::StrSliceExecFns;
use vstd::string::StringExecFns;

verus! {

/// The whitespace characters trimmed from coordinate parts.
pub open spec fn is_space(c: char) -> bool {
    c == ' ' || c == '\t' || c == '\n' || c == '\r'
}

/// `s` with its leading whitespace removed.
pub open spec fn trim_front(s: Seq<char>) -> Seq<char>
    decreases s.len(),
{
    if s.len() > 0 && is_space(s[0]) {
        trim_front(s.drop_first())
    } else {
        s
    }
}

/// `s` with its trailing whitespace removed.
pub open spec fn trim_back(s: Seq<char>) -> Seq<char>
    decreases s.len(),
{
    if s.len() > 0 && is_space(s.last()) {
        trim_back(s.drop_last())
    } else {
        s
    }
}

/// `s` with whitespace removed from both ends.
pub open spec fn trim_spec(s: Seq<char>) -> Seq<char> {
    trim_back(trim_front(s))
}

/// How many commas `s` contains.
pub open spec fn comma_count(s: Seq<char>) -> nat
    decreases s.len(),
{
    if s.len() == 0 {
        0
    } else {
        comma_count(s.drop_last()) + if s.last() == ',' {
            1nat
        } else {
            0nat
        }
    }
}

/// The index of the first comma in `s`, or its length when it has none.
pub open spec fn first_comma(s: Seq<char>) -> int
    decreases s.len(),
{
    if s.len() == 0 {
        0
    } else if s[0] == ',' {
        0
    } else {
        1 + first_comma(s.drop_first())
    }
}

proof fn lemma_first_comma_at(s: Seq<char>, i: int)
    requires
        0 <= i < s.len(),
        s[i] == ',',
        forall|j: int| 0 <= j < i ==> s[j] != ',',
    ensures
        first_comma(s) == i,
    decreases i,
{
    if i > 0 {
        assert(s.drop_first()[i - 1] == s[i]);
        assert forall|j: int| 0 <= j < i - 1 implies s.drop_first()[j] != ',' by {
            assert(s.drop_first()[j] == s[j + 1]);
        }
        lemma_first_comma_at(s.drop_first(), i - 1);
    }
}

fn is_space_char(c: char) -> (b: bool)
    ensures
        b == is_space(c),
{
    c == ' ' || c == '\t' || c == '\n' || c == '\r'
}

/// Returns the text with leading and trailing whitespace removed.
pub fn trim_str(s: &str) -> (t: String)
    ensures
        t@ == trim_spec(s@),
{
    let n = s.unicode_len();
    let mut lo: usize = 0;
    proof {
        assert(s@.skip(0) =~= s@);
    }
    while lo < n && is_space_char(s.get_char(lo))
        invariant
            lo <= n,
            n == s@.len(),
            trim_front(s@) == trim_front(s@.skip(lo as int)),
        decreases n - lo,
    {
        proof {
            assert(s@.skip(lo as int).drop_first() =~= s@.skip(lo + 1));
        }
        lo = lo + 1;
    }
    let ghost rest = s@.skip(lo as int);
    proof {
        assert(trim_front(s@) == rest);
    }
    let mut hi: usize = n;
    proof {
        assert(rest.take(n - lo) =~= rest);
    }
    while hi > lo && is_space_char(s.get_char(hi - 1))
        invariant
            lo <= hi <= n,
            n == s@.len(),
            rest == s@.skip(lo as int),
            trim_back(rest) == trim_back(rest.take(hi - lo)),
        decreases hi,
    {
        proof {
            assert(rest.take(hi - lo).last() == s@[hi - 1]);
            assert(rest.take(hi - lo).drop_last() =~= rest.take(hi - 1 - lo));
        }
        hi = hi - 1;
    }
    proof {
        if hi == lo {
            assert(rest.take(0) =~= Seq::<char>::empty());
        }
        assert(trim_back(rest) == rest.take(hi - lo));
        assert(rest.take(hi - lo) =~= s@.subrange(lo as int, hi as int));
    }
    String::from_str(s.substring_char(lo, hi))
}

/// Splits coordinate text at its single comma and trims both parts.
/// Accepted exactly when the text contains exactly one comma; any other
/// shape is a usage error.
pub fn split_coordinate_pair(s: &str) -> (r: Result<(String, String), UsageError>)
    ensures
        comma_count(s@) != 1 ==> r == Err::<(String, String), UsageError>(
            UsageError::CoordinateFormat,
        ),
        comma_count(s@) == 1 ==> (r matches Ok(p) && 0 <= first_comma(s@) < s@.len() && p.0@
            == trim_spec(s@.take(first_comma(s@))) && p.1@ == trim_spec(
            s@.skip(first_comma(s@) + 1),
        )),
{
    let n = s.unicode_len();
    let mut i: usize = 0;
    let mut count: usize = 0;
    let mut first: usize = n;
    while i < n
        invariant
            i <= n,
            n == s@.len(),
            count <= i,
            count as nat == comma_count(s@.take(i as int)),
            count == 0 ==> first == n && forall|j: int| 0 <= j < i ==> s@[j] != ',',
            count > 0 ==> first < i && s@[first as int] == ',' && forall|j: int|
                0 <= j < first ==> s@[j] != ',',
        decreases n - i,
    {
        let c = s.get_char(i);
        proof {
            assert(s@.take(i + 1).last() == s@[i as int]);
            assert(s@.take(i + 1).drop_last() =~= s@.take(i as int));
        }
        if c == ',' {
            if count == 0 {
                first = i;
            }
            count = count + 1;
        }
        i = i + 1;
    }
    proof {
        assert(s@.take(n as int) =~= s@);
    }
    if count != 1 {
        return Err(UsageError::CoordinateFormat);
    }
    proof {
        lemma_first_comma_at(s@, first as int);
    }
    let before = s.substring_char(0, first);
    let after = s.substring_char(first + 1, n);
    let a = trim_str(before);
    let b = trim_str(after);
    proof {
        assert(before@ =~= s@.take(first as int));
        assert(after@ =~= s@.skip(first + 1));
    }
    Ok((a, b))
}

} // verus!
