//! Deterministic text derivation: decimal rendering, tile file names, the
//! temporary-file name used before atomic publication, and request URLs.

use vstd::prelude::*;
use vstd::string::StringExecFns;

verus! {

/// The character for a single decimal digit value below ten.
pub open spec fn digit_char(d: nat) -> char {
    if d == 0 {
        '0'
    } else if d == 1 {
        '1'
    } else if d == 2 {
        '2'
    } else if d == 3 {
        '3'
    } else if d == 4 {
        '4'
    } else if d == 5 {
        '5'
    } else if d == 6 {
        '6'
    } else if d == 7 {
        '7'
    } else if d == 8 {
        '8'
    } else {
        '9'
    }
}

/// Decimal digits of `n`, most significant first, with no leading zeros
/// (zero itself is the single digit '0').
pub open spec fn dec_digits(n: nat) -> Seq<char>
    decreases n,
{
    if n < 10 {
        seq![digit_char(n)]
    } else {
        dec_digits(n / 10) + seq![digit_char(n % 10)]
    }
}

/// Decimal form of a possibly negative integer: a leading '-' when negative.
pub open spec fn dec_int(v: int) -> Seq<char> {
    if v < 0 {
        seq!['-'] + dec_digits((-v) as nat)
    } else {
        dec_digits(v as nat)
    }
}

/// Decimal digits of `n`, zero-padded on the left to at least two digits.
pub open spec fn dec_pad2(n: nat) -> Seq<char> {
    if n < 10 {
        seq!['0'] + dec_digits(n)
    } else {
        dec_digits(n)
    }
}

/// Whether `c` is a decimal digit character.
pub open spec fn is_dec_digit(c: char) -> bool {
    c == '0' || c == '1' || c == '2' || c == '3' || c == '4' || c == '5' || c == '6' || c == '7'
        || c == '8' || c == '9'
}

/// Every character of a decimal rendering is a digit.
pub proof fn lemma_dec_digits_are_digits(n: nat)
    ensures
        forall|i: int|
            0 <= i < dec_digits(n).len() ==> is_dec_digit(#[trigger] dec_digits(n)[i]),
    decreases n,
{
    if n >= 10 {
        lemma_dec_digits_are_digits(n / 10);
        assert(dec_digits(n) == dec_digits(n / 10) + seq![digit_char(n % 10)]);
        assert forall|i: int| 0 <= i < dec_digits(n).len() implies is_dec_digit(
            #[trigger] dec_digits(n)[i],
        ) by {
            if i < dec_digits(n / 10).len() {
                assert(dec_digits(n)[i] == dec_digits(n / 10)[i]);
            } else {
                assert(dec_digits(n)[i] == digit_char(n % 10));
            }
        }
    }
}

/// A value below one hundred renders as exactly two padded digits.
pub proof fn lemma_dec_pad2_len(n: nat)
    requires
        n < 100,
    ensures
        dec_pad2(n).len() == 2,
        is_dec_digit(dec_pad2(n)[0]),
        is_dec_digit(dec_pad2(n)[1]),
{
    lemma_dec_digits_are_digits(n);
    if n >= 10 {
        assert(dec_digits(n) == dec_digits(n / 10) + seq![digit_char(n % 10)]);
        assert(n / 10 < 10);
    }
}

fn digit_str(d: u64) -> (r: &'static str)
    requires
        d < 10,
    ensures
        r@ == seq![digit_char(d as nat)],
{
    if d == 0 {
        proof {
            reveal_strlit("0");
            assert("0"@ =~= seq![digit_char(0)]);
        }
        "0"
    } else if d == 1 {
        proof {
            reveal_strlit("1");
            assert("1"@ =~= seq![digit_char(1)]);
        }
        "1"
    } else if d == 2 {
        proof {
            reveal_strlit("2");
            assert("2"@ =~= seq![digit_char(2)]);
        }
        "2"
    } else if d == 3 {
        proof {
            reveal_strlit("3");
            assert("3"@ =~= seq![digit_char(3)]);
        }
        "3"
    } else if d == 4 {
        proof {
            reveal_strlit("4");
            assert("4"@ =~= seq![digit_char(4)]);
        }
        "4"
    } else if d == 5 {
        proof {
            reveal_strlit("5");
            assert("5"@ =~= seq![digit_char(5)]);
        }
        "5"
    } else if d == 6 {
        proof {
            reveal_strlit("6");
            assert("6"@ =~= seq![digit_char(6)]);
        }
        "6"
    } else if d == 7 {
        proof {
            reveal_strlit("7");
            assert("7"@ =~= seq![digit_char(7)]);
        }
        "7"
    } else if d == 8 {
        proof {
            reveal_strlit("8");
            assert("8"@ =~= seq![digit_char(8)]);
        }
        "8"
    } else {
        proof {
            reveal_strlit("9");
            assert("9"@ =~= seq![digit_char(9)]);
        }
        "9"
    }
}

/// Decimal text of an unsigned value.
pub fn u64_to_dec(n: u64) -> (s: String)
    ensures
        s@ == dec_digits(n as nat),
    decreases n,
{
    if n < 10 {
        String::from_str(digit_str(n))
    } else {
        let mut s = u64_to_dec(n / 10);
        s.append(digit_str(n % 10));
        s
    }
}

/// Decimal text of a signed value.
pub fn i64_to_dec(v: i64) -> (s: String)
    ensures
        s@ == dec_int(v as int),
{
    if v < 0 {
        let m: u64 = if v == i64::MIN {
            9223372036854775808u64
        } else {
            (-v) as u64
        };
        let mut s = String::from_str("-");
        proof {
            reveal_strlit("-");
            assert("-"@ =~= seq!['-']);
        }
        s.append(u64_to_dec(m).as_str());
        s
    } else {
        u64_to_dec(v as u64)
    }
}

/// Decimal text of `n`, zero-padded on the left to at least two digits.
pub fn u64_to_dec_pad2(n: u64) -> (s: String)
    ensures
        s@ == dec_pad2(n as nat),
{
    if n < 10 {
        let mut s = String::from_str("0");
        proof {
            reveal_strlit("0");
            assert("0"@ =~= seq!['0']);
        }
        s.append(digit_str(n));
        s
    } else {
        u64_to_dec(n)
    }
}

/// The file name under which one tile is published.
pub open spec fn tile_file_name_spec(z: u32, x: i32, y: i32) -> Seq<char> {
    dec_digits(z as nat) + seq!['_'] + dec_int(x as int) + seq!['_'] + dec_int(y as int) + seq![
        '.',
        'g',
        'l',
        'b',
    ]
}

/// Builds the final file name for a tile: zoom, x and y joined by
/// underscores, with the tile payload extension.
pub fn tile_file_name(z: u32, x: i32, y: i32) -> (s: String)
    ensures
        s@ == tile_file_name_spec(z, x, y),
{
    let mut s = u64_to_dec(z as u64);
    proof {
        reveal_strlit("_");
        assert("_"@ =~= seq!['_']);
        reveal_strlit(".glb");
        assert(".glb"@ =~= seq!['.', 'g', 'l', 'b']);
    }
    s.append("_");
    s.append(i64_to_dec(x as i64).as_str());
    s.append("_");
    s.append(i64_to_dec(y as i64).as_str());
    s.append(".glb");
    s
}

/// The sibling temporary name a payload is written to before the rename
/// that publishes it. It always differs from the final name, so a partial
/// write is never observable under the final path.
pub fn part_file_name(name: &str) -> (s: String)
    ensures
        s@ == name@ + seq!['.', 'p', 'a', 'r', 't'],
        s@ != name@,
{
    let mut s = String::from_str(name);
    proof {
        reveal_strlit(".part");
        assert(".part"@ =~= seq!['.', 'p', 'a', 'r', 't']);
    }
    s.append(".part");
    proof {
        assert(s@.len() == name@.len() + 5);
    }
    s
}

/// Builds the request URL for one tile from its quadkey and the fixed
/// map-source query parameters plus the API key.
pub fn build_tile_url(host: &str, quadkey: &str, g: &str, tf: &str, api_key: &str) -> (url:
    String)
    ensures
        url@ == host@ + "/tiles/mtx"@ + quadkey@ + "?g="@ + g@ + "&tf="@ + tf@ + "&n=z&key="@
            + api_key@ + "&form=web3d"@,
{
    let mut url = String::from_str(host);
    url.append("/tiles/mtx");
    url.append(quadkey);
    url.append("?g=");
    url.append(g);
    url.append("&tf=");
    url.append(tf);
    url.append("&n=z&key=");
    url.append(api_key);
    url.append("&form=web3d");
    url
}

} // verus!
