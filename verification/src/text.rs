//! Character-level utilities shared by the document encoder and decoder:
//! digit and hexadecimal classification, the number-token grammar of the
//! document text, and conversions between strings and character vectors.
use vstd::prelude::*;

verus! {

use vstd::string::StrSliceExecFns;

/// True for the ten decimal digit characters.
pub open spec fn is_digit(c: char) -> bool {
    48 <= c as u32 && c as u32 <= 57
}

/// The numeric value of a decimal digit character.
pub open spec fn digit_val(c: char) -> int {
    c as u32 - 48
}

/// The character for a decimal digit value.
pub open spec fn digit_char(d: int) -> char {
    ((48 + d) as u8) as char
}

/// The lower-case hexadecimal character for a value below sixteen.
pub open spec fn hex_char(d: int) -> char {
    if d < 10 {
        ((48 + d) as u8) as char
    } else {
        ((87 + d) as u8) as char
    }
}

/// The value of a hexadecimal digit character, or -1 for any other character.
pub open spec fn hex_val(c: char) -> int {
    if 48 <= c as u32 && c as u32 <= 57 {
        c as u32 - 48
    } else if 97 <= c as u32 && c as u32 <= 102 {
        c as u32 - 87
    } else if 65 <= c as u32 && c as u32 <= 70 {
        c as u32 - 55
    } else {
        -1
    }
}

/// True for every character that can appear in a number token.
pub open spec fn is_num_char(c: char) -> bool {
    is_digit(c) || c == '-' || c == '+' || c == '.' || c == 'e' || c == 'E'
}

/// The first position at or after `i` that does not hold a digit.
pub open spec fn digits_end(t: Seq<char>, i: int) -> int
    decreases t.len() - i when 0 <= i <= t.len()
{
    if i < t.len() && is_digit(t[i]) {
        digits_end(t, i + 1)
    } else {
        i
    }
}

/// The first position at or after `i` that does not hold a number character.
pub open spec fn num_chars_end(t: Seq<char>, i: int) -> int
    decreases t.len() - i when 0 <= i <= t.len()
{
    if i < t.len() && is_num_char(t[i]) {
        num_chars_end(t, i + 1)
    } else {
        i
    }
}

/// The number grammar of the document text: an optional minus sign, an
/// integer part without leading zeroes, an optional fraction, an optional
/// exponent, and nothing after them.
pub open spec fn num_token(t: Seq<char>) -> bool {
    let n = t.len() as int;
    let s: int = if n > 0 && t[0] == '-' {
        1
    } else {
        0
    };
    &&& s < n
    &&& is_digit(t[s])
    &&& {
        let ie = if t[s] == '0' {
            s + 1
        } else {
            digits_end(t, s)
        };
        let fe = if ie < n && t[ie] == '.' {
            if ie + 1 < n && is_digit(t[ie + 1]) {
                digits_end(t, ie + 1)
            } else {
                -1
            }
        } else {
            ie
        };
        &&& fe >= 0
        &&& {
            let xe = if fe < n && (t[fe] == 'e' || t[fe] == 'E') {
                let es = if fe + 1 < n && (t[fe + 1] == '+' || t[fe + 1] == '-') {
                    fe + 2
                } else {
                    fe + 1
                };
                if es < n && is_digit(t[es]) {
                    digits_end(t, es)
                } else {
                    -1
                }
            } else {
                fe
            };
            xe == n
        }
    }
}

/// The integer grammar: an optional minus sign and an integer part without
/// leading zeroes, and nothing after them.
pub open spec fn int_token(t: Seq<char>) -> bool {
    let n = t.len() as int;
    let s: int = if n > 0 && t[0] == '-' {
        1
    } else {
        0
    };
    &&& s < n
    &&& is_digit(t[s])
    &&& (if t[s] == '0' {
        s + 1 == n
    } else {
        digits_end(t, s) == n
    })
}

pub proof fn lemma_digits_end(t: Seq<char>, i: int)
    requires
        0 <= i <= t.len(),
    ensures
        i <= digits_end(t, i) <= t.len(),
        forall|k: int| i <= k < digits_end(t, i) ==> is_digit(t[k]),
        digits_end(t, i) < t.len() ==> !is_digit(t[digits_end(t, i)]),
    decreases t.len() - i,
{
    if i < t.len() && is_digit(t[i]) {
        lemma_digits_end(t, i + 1);
    }
}

pub proof fn lemma_num_chars_end(t: Seq<char>, i: int)
    requires
        0 <= i <= t.len(),
    ensures
        i <= num_chars_end(t, i) <= t.len(),
        forall|k: int| i <= k < num_chars_end(t, i) ==> is_num_char(t[k]),
        num_chars_end(t, i) < t.len() ==> !is_num_char(t[num_chars_end(t, i)]),
    decreases t.len() - i,
{
    if i < t.len() && is_num_char(t[i]) {
        lemma_num_chars_end(t, i + 1);
    }
}

/// Scanning for number characters stops exactly at the first position whose
/// character is not one, so a run of number characters is taken whole.
pub proof fn lemma_num_scan_exact(t: Seq<char>, i: int, j: int)
    requires
        0 <= i <= j <= t.len(),
        forall|k: int| i <= k < j ==> is_num_char(t[k]),
        j == t.len() || !is_num_char(t[j]),
    ensures
        num_chars_end(t, i) == j,
    decreases j - i,
{
    if i < j {
        lemma_num_scan_exact(t, i + 1, j);
    }
}

/// Every character of a well-formed number token is a number character.
pub proof fn lemma_num_token_chars(t: Seq<char>)
    requires
        num_token(t),
    ensures
        forall|k: int| 0 <= k < t.len() ==> is_num_char(t[k]),
{
    let n = t.len() as int;
    let s: int = if n > 0 && t[0] == '-' {
        1
    } else {
        0
    };
    let ie = if t[s] == '0' {
        s + 1
    } else {
        digits_end(t, s)
    };
    lemma_digits_end(t, s);
    let fe = if ie < n && t[ie] == '.' {
        digits_end(t, ie + 1)
    } else {
        ie
    };
    if ie < n && t[ie] == '.' {
        lemma_digits_end(t, ie + 1);
    }
    if fe < n && (t[fe] == 'e' || t[fe] == 'E') {
        let es = if fe + 1 < n && (t[fe + 1] == '+' || t[fe + 1] == '-') {
            fe + 2
        } else {
            fe + 1
        };
        lemma_digits_end(t, es);
        assert forall|k: int| 0 <= k < t.len() implies is_num_char(t[k]) by {
            if k >= es {
            } else if k == fe + 1 || k == fe {
            } else if k >= ie + 1 {
            } else if k == ie || k == s || k < s {
            }
        }
    } else {
        assert forall|k: int| 0 <= k < t.len() implies is_num_char(t[k]) by {
            if k >= ie + 1 {
            } else if k == ie || k == s || k < s {
            }
        }
    }
}

/// Scanning for digits stops exactly at the first position whose character
/// is not one, so a run of digits is taken whole.
pub proof fn lemma_digits_scan_exact(t: Seq<char>, i: int, j: int)
    requires
        0 <= i <= j <= t.len(),
        forall|k: int| i <= k < j ==> is_digit(t[k]),
        j == t.len() || !is_digit(t[j]),
    ensures
        digits_end(t, i) == j,
    decreases j - i,
{
    if i < j {
        lemma_digits_scan_exact(t, i + 1, j);
    }
}

/// The first position at or after `i` without a digit, computed.
pub fn digits_end_x(v: &Vec<char>, i: usize) -> (r: usize)
    requires
        i <= v@.len(),
    ensures
        r as int == digits_end(v@, i as int),
        i <= r <= v@.len(),
{
    let mut j: usize = i;
    loop
        invariant
            i <= j <= v@.len(),
            digits_end(v@, i as int) == digits_end(v@, j as int),
        decreases v@.len() - j,
    {
        if j >= v.len() {
            return j;
        }
        let c = v[j];
        if !(48 <= c as u32 && c as u32 <= 57) {
            return j;
        }
        j = j + 1;
    }
}

/// Checks a character vector against the number grammar.
pub fn num_token_chars(v: &Vec<char>) -> (r: bool)
    ensures
        r == num_token(v@),
{
    let n = v.len();
    let s: usize = if n > 0 && v[0] == '-' {
        1
    } else {
        0
    };
    if s >= n {
        return false;
    }
    let c = v[s];
    if !(48 <= c as u32 && c as u32 <= 57) {
        return false;
    }
    let ie: usize = if c == '0' {
        s + 1
    } else {
        digits_end_x(v, s)
    };
    proof {
        lemma_digits_end(v@, s as int);
    }
    let fe: usize;
    if ie < n && v[ie] == '.' {
        if ie + 1 < n {
            let c2 = v[ie + 1];
            if 48 <= c2 as u32 && c2 as u32 <= 57 {
                fe = digits_end_x(v, ie + 1);
            } else {
                return false;
            }
        } else {
            return false;
        }
    } else {
        fe = ie;
    }
    let xe: usize;
    if fe < n && (v[fe] == 'e' || v[fe] == 'E') {
        let es: usize = if fe + 1 < n && (v[fe + 1] == '+' || v[fe + 1] == '-') {
            fe + 2
        } else {
            fe + 1
        };
        if es < n {
            let c3 = v[es];
            if 48 <= c3 as u32 && c3 as u32 <= 57 {
                xe = digits_end_x(v, es);
            } else {
                return false;
            }
        } else {
            return false;
        }
    } else {
        xe = fe;
    }
    xe == n
}

/// Checks a string against the number grammar: whether it can stand as a
/// numeric field of a document.
pub fn is_number_token(s: &str) -> (r: bool)
    ensures
        r == num_token(s@),
{
    let v = str_chars(s);
    num_token_chars(&v)
}

/// Relies on `String::from_iter`: collects the characters in order.
#[verifier::external_body]
pub fn chars_to_string(v: &Vec<char>) -> (r: String)
    ensures
        r@ == v@,
{
    v.iter().collect()
}

/// The characters of a string, in order, as a vector.
pub fn str_chars(s: &str) -> (r: Vec<char>)
    ensures
        r@ == s@,
{
    let n = s.unicode_len();
    let mut r: Vec<char> = Vec::new();
    let mut i: usize = 0;
    while i < n
        invariant
            n == s@.len(),
            i <= n,
            r@ == s@.take(i as int),
        decreases n - i,
    {
        r.push(s.get_char(i));
        i = i + 1;
        proof {
            assert(r@ =~= s@.take(i as int));
        }
    }
    proof {
        assert(s@.take(n as int) =~= s@);
    }
    r
}

/// Appends the characters of a string to a character vector.
pub fn push_str_chars(out: &mut Vec<char>, s: &str)
    ensures
        final(out)@ == old(out)@ + s@,
{
    let n = s.unicode_len();
    let mut i: usize = 0;
    while i < n
        invariant
            n == s@.len(),
            i <= n,
            out@ == old(out)@ + s@.take(i as int),
        decreases n - i,
    {
        out.push(s.get_char(i));
        i = i + 1;
        proof {
            assert(out@ =~= old(out)@ + s@.take(i as int));
        }
    }
    proof {
        assert(s@.take(n as int) =~= s@);
    }
}

} // verus!
