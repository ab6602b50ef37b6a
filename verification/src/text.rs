//! Verified text utilities: string equality, whitespace tokenization, and
//! decimal rendering of numbers (used for synthesized node identifiers).

use vstd::prelude::*;
use vstd::string::StrSliceExecFns;
use vstd::string::StringExecFns;

verus! {

/// The whitespace characters that separate tokens.
pub open spec fn is_space_char(c: char) -> bool {
    c == ' ' || c == '\t' || c == '\n' || c == '\r'
}

pub fn is_space(c: char) -> (r: bool)
    ensures
        r == is_space_char(c),
{
    c == ' ' || c == '\t' || c == '\n' || c == '\r'
}

/// Character-for-character equality of two string slices.
pub fn str_eq(a: &str, b: &str) -> (r: bool)
    ensures
        r == (a@ == b@),
{
    let alen = a.unicode_len();
    let blen = b.unicode_len();
    if alen != blen {
        return false;
    }
    let mut i: usize = 0;
    while i < alen
        invariant
            i <= alen,
            alen == a@.len(),
            blen == b@.len(),
            alen == blen,
            forall|j: int| 0 <= j < i ==> a@[j] == b@[j],
        decreases alen - i,
    {
        if a.get_char(i) != b.get_char(i) {
            return false;
        }
        i += 1;
    }
    proof {
        assert(a@ =~= b@);
    }
    true
}

/// Length of the maximal leading run of non-whitespace characters.
pub open spec fn spec_token_len(s: Seq<char>) -> int
    decreases s.len(),
{
    if s.len() == 0 || is_space_char(s[0]) {
        0
    } else {
        1 + spec_token_len(s.drop_first())
    }
}

pub proof fn lemma_token_len_bounds(s: Seq<char>)
    ensures
        0 <= spec_token_len(s) <= s.len(),
        s.len() > 0 && !is_space_char(s[0]) ==> 1 <= spec_token_len(s),
        forall|j: int| 0 <= j < spec_token_len(s) ==> !is_space_char(#[trigger] s[j]),
        spec_token_len(s) < s.len() ==> is_space_char(s[spec_token_len(s)]),
    decreases s.len(),
{
    if s.len() == 0 || is_space_char(s[0]) {
    } else {
        lemma_token_len_bounds(s.drop_first());
        assert forall|j: int| 0 <= j < spec_token_len(s) implies !is_space_char(#[trigger] s[j]) by {
            if j > 0 {
                assert(s.drop_first()[j - 1] == s[j]);
            }
        }
        if spec_token_len(s) < s.len() {
            assert(s.drop_first()[spec_token_len(s) - 1] == s[spec_token_len(s)]);
        }
    }
}

/// A run of non-whitespace characters of a known length determines
/// `spec_token_len` exactly.
pub proof fn lemma_token_len_exact(s: Seq<char>, k: int)
    requires
        0 <= k <= s.len(),
        forall|j: int| 0 <= j < k ==> !is_space_char(#[trigger] s[j]),
        k < s.len() ==> is_space_char(s[k]),
    ensures
        spec_token_len(s) == k,
    decreases s.len(),
{
    if s.len() == 0 || is_space_char(s[0]) {
    } else {
        assert(k >= 1);
        let t = s.drop_first();
        assert forall|j: int| 0 <= j < k - 1 implies !is_space_char(#[trigger] t[j]) by {
            assert(t[j] == s[j + 1]);
        }
        if k - 1 < t.len() {
            assert(t[k - 1] == s[k]);
        }
        lemma_token_len_exact(t, k - 1);
    }
}

/// The sequence of whitespace-separated tokens of a character sequence.
pub open spec fn spec_tokenize(s: Seq<char>) -> Seq<Seq<char>>
    decreases s.len(),
    via spec_tokenize_decreases
{
    if s.len() == 0 {
        Seq::empty()
    } else if is_space_char(s[0]) {
        spec_tokenize(s.drop_first())
    } else {
        let k = spec_token_len(s);
        seq![s.subrange(0, k)] + spec_tokenize(s.subrange(k, s.len() as int))
    }
}

#[via_fn]
proof fn spec_tokenize_decreases(s: Seq<char>) {
    lemma_token_len_bounds(s);
}

/// Splits a string on whitespace into its tokens.
pub fn tokenize(text: &str) -> (tokens: Vec<String>)
    ensures
        tokens@.len() == spec_tokenize(text@).len(),
        forall|j: int|
            0 <= j < tokens@.len() ==> #[trigger] tokens@[j]@ == spec_tokenize(text@)[j],
{
    let n = text.unicode_len();
    let mut tokens: Vec<String> = Vec::new();
    let mut i: usize = 0;
    proof {
        assert(text@.subrange(0, n as int) =~= text@);
        assert(tokens@.map_values(|t: String| t@) =~= Seq::<Seq<char>>::empty());
    }
    while i < n
        invariant
            i <= n,
            n == text@.len(),
            spec_tokenize(text@) =~= tokens@.map_values(|t: String| t@) + spec_tokenize(
                text@.subrange(i as int, n as int),
            ),
        decreases n - i,
    {
        let ghost rest = text@.subrange(i as int, n as int);
        if is_space(text.get_char(i)) {
            proof {
                assert(rest.drop_first() =~= text@.subrange(i + 1, n as int));
            }
            i += 1;
        } else {
            let start = i;
            i += 1;
            while i < n && !is_space(text.get_char(i))
                invariant
                    start < i <= n,
                    n == text@.len(),
                    forall|j: int| start <= j < i ==> !is_space_char(#[trigger] text@[j]),
                decreases n - i,
            {
                i += 1;
            }
            let tok = String::from_str(text.substring_char(start, i));
            proof {
                let k = i - start;
                assert forall|j: int| 0 <= j < k implies !is_space_char(#[trigger] rest[j]) by {
                    assert(rest[j] == text@[i as int - k + j]);
                }
                if k < rest.len() {
                    assert(rest[k] == text@[i as int]);
                }
                lemma_token_len_exact(rest, k);
                assert(rest.subrange(0, k) =~= text@.subrange(start as int, i as int));
                assert(rest.subrange(k, rest.len() as int) =~= text@.subrange(i as int, n as int));
                assert((tokens@ + seq![tok]).map_values(|t: String| t@) =~= tokens@.map_values(
                    |t: String| t@,
                ) + seq![tok@]);
            }
            tokens.push(tok);
        }
    }
    proof {
        assert(text@.subrange(n as int, n as int) =~= Seq::<char>::empty());
        assert(tokens@.map_values(|t: String| t@) =~= spec_tokenize(text@));
        assert forall|j: int| 0 <= j < tokens@.len() implies #[trigger] tokens@[j]@ == spec_tokenize(
            text@,
        )[j] by {
            assert(tokens@.map_values(|t: String| t@)[j] == tokens@[j]@);
        }
    }
    tokens
}

/// The character for a single decimal digit.
pub open spec fn spec_digit_char(d: int) -> char {
    if d == 0 {
        '0'
    } else if d == 1 {
        '1'
    } else if d == 2 {
        '2'
    } else if d == 3 {
        '3'
    } else if d == 4 {
        '4'
    } else if d == 5 {
        '5'
    } else if d == 6 {
        '6'
    } else if d == 7 {
        '7'
    } else if d == 8 {
        '8'
    } else {
        '9'
    }
}

/// The decimal digit characters of a number, most significant first.
pub open spec fn spec_dec_digits(n: nat) -> Seq<char>
    decreases n,
{
    if n < 10 {
        seq![spec_digit_char(n as int)]
    } else {
        spec_dec_digits(n / 10) + seq![spec_digit_char((n % 10) as int)]
    }
}

fn push_digit(s: &mut String, d: usize)
    requires
        d < 10,
    ensures
        final(s)@ == old(s)@ + seq![spec_digit_char(d as int)],
{
    match d {
        0 => {
            proof {
                reveal_strlit("0");
                assert("0"@ =~= seq![spec_digit_char(0)]);
            }
            s.append("0");
        },
        1 => {
            proof {
                reveal_strlit("1");
                assert("1"@ =~= seq![spec_digit_char(1)]);
            }
            s.append("1");
        },
        2 => {
            proof {
                reveal_strlit("2");
                assert("2"@ =~= seq![spec_digit_char(2)]);
            }
            s.append("2");
        },
        3 => {
            proof {
                reveal_strlit("3");
                assert("3"@ =~= seq![spec_digit_char(3)]);
            }
            s.append("3");
        },
        4 => {
            proof {
                reveal_strlit("4");
                assert("4"@ =~= seq![spec_digit_char(4)]);
            }
            s.append("4");
        },
        5 => {
            proof {
                reveal_strlit("5");
                assert("5"@ =~= seq![spec_digit_char(5)]);
            }
            s.append("5");
        },
        6 => {
            proof {
                reveal_strlit("6");
                assert("6"@ =~= seq![spec_digit_char(6)]);
            }
            s.append("6");
        },
        7 => {
            proof {
                reveal_strlit("7");
                assert("7"@ =~= seq![spec_digit_char(7)]);
            }
            s.append("7");
        },
        8 => {
            proof {
                reveal_strlit("8");
                assert("8"@ =~= seq![spec_digit_char(8)]);
            }
            s.append("8");
        },
        _ => {
            proof {
                reveal_strlit("9");
                assert("9"@ =~= seq![spec_digit_char(9)]);
            }
            s.append("9");
        },
    }
}

/// Appends the decimal representation of `n` to a string.
pub fn push_decimal(s: &mut String, n: usize)
    ensures
        final(s)@ == old(s)@ + spec_dec_digits(n as nat),
    decreases n,
{
    if n >= 10 {
        push_decimal(s, n / 10);
    }
    push_digit(s, n % 10);
}

} // verus!
