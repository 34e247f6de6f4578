//! Text helpers shared by the clock and the HUD: the order in which labels are listed
//! (code point by code point, the way `str` orders) and decimal numerals.

use vstd::prelude::*;

verus! {

/// `a` and `b` agree on their first `k` characters.
pub open spec fn agree_up_to(a: Seq<char>, b: Seq<char>, k: int) -> bool {
    0 <= k <= a.len() && k <= b.len() && forall|j: int| 0 <= j < k ==> a[j] == b[j]
}

/// `k` is where `a` first falls below `b`: either `a` ends there while `b` goes on,
/// or both go on and `a`'s character is the smaller one.
pub open spec fn falls_below_at(a: Seq<char>, b: Seq<char>, k: int) -> bool {
    agree_up_to(a, b, k) && ((k == a.len() && k < b.len()) || (k < a.len() && k < b.len() && (
    a[k] as int) < (b[k] as int)))
}

/// Lexicographic order on texts (by code point, as `str` is ordered).
pub open spec fn text_lt(a: Seq<char>, b: Seq<char>) -> bool {
    exists|k: int| falls_below_at(a, b, k)
}

/// No text comes before itself.
pub proof fn lemma_text_lt_irreflexive(a: Seq<char>)
    ensures
        !text_lt(a, a),
{
    if text_lt(a, a) {
        let k = choose|k: int| falls_below_at(a, a, k);
    }
}

/// Two texts are never each before the other.
pub proof fn lemma_text_lt_asymmetric(a: Seq<char>, b: Seq<char>)
    requires
        text_lt(a, b),
    ensures
        !text_lt(b, a),
{
    let k = choose|k: int| falls_below_at(a, b, k);
    if text_lt(b, a) {
        let m = choose|m: int| falls_below_at(b, a, m);
        if k < m {
            assert(b[k] == a[k]);
        } else if m < k {
            assert(a[m] == b[m]);
        }
    }
}

/// The order is transitive.
pub proof fn lemma_text_lt_transitive(a: Seq<char>, b: Seq<char>, c: Seq<char>)
    requires
        text_lt(a, b),
        text_lt(b, c),
    ensures
        text_lt(a, c),
{
    let k = choose|k: int| falls_below_at(a, b, k);
    let m = choose|m: int| falls_below_at(b, c, m);
    if k <= m {
        assert(falls_below_at(a, c, k)) by {
            assert forall|j: int| 0 <= j < k implies a[j] == c[j] by {
                assert(a[j] == b[j]);
                assert(b[j] == c[j]);
            }
            if k < m {
                assert(b[k] == c[k]);
            }
        }
    } else {
        assert(falls_below_at(a, c, m)) by {
            assert forall|j: int| 0 <= j < m implies a[j] == c[j] by {
                assert(a[j] == b[j]);
                assert(b[j] == c[j]);
            }
            assert(a[m] == b[m]);
        }
    }
}

/// Two different texts are always ordered one way or the other.
pub proof fn lemma_text_lt_total(a: Seq<char>, b: Seq<char>)
    requires
        a != b,
    ensures
        text_lt(a, b) || text_lt(b, a),
    decreases a.len(),
{
    if a.len() == 0 {
        assert(falls_below_at(a, b, 0)) by {
            if b.len() == 0 {
                assert(a =~= b);
            }
        }
    } else if b.len() == 0 {
        assert(falls_below_at(b, a, 0));
    } else if (a[0] as int) != (b[0] as int) {
        if (a[0] as int) < (b[0] as int) {
            assert(falls_below_at(a, b, 0));
        } else {
            assert(falls_below_at(b, a, 0));
        }
    } else {
        let ta = a.drop_first();
        let tb = b.drop_first();
        assert(a[0] == b[0]);
        assert(ta != tb) by {
            if ta == tb {
                assert(a =~= seq![a[0]] + ta);
                assert(b =~= seq![b[0]] + tb);
            }
        }
        lemma_text_lt_total(ta, tb);
        if text_lt(ta, tb) {
            let k = choose|k: int| falls_below_at(ta, tb, k);
            assert(falls_below_at(a, b, k + 1)) by {
                assert forall|j: int| 0 <= j < k + 1 implies a[j] == b[j] by {
                    if j > 0 {
                        assert(a[j] == ta[j - 1]);
                        assert(b[j] == tb[j - 1]);
                    }
                }
            }
        } else {
            let k = choose|k: int| falls_below_at(tb, ta, k);
            assert(falls_below_at(b, a, k + 1)) by {
                assert forall|j: int| 0 <= j < k + 1 implies b[j] == a[j] by {
                    if j > 0 {
                        assert(a[j] == ta[j - 1]);
                        assert(b[j] == tb[j - 1]);
                    }
                }
            }
        }
    }
}

/// Compare two texts: negative when `a` comes first, zero when they are equal,
/// positive when `b` comes first.
pub fn text_order(a: &str, b: &str) -> (r: i8)
    ensures
        r < 0 <==> text_lt(a@, b@),
        r == 0 <==> a@ == b@,
        r > 0 <==> text_lt(b@, a@),
{
    let la = a.unicode_len();
    let lb = b.unicode_len();
    let n = if la < lb {
        la
    } else {
        lb
    };
    let mut i: usize = 0;
    while i < n
        invariant
            la == a@.len(),
            lb == b@.len(),
            n <= la,
            n <= lb,
            0 <= i <= n,
            agree_up_to(a@, b@, i as int),
        decreases n - i,
    {
        let ca = a.get_char(i);
        let cb = b.get_char(i);
        let ua = ca as u32;
        let ub = cb as u32;
        if ua != ub {
            if ua < ub {
                proof {
                    assert(falls_below_at(a@, b@, i as int));
                    lemma_text_lt_asymmetric(a@, b@);
                }
                return -1;
            } else {
                proof {
                    assert(falls_below_at(b@, a@, i as int));
                    lemma_text_lt_asymmetric(b@, a@);
                }
                return 1;
            }
        }
        i = i + 1;
    }
    if la < lb {
        proof {
            assert(falls_below_at(a@, b@, la as int));
            lemma_text_lt_asymmetric(a@, b@);
        }
        -1
    } else if lb < la {
        proof {
            assert(falls_below_at(b@, a@, lb as int));
            lemma_text_lt_asymmetric(b@, a@);
        }
        1
    } else {
        proof {
            assert(a@ =~= b@);
            lemma_text_lt_irreflexive(a@);
        }
        0
    }
}

/// The character of one decimal digit.
pub open spec fn digit_char(d: int) -> char {
    (48 + d) as char
}

/// The decimal numeral of a natural number, most significant digit first.
pub open spec fn digits(n: nat) -> Seq<char>
    decreases n,
{
    if n < 10 {
        seq![digit_char(n as int)]
    } else {
        digits(n / 10).push(digit_char((n % 10) as int))
    }
}

/// The decimal numeral of an integer, with a leading `-` when negative.
pub open spec fn decimal(n: int) -> Seq<char> {
    if n < 0 {
        seq!['-'] + digits((-n) as nat)
    } else {
        digits(n as nat)
    }
}

/// Append the character of one decimal digit.
fn append_digit(text: &mut String, d: u64)
    requires
        d < 10,
    ensures
        final(text)@ == old(text)@ + seq![digit_char(d as int)],
{
    proof {
        reveal_strlit("0");
        reveal_strlit("1");
        reveal_strlit("2");
        reveal_strlit("3");
        reveal_strlit("4");
        reveal_strlit("5");
        reveal_strlit("6");
        reveal_strlit("7");
        reveal_strlit("8");
        reveal_strlit("9");
    }
    let digit = match d {
        0 => "0",
        1 => "1",
        2 => "2",
        3 => "3",
        4 => "4",
        5 => "5",
        6 => "6",
        7 => "7",
        8 => "8",
        _ => "9",
    };
    text.append(digit);
    proof {
        assert(digit@ =~= seq![digit_char(d as int)]);
    }
}

/// Append the decimal digits of `n`, most significant first.
fn append_digits(text: &mut String, n: u64)
    ensures
        final(text)@ == old(text)@ + digits(n as nat),
    decreases n,
{
    if n >= 10 {
        append_digits(text, n / 10);
    }
    append_digit(text, n % 10);
    proof {
        if n >= 10 {
            assert(digits(n as nat) == digits((n / 10) as nat).push(digit_char((n % 10) as int)));
        } else {
            assert(digits(n as nat) == seq![digit_char(n as int)]);
        }
        assert(final(text)@ =~= old(text)@ + digits(n as nat));
    }
}

/// The decimal numeral of a signed integer, as `Display` writes it.
pub(crate) fn signed_text(n: i64) -> (s: String)
    ensures
        s@ == decimal(n as int),
{
    if n < 0 {
        proof {
            reveal_strlit("-");
        }
        let mut text = String::from_str("-");
        let magnitude: u64 = ((-(n + 1)) as u64) + 1;
        append_digits(&mut text, magnitude);
        proof {
            assert(text@ =~= seq!['-'] + digits((-n) as nat));
        }
        text
    } else {
        unsigned_text(n as u64)
    }
}

/// The decimal numeral of an unsigned integer, as `Display` writes it.
pub(crate) fn unsigned_text(n: u64) -> (s: String)
    ensures
        s@ == decimal(n as int),
{
    proof {
        reveal_strlit("");
    }
    let mut text = String::from_str("");
    append_digits(&mut text, n);
    proof {
        assert(text@ =~= digits(n as nat));
    }
    text
}

} // verus!
