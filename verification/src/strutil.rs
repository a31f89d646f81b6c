use vstd::prelude::*;

verus! {

/// Index of the first character equal to `a` or to `b`, or -1 if there is none.
pub open spec fn find_or(s: Seq<char>, a: char, b: char) -> int
    decreases s.len(),
{
    if s.len() == 0 {
        -1
    } else if s[0] == a || s[0] == b {
        0
    } else {
        let r = find_or(s.drop_first(), a, b);
        if r < 0 {
            -1
        } else {
            r + 1
        }
    }
}

/// `find_or` returns exactly the least matching index, and -1 only when nothing matches.
pub proof fn lemma_find_or(s: Seq<char>, a: char, b: char)
    ensures
        find_or(s, a, b) == -1 ==> forall|k: int| 0 <= k < s.len() ==> s[k] != a && s[k] != b,
        find_or(s, a, b) >= 0 ==> {
            let r = find_or(s, a, b);
            &&& r < s.len()
            &&& (s[r] == a || s[r] == b)
            &&& forall|k: int| 0 <= k < r ==> s[k] != a && s[k] != b
        },
    decreases s.len(),
{
    if s.len() > 0 && !(s[0] == a || s[0] == b) {
        let t = s.drop_first();
        lemma_find_or(t, a, b);
        let rt = find_or(t, a, b);
        if rt < 0 {
            assert(find_or(s, a, b) == -1);
            assert forall|k: int| 0 <= k < s.len() implies s[k] != a && s[k] != b by {
                if k > 0 {
                    assert(s[k] == t[k - 1]);
                }
            }
        } else {
            let r = find_or(s, a, b);
            assert(r == rt + 1);
            assert(s[r] == t[rt]);
            assert forall|k: int| 0 <= k < r implies s[k] != a && s[k] != b by {
                if k > 0 {
                    assert(s[k] == t[k - 1]);
                }
            }
        }
    }
}

/// The least matching index determines `find_or`: a witness pins the value.
pub proof fn lemma_find_or_is(s: Seq<char>, a: char, b: char, i: int)
    requires
        0 <= i < s.len(),
        s[i] == a || s[i] == b,
        forall|k: int| 0 <= k < i ==> s[k] != a && s[k] != b,
    ensures
        find_or(s, a, b) == i,
    decreases s.len(),
{
    if i > 0 {
        lemma_find_or_is(s.drop_first(), a, b, i - 1);
    }
}

/// No match anywhere means `find_or` is -1.
pub proof fn lemma_find_or_none(s: Seq<char>, a: char, b: char)
    requires
        forall|k: int| 0 <= k < s.len() ==> s[k] != a && s[k] != b,
    ensures
        find_or(s, a, b) == -1,
    decreases s.len(),
{
    if s.len() > 0 {
        lemma_find_or_none(s.drop_first(), a, b);
    }
}

/// Finds the first occurrence of `a` or `b` in `s`, scanning left to right.
pub fn find_either(s: &str, a: char, b: char) -> (r: Option<usize>)
    ensures
        match r {
            Some(i) => find_or(s@, a, b) == i as int,
            None => find_or(s@, a, b) == -1,
        },
{
    let n: usize = s.unicode_len();
    let mut i: usize = 0;
    while i < n
        invariant
            n == s@.len(),
            0 <= i <= n,
            forall|k: int| 0 <= k < i ==> s@[k] != a && s@[k] != b,
        decreases n - i,
    {
        let c = s.get_char(i);
        if c == a || c == b {
            proof {
                lemma_find_or_is(s@, a, b, i as int);
            }
            return Some(i);
        }
        i = i + 1;
    }
    proof {
        lemma_find_or_none(s@, a, b);
    }
    None
}

/// Exact (case-sensitive) string equality.
pub fn str_eq(s: &str, t: &str) -> (r: bool)
    ensures
        r == (s@ == t@),
{
    let n: usize = s.unicode_len();
    if n != t.unicode_len() {
        return false;
    }
    let mut i: usize = 0;
    while i < n
        invariant
            n == s@.len(),
            n == t@.len(),
            0 <= i <= n,
            forall|k: int| 0 <= k < i ==> s@[k] == t@[k],
        decreases n - i,
    {
        if s.get_char(i) != t.get_char(i) {
            return false;
        }
        i = i + 1;
    }
    proof {
        assert(s@ =~= t@);
    }
    true
}

/// The character for one decimal digit.
pub open spec fn dec_digit(d: int) -> char {
    ((0x30 + d) as u8) as char
}

/// The decimal numeral of a non-negative integer, most significant digit first.
pub open spec fn dec_str(n: int) -> Seq<char>
    recommends
        n >= 0,
    decreases n,
{
    if n < 10 {
        seq![dec_digit(n)]
    } else {
        dec_str(n / 10).push(dec_digit(n % 10))
    }
}

/// One decimal digit as a string slice.
pub fn digit_str(d: u64) -> (r: &'static str)
    requires
        d < 10,
    ensures
        r@ =~= seq![dec_digit(d as int)],
{
    proof {
        reveal_strlit("0");
        reveal_strlit("1");
        reveal_strlit("2");
        reveal_strlit("3");
        reveal_strlit("4");
        reveal_strlit("5");
        reveal_strlit("6");
        reveal_strlit("7");
        reveal_strlit("8");
        reveal_strlit("9");
    }
    if d == 0 {
        "0"
    } else if d == 1 {
        "1"
    } else if d == 2 {
        "2"
    } else if d == 3 {
        "3"
    } else if d == 4 {
        "4"
    } else if d == 5 {
        "5"
    } else if d == 6 {
        "6"
    } else if d == 7 {
        "7"
    } else if d == 8 {
        "8"
    } else {
        "9"
    }
}

/// Renders `n` in decimal.
pub fn u64_to_dec(n: u64) -> (r: String)
    ensures
        r@ == dec_str(n as int),
    decreases n,
{
    if n < 10 {
        String::from_str(digit_str(n))
    } else {
        let mut s = u64_to_dec(n / 10);
        s.append(digit_str(n % 10));
        proof {
            assert(s@ =~= dec_str(n as int));
        }
        s
    }
}

/// A two-digit, zero-padded decimal field.
pub open spec fn dec2(n: int) -> Seq<char> {
    seq![dec_digit(n / 10), dec_digit(n % 10)]
}

/// Renders `n` as a two-digit, zero-padded decimal field.
pub fn u64_to_dec2(n: u64) -> (r: String)
    requires
        n < 100,
    ensures
        r@ == dec2(n as int),
{
    let mut s = String::from_str(digit_str(n / 10));
    s.append(digit_str(n % 10));
    proof {
        assert(s@ =~= dec2(n as int));
    }
    s
}

} // verus!
