//! Small verified text helpers shared across the crate: whitespace handling,
//! prefix and containment tests, ASCII-case-insensitive comparison, and
//! rendering of unsigned numbers in decimal.

use vstd::prelude::*;
use vstd::string::*;

verus! {

/// The characters that count as whitespace when trimming and when splitting
/// an attribute value into words (the Unicode `White_Space` set).
pub open spec fn is_space_char(c: char) -> bool {
    let u = c as u32;
    (0x9 <= u && u <= 0xD) || u == 0x20 || u == 0x85 || u == 0xA0 || u == 0x1680 || (0x2000 <= u
        && u <= 0x200A) || u == 0x2028 || u == 0x2029 || u == 0x202F || u == 0x205F || u == 0x3000
}

/// Whether `c` is a whitespace character.
pub fn is_space(c: char) -> (r: bool)
    ensures
        r == is_space_char(c),
{
    let u = c as u32;
    (0x9 <= u && u <= 0xD) || u == 0x20 || u == 0x85 || u == 0xA0 || u == 0x1680 || (0x2000 <= u
        && u <= 0x200A) || u == 0x2028 || u == 0x2029 || u == 0x202F || u == 0x205F || u == 0x3000
}

/// `s` without its leading whitespace.
pub open spec fn skip_spaces(s: Seq<char>) -> Seq<char>
    decreases s.len(),
{
    if s.len() > 0 && is_space_char(s[0]) {
        skip_spaces(s.drop_first())
    } else {
        s
    }
}

/// `s` without its trailing whitespace.
pub open spec fn drop_trailing_spaces(s: Seq<char>) -> Seq<char>
    decreases s.len(),
{
    if s.len() > 0 && is_space_char(s.last()) {
        drop_trailing_spaces(s.drop_last())
    } else {
        s
    }
}

/// `s` without leading and trailing whitespace.
pub open spec fn spec_trim(s: Seq<char>) -> Seq<char> {
    drop_trailing_spaces(skip_spaces(s))
}

/// `p` is a prefix of `s`.
pub open spec fn spec_starts_with(s: Seq<char>, p: Seq<char>) -> bool {
    p.len() <= s.len() && s.subrange(0, p.len() as int) == p
}

proof fn lemma_skip_spaces_index(s: Seq<char>, i: int)
    requires
        0 <= i <= s.len(),
        forall|k: int| 0 <= k < i ==> is_space_char(s[k]),
        i == s.len() || !is_space_char(s[i]),
    ensures
        skip_spaces(s) == s.subrange(i, s.len() as int),
    decreases i,
{
    if i == 0 {
        assert(s.subrange(0, s.len() as int) =~= s);
    } else {
        lemma_skip_spaces_index(s.drop_first(), i - 1);
        assert(s.drop_first().subrange(i - 1, s.drop_first().len() as int) =~= s.subrange(
            i,
            s.len() as int,
        ));
    }
}

proof fn lemma_drop_trailing_spaces_index(s: Seq<char>, j: int)
    requires
        0 <= j <= s.len(),
        forall|k: int| j <= k < s.len() ==> is_space_char(s[k]),
        j == 0 || !is_space_char(s[j - 1]),
    ensures
        drop_trailing_spaces(s) == s.subrange(0, j),
    decreases s.len() - j,
{
    if j == s.len() {
        assert(s.subrange(0, s.len() as int) =~= s);
    } else {
        lemma_drop_trailing_spaces_index(s.drop_last(), j);
        assert(s.drop_last().subrange(0, j) =~= s.subrange(0, j));
    }
}

/// `s` with leading and trailing whitespace removed.
pub fn trim_str<'a>(s: &'a str) -> (r: &'a str)
    ensures
        r@ == spec_trim(s@),
{
    let n = s.unicode_len();
    let mut a: usize = 0;
    while a < n && is_space(s.get_char(a))
        invariant
            0 <= a <= n,
            n == s@.len(),
            forall|k: int| 0 <= k < a ==> is_space_char(s@[k]),
        decreases n - a,
    {
        a = a + 1;
    }
    proof {
        lemma_skip_spaces_index(s@, a as int);
    }
    let mut b: usize = n;
    while b > a && is_space(s.get_char(b - 1))
        invariant
            a <= b <= n,
            n == s@.len(),
            forall|k: int| b <= k < n ==> is_space_char(s@[k]),
        decreases b,
    {
        b = b - 1;
    }
    let r = s.substring_char(a, b);
    proof {
        let mid = s@.subrange(a as int, s@.len() as int);
        if b == a {
            // everything from `a` on is whitespace, so the trimmed tail is empty
            assert(forall|k: int| 0 <= k < mid.len() ==> is_space_char(mid[k]));
            lemma_drop_trailing_spaces_index(mid, 0);
        } else {
            assert(!is_space_char(s@[b - 1]));
            assert(forall|k: int|
                b - a <= k < mid.len() ==> is_space_char(#[trigger] mid[k]) == is_space_char(
                    s@[k + a],
                ));
            lemma_drop_trailing_spaces_index(mid, b - a);
        }
        assert(mid.subrange(0, b - a) =~= s@.subrange(a as int, b as int));
    }
    r
}

/// Whether `p` is a prefix of `s`.
pub fn str_starts_with(s: &str, p: &str) -> (r: bool)
    ensures
        r == spec_starts_with(s@, p@),
{
    let n = s.unicode_len();
    let m = p.unicode_len();
    if m > n {
        return false;
    }
    let mut i: usize = 0;
    while i < m
        invariant
            0 <= i <= m,
            m <= n,
            n == s@.len(),
            m == p@.len(),
            forall|k: int| 0 <= k < i ==> s@[k] == p@[k],
        decreases m - i,
    {
        if s.get_char(i) != p.get_char(i) {
            return false;
        }
        i = i + 1;
    }
    proof {
        assert(s@.subrange(0, p@.len() as int) =~= p@);
    }
    true
}

/// Whether `s` contains the character `c`.
pub fn str_contains_char(s: &str, c: char) -> (r: bool)
    ensures
        r == s@.contains(c),
{
    let n = s.unicode_len();
    let mut i: usize = 0;
    while i < n
        invariant
            0 <= i <= n,
            n == s@.len(),
            forall|k: int| 0 <= k < i ==> s@[k] != c,
        decreases n - i,
    {
        if s.get_char(i) == c {
            return true;
        }
        i = i + 1;
    }
    false
}

/// Whether the character sequences of `a` and `b` are equal.
pub fn str_eq(a: &str, b: &str) -> (r: bool)
    ensures
        r == (a@ == b@),
{
    let n = a.unicode_len();
    let m = b.unicode_len();
    if n != m {
        return false;
    }
    let mut i: usize = 0;
    while i < n
        invariant
            0 <= i <= n,
            n == a@.len(),
            n == b@.len(),
            forall|k: int| 0 <= k < i ==> a@[k] == b@[k],
        decreases n - i,
    {
        if a.get_char(i) != b.get_char(i) {
            return false;
        }
        i = i + 1;
    }
    proof {
        assert(a@ =~= b@);
    }
    true
}

/// ASCII upper-case letters mapped to lower case; all other characters kept.
pub open spec fn lower_char(c: char) -> char {
    if 0x41 <= c as u32 && c as u32 <= 0x5A {
        ((c as u8) + 0x20) as char
    } else {
        c
    }
}

/// `s` with each ASCII upper-case letter mapped to lower case.
pub open spec fn lower_seq(s: Seq<char>) -> Seq<char> {
    s.map_values(|c: char| lower_char(c))
}

/// Whether `a` and `b` are equal up to ASCII case.
pub fn str_eq_ignore_ascii_case(a: &str, b: &str) -> (r: bool)
    ensures
        r == (lower_seq(a@) == lower_seq(b@)),
{
    let n = a.unicode_len();
    let m = b.unicode_len();
    if n != m {
        assert(lower_seq(a@).len() != lower_seq(b@).len());
        return false;
    }
    let mut i: usize = 0;
    while i < n
        invariant
            0 <= i <= n,
            n == a@.len(),
            n == b@.len(),
            forall|k: int| 0 <= k < i ==> lower_char(a@[k]) == lower_char(b@[k]),
        decreases n - i,
    {
        let ca = a.get_char(i);
        let cb = b.get_char(i);
        let la = if 0x41 <= ca as u32 && ca as u32 <= 0x5A {
            ((ca as u8) + 0x20) as char
        } else {
            ca
        };
        let lb = if 0x41 <= cb as u32 && cb as u32 <= 0x5A {
            ((cb as u8) + 0x20) as char
        } else {
            cb
        };
        if la != lb {
            assert(lower_seq(a@)[i as int] != lower_seq(b@)[i as int]);
            return false;
        }
        i = i + 1;
    }
    proof {
        assert(lower_seq(a@) =~= lower_seq(b@));
    }
    true
}

/// `w` occurs in `s` as a whole whitespace-separated word starting at `i`.
pub open spec fn is_word_at(s: Seq<char>, w: Seq<char>, i: int) -> bool {
    &&& w.len() > 0
    &&& 0 <= i
    &&& i + w.len() <= s.len()
    &&& s.subrange(i, i + w.len()) == w
    &&& (i == 0 || is_space_char(s[i - 1]))
    &&& (i + w.len() == s.len() || is_space_char(s[i + w.len()]))
    &&& forall|k: int| 0 <= k < w.len() ==> !is_space_char(w[k])
}

/// `w` occurs in `s` as a whole whitespace-separated word.
pub open spec fn has_word(s: Seq<char>, w: Seq<char>) -> bool {
    exists|i: int| is_word_at(s, w, i)
}

/// Whether `w` occurs in `s` as a whole whitespace-separated word.
pub fn contains_word(s: &str, w: &str) -> (r: bool)
    ensures
        r == has_word(s@, w@),
{
    let n = s.unicode_len();
    let m = w.unicode_len();
    if m == 0 || m > n {
        return false;
    }
    let mut k: usize = 0;
    while k < m
        invariant
            0 <= k <= m,
            m == w@.len(),
            forall|j: int| 0 <= j < k ==> !is_space_char(w@[j]),
        decreases m - k,
    {
        if is_space(w.get_char(k)) {
            return false;
        }
        k = k + 1;
    }
    let mut i: usize = 0;
    while i <= n - m
        invariant
            0 <= i,
            i <= n - m + 1,
            1 <= m <= n,
            n == s@.len(),
            m == w@.len(),
            forall|j: int| 0 <= j < w@.len() ==> !is_space_char(w@[j]),
            forall|j: int| 0 <= j < i ==> !is_word_at(s@, w@, j),
        decreases n - i,
    {
        let left_ok = i == 0 || is_space(s.get_char(i - 1));
        let right_ok = i + m == n || is_space(s.get_char(i + m));
        if left_ok && right_ok {
            let mut q: usize = 0;
            let mut matched = true;
            while q < m && matched
                invariant
                    0 <= q <= m,
                    i + m <= n,
                    n == s@.len(),
                    m == w@.len(),
                    matched ==> forall|j: int| 0 <= j < q ==> s@[i + j] == w@[j],
                    !matched ==> exists|j: int| 0 <= j < w@.len() && s@[i + j] != w@[j],
                decreases m - q + (if matched {
                    1int
                } else {
                    0int
                }),
            {
                if s.get_char(i + q) != w.get_char(q) {
                    matched = false;
                } else {
                    q = q + 1;
                }
            }
            if matched {
                proof {
                    assert(s@.subrange(i as int, i + w@.len()) =~= w@);
                    assert(is_word_at(s@, w@, i as int));
                }
                return true;
            }
            proof {
                let j = choose|j: int| 0 <= j < w@.len() && s@[i + j] != w@[j];
                assert(s@.subrange(i as int, i + w@.len())[j] == s@[i + j]);
                assert(!is_word_at(s@, w@, i as int));
            }
        } else {
            proof {
                assert(!is_word_at(s@, w@, i as int));
            }
        }
        i = i + 1;
    }
    proof {
        assert(forall|j: int| j >= i ==> !is_word_at(s@, w@, j));
    }
    false
}

/// The longest whitespace-free prefix of `s`.
pub open spec fn take_word(s: Seq<char>) -> Seq<char>
    decreases s.len(),
{
    if s.len() > 0 && !is_space_char(s[0]) {
        seq![s[0]] + take_word(s.drop_first())
    } else {
        Seq::empty()
    }
}

/// The first whitespace-separated word of `s`, or empty if there is none.
pub open spec fn first_word(s: Seq<char>) -> Seq<char> {
    take_word(skip_spaces(s))
}

proof fn lemma_take_word_index(s: Seq<char>, j: int)
    requires
        0 <= j <= s.len(),
        forall|k: int| 0 <= k < j ==> !is_space_char(s[k]),
        j == s.len() || is_space_char(s[j]),
    ensures
        take_word(s) == s.subrange(0, j),
    decreases j,
{
    if j == 0 {
        assert(s.subrange(0, 0) =~= Seq::<char>::empty());
    } else {
        lemma_take_word_index(s.drop_first(), j - 1);
        assert(seq![s[0]] + s.drop_first().subrange(0, j - 1) =~= s.subrange(0, j));
    }
}

/// The first whitespace-separated word of `s`, or the empty string.
pub fn first_word_str<'a>(s: &'a str) -> (r: &'a str)
    ensures
        r@ == first_word(s@),
{
    let n = s.unicode_len();
    let mut a: usize = 0;
    while a < n && is_space(s.get_char(a))
        invariant
            0 <= a <= n,
            n == s@.len(),
            forall|k: int| 0 <= k < a ==> is_space_char(s@[k]),
        decreases n - a,
    {
        a = a + 1;
    }
    proof {
        lemma_skip_spaces_index(s@, a as int);
    }
    let mut b: usize = a;
    while b < n && !is_space(s.get_char(b))
        invariant
            a <= b <= n,
            n == s@.len(),
            forall|k: int| a <= k < b ==> !is_space_char(s@[k]),
        decreases n - b,
    {
        b = b + 1;
    }
    let r = s.substring_char(a, b);
    proof {
        let tail = s@.subrange(a as int, s@.len() as int);
        assert(forall|k: int|
            0 <= k < tail.len() ==> is_space_char(#[trigger] tail[k]) == is_space_char(s@[k + a]));
        lemma_take_word_index(tail, b - a);
        assert(tail.subrange(0, b - a) =~= s@.subrange(a as int, b as int));
    }
    r
}

/// The decimal digit character for `d`.
pub open spec fn spec_digit_char(d: nat) -> char {
    if d == 0 {
        '0'
    } else if d == 1 {
        '1'
    } else if d == 2 {
        '2'
    } else if d == 3 {
        '3'
    } else if d == 4 {
        '4'
    } else if d == 5 {
        '5'
    } else if d == 6 {
        '6'
    } else if d == 7 {
        '7'
    } else if d == 8 {
        '8'
    } else {
        '9'
    }
}

/// The decimal rendering of `n`, most significant digit first.
pub open spec fn spec_digits(n: nat) -> Seq<char>
    decreases n,
{
    if n < 10 {
        seq![spec_digit_char(n)]
    } else {
        spec_digits(n / 10).push(spec_digit_char(n % 10))
    }
}

fn digit_str(d: usize) -> (r: &'static str)
    requires
        d < 10,
    ensures
        r@ == seq![spec_digit_char(d as nat)],
{
    if d == 0 {
        let r = "0";
        proof {
            reveal_strlit("0");
            assert(r@ =~= seq![spec_digit_char(0)]);
        }
        r
    } else if d == 1 {
        let r = "1";
        proof {
            reveal_strlit("1");
            assert(r@ =~= seq![spec_digit_char(1)]);
        }
        r
    } else if d == 2 {
        let r = "2";
        proof {
            reveal_strlit("2");
            assert(r@ =~= seq![spec_digit_char(2)]);
        }
        r
    } else if d == 3 {
        let r = "3";
        proof {
            reveal_strlit("3");
            assert(r@ =~= seq![spec_digit_char(3)]);
        }
        r
    } else if d == 4 {
        let r = "4";
        proof {
            reveal_strlit("4");
            assert(r@ =~= seq![spec_digit_char(4)]);
        }
        r
    } else if d == 5 {
        let r = "5";
        proof {
            reveal_strlit("5");
            assert(r@ =~= seq![spec_digit_char(5)]);
        }
        r
    } else if d == 6 {
        let r = "6";
        proof {
            reveal_strlit("6");
            assert(r@ =~= seq![spec_digit_char(6)]);
        }
        r
    } else if d == 7 {
        let r = "7";
        proof {
            reveal_strlit("7");
            assert(r@ =~= seq![spec_digit_char(7)]);
        }
        r
    } else if d == 8 {
        let r = "8";
        proof {
            reveal_strlit("8");
            assert(r@ =~= seq![spec_digit_char(8)]);
        }
        r
    } else {
        let r = "9";
        proof {
            reveal_strlit("9");
            assert(r@ =~= seq![spec_digit_char(9)]);
        }
        r
    }
}

/// `n` rendered in decimal.
pub fn usize_to_string(n: usize) -> (r: String)
    ensures
        r@ == spec_digits(n as nat),
    decreases n,
{
    if n < 10 {
        digit_str(n).to_owned()
    } else {
        let mut s = usize_to_string(n / 10);
        s.append(digit_str(n % 10));
        proof {
            assert(s@ =~= spec_digits(n as nat));
        }
        s
    }
}

} // verus!
