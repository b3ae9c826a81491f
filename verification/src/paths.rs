//! The path model.
//!
//! A path is a plain string of characters.  The file name of a path is the
//! part after the last `/` (the whole path when there is no `/`), the
//! extension is the part of the file name after its last `.` (empty when
//! there is no `.`), and the stem is the file name without its final
//! extension.  Joining appends a `/` between the two parts unless the left
//! part is empty or already ends in `/`.

use vstd::prelude::*;
use vstd::string::StrSliceExecFns;
use vstd::string::StringExecFns;

verus! {

/// Index of the last occurrence of `c` in `s`, or -1 when `c` does not occur.
pub open spec fn last_index_of(s: Seq<char>, c: char) -> int
    decreases s.len(),
{
    if s.len() == 0 {
        -1
    } else if s[s.len() - 1] == c {
        s.len() - 1
    } else {
        last_index_of(s.drop_last(), c)
    }
}

/// What `last_index_of` returns: the largest index holding `c`, or -1 when
/// no index holds `c`.
pub proof fn lemma_last_index_of(s: Seq<char>, c: char)
    ensures
        -1 <= last_index_of(s, c) < s.len(),
        last_index_of(s, c) >= 0 ==> s[last_index_of(s, c)] == c,
        forall|j: int| last_index_of(s, c) < j < s.len() ==> s[j] != c,
    decreases s.len(),
{
    if s.len() > 0 && s[s.len() - 1] != c {
        lemma_last_index_of(s.drop_last(), c);
        assert(forall|j: int| 0 <= j < s.len() - 1 ==> s.drop_last()[j] == s[j]);
    }
}

/// The file-name part of a path: everything after the last `/`.
pub open spec fn file_name_of(p: Seq<char>) -> Seq<char> {
    p.subrange(last_index_of(p, '/') + 1, p.len() as int)
}

/// The directory prefix of a path: everything up to and including the last
/// `/`; empty when the path has no `/`.
pub open spec fn dir_prefix_of(p: Seq<char>) -> Seq<char> {
    p.subrange(0, last_index_of(p, '/') + 1)
}

/// The extension of a file name: everything after the last `.`, empty when
/// there is no `.`.
pub open spec fn extension_of(name: Seq<char>) -> Seq<char> {
    if last_index_of(name, '.') == -1 {
        Seq::empty()
    } else {
        name.subrange(last_index_of(name, '.') + 1, name.len() as int)
    }
}

/// The stem of a file name: the file name without its final extension.
pub open spec fn stem_of(name: Seq<char>) -> Seq<char> {
    if last_index_of(name, '.') == -1 {
        name
    } else {
        name.subrange(0, last_index_of(name, '.'))
    }
}

/// Joining two paths: a `/` is put between them unless the left part is
/// empty or already ends in `/`.
pub open spec fn join_paths(a: Seq<char>, b: Seq<char>) -> Seq<char> {
    if a.len() == 0 {
        b
    } else if a[a.len() - 1] == '/' {
        a + b
    } else {
        a + seq!['/'] + b
    }
}

/// A path splits into its directory prefix followed by its file name.
pub proof fn lemma_path_split(p: Seq<char>)
    ensures
        p == dir_prefix_of(p) + file_name_of(p),
{
    lemma_last_index_of(p, '/');
    assert(p =~= dir_prefix_of(p) + file_name_of(p));
}

/// A file name with a `.` splits into its stem, the `.`, and its extension;
/// one without a `.` is its own stem and has the empty extension.
pub proof fn lemma_name_split(name: Seq<char>)
    ensures
        last_index_of(name, '.') >= 0 ==> name == stem_of(name) + seq!['.'] + extension_of(name),
        last_index_of(name, '.') == -1 ==> stem_of(name) == name && extension_of(name)
            == Seq::<char>::empty(),
{
    lemma_last_index_of(name, '.');
    if last_index_of(name, '.') >= 0 {
        assert(name =~= stem_of(name) + seq!['.'] + extension_of(name));
    }
}

/// The character for one decimal digit.
pub open spec fn digit_char(d: nat) -> char {
    if d == 0 {
        '0'
    } else if d == 1 {
        '1'
    } else if d == 2 {
        '2'
    } else if d == 3 {
        '3'
    } else if d == 4 {
        '4'
    } else if d == 5 {
        '5'
    } else if d == 6 {
        '6'
    } else if d == 7 {
        '7'
    } else if d == 8 {
        '8'
    } else {
        '9'
    }
}

/// The decimal rendering of `n`, most significant digit first.
pub open spec fn dec_rep(n: nat) -> Seq<char>
    decreases n,
    via dec_rep_decreases
{
    if n < 10 {
        seq![digit_char(n)]
    } else {
        dec_rep(n / 10).push(digit_char(n % 10))
    }
}

#[via_fn]
proof fn dec_rep_decreases(n: nat) {
    if n >= 10 {
        vstd::arithmetic::div_mod::lemma_div_is_strictly_smaller(n as int, 10);
    }
}

/// A decimal rendering holds at least one digit.
pub proof fn lemma_dec_rep_len(n: nat)
    ensures
        dec_rep(n).len() >= 1,
    decreases n,
{
    if n >= 10 {
        vstd::arithmetic::div_mod::lemma_div_is_strictly_smaller(n as int, 10);
        lemma_dec_rep_len(n / 10);
    }
}

/// Distinct digits have distinct characters.
proof fn lemma_digit_char_injective(a: nat, b: nat)
    requires
        a < 10,
        b < 10,
        digit_char(a) == digit_char(b),
    ensures
        a == b,
{
    assert(a == b) by {
        assert(digit_char(a) == digit_char(b));
        reveal(digit_char);
    }
}

/// Two numbers with the same decimal rendering are equal.
pub proof fn lemma_dec_rep_injective(a: nat, b: nat)
    requires
        dec_rep(a) == dec_rep(b),
    ensures
        a == b,
    decreases a,
{
    lemma_dec_rep_len(a);
    lemma_dec_rep_len(b);
    if a < 10 && b < 10 {
        assert(dec_rep(a)[0] == digit_char(a)) by {
            assert(dec_rep(a) =~= Seq::empty().push(digit_char(a)));
        }
        assert(dec_rep(b)[0] == digit_char(b)) by {
            assert(dec_rep(b) =~= Seq::empty().push(digit_char(b)));
        }
        lemma_digit_char_injective(a, b);
    } else if a < 10 {
        vstd::arithmetic::div_mod::lemma_div_is_strictly_smaller(b as int, 10);
        lemma_dec_rep_len(b / 10);
        assert(dec_rep(b).len() >= 2);
        assert(dec_rep(a).len() == 1);
    } else if b < 10 {
        vstd::arithmetic::div_mod::lemma_div_is_strictly_smaller(a as int, 10);
        lemma_dec_rep_len(a / 10);
        assert(dec_rep(a).len() >= 2);
        assert(dec_rep(b).len() == 1);
    } else {
        vstd::arithmetic::div_mod::lemma_div_is_strictly_smaller(a as int, 10);
        let pa = dec_rep(a / 10);
        let pb = dec_rep(b / 10);
        let sa = pa.push(digit_char(a % 10));
        let sb = pb.push(digit_char(b % 10));
        assert(sa == sb);
        assert(pa.len() == pb.len());
        assert(sa[pa.len() as int] == digit_char(a % 10));
        assert(sb[pb.len() as int] == digit_char(b % 10));
        lemma_digit_char_injective(a % 10, b % 10);
        assert(pa =~= pb) by {
            assert forall|i: int| 0 <= i < pa.len() implies pa[i] == pb[i] by {
                assert(sa[i] == pa[i]);
                assert(sb[i] == pb[i]);
            }
        }
        lemma_dec_rep_injective(a / 10, b / 10);
        vstd::arithmetic::div_mod::lemma_fundamental_div_mod(a as int, 10);
        vstd::arithmetic::div_mod::lemma_fundamental_div_mod(b as int, 10);
    }
}

/// `k` zeros.
pub open spec fn zeros(k: int) -> Seq<char>
    decreases k,
{
    if k <= 0 {
        Seq::empty()
    } else {
        zeros(k - 1).push('0')
    }
}

/// The decimal rendering of `n`, left-padded with zeros to at least `width`
/// characters.
pub open spec fn padded_dec(n: nat, width: int) -> Seq<char> {
    zeros(width - dec_rep(n).len()) + dec_rep(n)
}

/// The character for one decimal digit.
fn digit_str(d: u128) -> (r: &'static str)
    requires
        d < 10,
    ensures
        r@ =~= seq![digit_char(d as nat)],
{
    let r: &'static str = if d == 0 {
        "0"
    } else if d == 1 {
        "1"
    } else if d == 2 {
        "2"
    } else if d == 3 {
        "3"
    } else if d == 4 {
        "4"
    } else if d == 5 {
        "5"
    } else if d == 6 {
        "6"
    } else if d == 7 {
        "7"
    } else if d == 8 {
        "8"
    } else {
        "9"
    };
    proof {
        reveal_strlit("0");
        reveal_strlit("1");
        reveal_strlit("2");
        reveal_strlit("3");
        reveal_strlit("4");
        reveal_strlit("5");
        reveal_strlit("6");
        reveal_strlit("7");
        reveal_strlit("8");
        reveal_strlit("9");
    }
    r
}

/// The decimal rendering of `n`.
pub fn dec_string(n: u128) -> (r: String)
    ensures
        r@ == dec_rep(n as nat),
    decreases n,
{
    if n < 10 {
        String::from_str(digit_str(n))
    } else {
        proof {
            vstd::arithmetic::div_mod::lemma_div_is_strictly_smaller(n as int, 10);
        }
        let mut s = dec_string(n / 10);
        s.append(digit_str(n % 10));
        proof {
            assert(s@ =~= dec_rep((n / 10) as nat).push(digit_char((n % 10) as nat)));
        }
        s
    }
}

/// The decimal rendering of `n`, left-padded with zeros to at least `width`
/// characters.
pub fn padded_dec_string(n: u64, width: u64) -> (r: String)
    ensures
        r@ == padded_dec(n as nat, width as int),
{
    let digits = dec_string(n as u128);
    let len = digits.as_str().unicode_len();
    let mut s = String::new();
    let mut k: u64 = 0;
    proof {
        lemma_dec_rep_len(n as nat);
    }
    while len as u64 + k < width
        invariant
            s@ =~= zeros(k as int),
            k == 0 || len as u64 + k <= width,
            len == dec_rep(n as nat).len(),
        decreases width - k - len as u64,
    {
        s.append(digit_str(0));
        k = k + 1;
        proof {
            assert(s@ =~= zeros(k as int));
        }
    }
    s.append(digits.as_str());
    proof {
        assert(zeros(width - dec_rep(n as nat).len()) =~= zeros(k as int));
        assert(s@ =~= padded_dec(n as nat, width as int));
    }
    s
}

/// Position of the last occurrence of `c` in `s`, or `None` when `c` does
/// not occur.
pub fn find_last(s: &str, c: char) -> (r: Option<usize>)
    ensures
        match r {
            Some(i) => last_index_of(s@, c) == i as int,
            None => last_index_of(s@, c) == -1,
        },
{
    proof {
        lemma_last_index_of(s@, c);
    }
    let n = s.unicode_len();
    let mut i = n;
    while i > 0
        invariant
            i <= n,
            n == s@.len(),
            forall|j: int| i <= j < n ==> s@[j] != c,
        decreases i,
    {
        i = i - 1;
        if s.get_char(i) == c {
            proof {
                lemma_last_index_of(s@, c);
                let lio = last_index_of(s@, c);
                if lio > i as int {
                    assert(s@[lio] != c);
                }
            }
            return Some(i);
        }
    }
    None
}

} // verus!
