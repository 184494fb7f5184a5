//! Character-level text utilities: substring containment, splitting on
//! commas, locating the last `.` of a name, decimal formatting, and the
//! two pieces of Unicode behaviour taken from the standard library (case
//! folding and whitespace trimming).

use vstd::prelude::*;
use vstd::string::StrSliceExecFns;
use vstd::string::StringExecFns;

verus! {

/// The character sequence `str::to_lowercase` returns for a string with
/// this character sequence.  The result depends on the characters alone.
pub uninterp spec fn lower_of(s: Seq<char>) -> Seq<char>;

/// The character sequence `str::trim` returns for a string with this
/// character sequence.  The result depends on the characters alone.
pub uninterp spec fn trim_of(s: Seq<char>) -> Seq<char>;

/// Relies on `str::to_lowercase`: the returned string is the lowercase
/// equivalent of the argument, a function of its characters alone.
#[verifier::external_body]
pub(crate) fn lower_str(s: &str) -> (r: String)
    ensures
        r@ == lower_of(s@),
{
    s.to_lowercase()
}

/// Relies on `str::trim`: the returned slice is the argument with leading
/// and trailing whitespace removed, a function of its characters alone.
#[verifier::external_body]
pub(crate) fn trim_str(s: &str) -> (r: &str)
    ensures
        r@ == trim_of(s@),
{
    s.trim()
}

/// The characters of `s`, one by one.
pub fn chars_of(s: &str) -> (r: Vec<char>)
    ensures
        r@ == s@,
{
    let n: usize = s.unicode_len();
    let mut r: Vec<char> = Vec::new();
    let mut i: usize = 0;
    while i < n
        invariant
            n == s@.len(),
            i <= n,
            r@ == s@.take(i as int),
        decreases n - i,
    {
        let c = s.get_char(i);
        r.push(c);
        proof {
            assert(s@.take(i + 1 as int) =~= s@.take(i as int).push(s@[i as int]));
        }
        i += 1;
    }
    proof {
        assert(s@.take(n as int) =~= s@);
    }
    r
}

/// `needle` occurs contiguously somewhere inside `haystack`.
pub open spec fn contains_seq(haystack: Seq<char>, needle: Seq<char>) -> bool {
    exists|i: int|
        0 <= i && i + needle.len() <= haystack.len() && #[trigger] haystack.subrange(
            i,
            i + needle.len() as int,
        ) == needle
}

/// `needle` stands at position `i` of `haystack`.
fn occurs_at(haystack: &Vec<char>, needle: &Vec<char>, i: usize) -> (r: bool)
    requires
        i + needle@.len() <= haystack@.len(),
    ensures
        r == (haystack@.subrange(i as int, i as int + needle@.len() as int) == needle@),
{
    let hn: usize = haystack.len();
    let nn: usize = needle.len();
    let mut j: usize = 0;
    while j < nn
        invariant
            hn == haystack@.len(),
            nn == needle@.len(),
            i + nn <= hn,
            j <= nn,
            forall|k: int| 0 <= k < j ==> haystack@[i + k] == needle@[k],
        decreases nn - j,
    {
        if haystack[i + j] != needle[j] {
            proof {
                assert(haystack@.subrange(i as int, i as int + needle@.len() as int)[j as int]
                    == haystack@[i + j]);
            }
            return false;
        }
        j += 1;
    }
    proof {
        assert(haystack@.subrange(i as int, i as int + needle@.len() as int) =~= needle@);
    }
    true
}

/// Substring containment over character vectors.
pub fn contains_chars(haystack: &Vec<char>, needle: &Vec<char>) -> (r: bool)
    ensures
        r == contains_seq(haystack@, needle@),
{
    if needle.len() > haystack.len() {
        return false;
    }
    let last: usize = haystack.len() - needle.len();
    let mut i: usize = 0;
    loop
        invariant
            needle@.len() <= haystack@.len(),
            last == haystack@.len() - needle@.len(),
            i <= last,
            forall|k: int|
                0 <= k < i ==> #[trigger] haystack@.subrange(k, k + needle@.len() as int)
                    != needle@,
        decreases last - i,
    {
        if occurs_at(haystack, needle, i) {
            proof {
                assert(0 <= i as int && i as int + needle@.len() <= haystack@.len()
                    && haystack@.subrange(i as int, i as int + needle@.len() as int) == needle@);
            }
            return true;
        }
        if i == last {
            return false;
        }
        i += 1;
    }
}

/// The position of the first comma of `s`, or `s.len()` when it has none.
pub open spec fn first_comma(s: Seq<char>) -> int
    decreases s.len(),
{
    if s.len() == 0 {
        0
    } else if s[0] == ',' {
        0
    } else {
        1 + first_comma(s.skip(1))
    }
}

/// `first_comma` names the position of the first comma: it lies in the
/// sequence, it holds a comma unless it is the length, and nothing before
/// it is a comma.
pub proof fn lemma_first_comma(s: Seq<char>)
    ensures
        0 <= first_comma(s) <= s.len(),
        first_comma(s) < s.len() ==> s[first_comma(s)] == ',',
        forall|j: int| 0 <= j < first_comma(s) ==> s[j] != ',',
    decreases s.len(),
{
    if s.len() == 0 {
    } else if s[0] == ',' {
    } else {
        lemma_first_comma(s.skip(1));
        assert forall|j: int| 0 <= j < first_comma(s) implies s[j] != ',' by {
            if j > 0 {
                assert(s.skip(1)[j - 1] == s[j]);
            }
        }
    }
}

/// The pieces of `s` between its commas, in order; a sequence with no
/// comma is one piece, so the empty sequence splits into one empty piece.
pub open spec fn split_commas(s: Seq<char>) -> Seq<Seq<char>>
    decreases s.len(),
    via split_commas_decreases
{
    let i = first_comma(s);
    if i == s.len() {
        seq![s]
    } else {
        seq![s.subrange(0, i)] + split_commas(s.skip(i + 1))
    }
}

#[via_fn]
proof fn split_commas_decreases(s: Seq<char>) {
    lemma_first_comma(s);
}

/// The position of the first comma of `s`, computed.
fn find_comma(s: &Vec<char>) -> (r: usize)
    ensures
        r as int == first_comma(s@),
{
    let mut i: usize = 0;
    while i < s.len()
        invariant
            i <= s@.len(),
            forall|j: int| 0 <= j < i ==> s@[j] != ',',
        decreases s@.len() - i,
    {
        if s[i] == ',' {
            proof {
                lemma_first_comma(s@);
                if (i as int) < first_comma(s@) {
                    assert(s@[i as int] != ',');
                }
                if first_comma(s@) < i as int {
                    assert(s@[first_comma(s@)] != ',');
                }
            }
            return i;
        }
        i += 1;
    }
    proof {
        lemma_first_comma(s@);
        if first_comma(s@) < s@.len() {
            assert(s@[first_comma(s@)] != ',');
        }
    }
    i
}

/// Splits `s` on its commas, keeping every piece, in order.
pub fn split_commas_str(s: &str) -> (r: Vec<String>)
    ensures
        r.deep_view() == split_commas(s@),
    decreases s@.len(),
{
    let cs = chars_of(s);
    let i = find_comma(&cs);
    if i == cs.len() {
        let mut r: Vec<String> = Vec::new();
        r.push(String::from_str(s));
        proof {
            assert(r.deep_view() =~~= split_commas(s@));
        }
        r
    } else {
        proof {
            lemma_first_comma(s@);
        }
        let n: usize = s.unicode_len();
        let head = s.substring_char(0, i);
        let rest = s.substring_char(i + 1, n);
        let tail = split_commas_str(rest);
        let mut r: Vec<String> = Vec::new();
        r.push(String::from_str(head));
        proof {
            assert(r.deep_view() =~~= seq![s@.subrange(0, first_comma(s@))]
                + tail.deep_view().take(0));
        }
        let mut k: usize = 0;
        while k < tail.len()
            invariant
                k <= tail@.len(),
                r@.len() == 1 + k,
                r.deep_view() == seq![s@.subrange(0, first_comma(s@))] + tail.deep_view().take(
                    k as int,
                ),
            decreases tail@.len() - k,
        {
            let piece = tail[k].clone();
            let ghost r0 = r.deep_view();
            r.push(piece);
            proof {
                assert(r.deep_view() =~~= r0.push(tail@[k as int]@));
                assert(tail.deep_view().take(k + 1 as int) =~~= tail.deep_view().take(
                    k as int,
                ).push(tail@[k as int].deep_view()));
                assert(r.deep_view() =~~= seq![s@.subrange(0, first_comma(s@))]
                    + tail.deep_view().take(k + 1 as int));
            }
            k += 1;
        }
        proof {
            lemma_first_comma(s@);
            assert(tail.deep_view().take(tail@.len() as int) =~~= tail.deep_view());
            assert(rest@ == s@.skip(first_comma(s@) + 1));
            assert(r.deep_view() =~~= split_commas(s@));
        }
        r
    }
}

/// The position of the last `.` of `name`, or `-1` when it has none.
pub open spec fn last_dot(name: Seq<char>) -> int
    decreases name.len(),
{
    if name.len() == 0 {
        -1
    } else if name[name.len() - 1] == '.' {
        name.len() - 1
    } else {
        last_dot(name.drop_last())
    }
}

/// `last_dot` names the position of the last dot: it lies in the sequence
/// or is `-1`, it holds a dot when it is a position, and nothing after it
/// is a dot.
pub proof fn lemma_last_dot(name: Seq<char>)
    ensures
        -1 <= last_dot(name) < name.len(),
        last_dot(name) >= 0 ==> name[last_dot(name)] == '.',
        forall|j: int| last_dot(name) < j < name.len() ==> name[j] != '.',
    decreases name.len(),
{
    if name.len() == 0 {
    } else if name[name.len() - 1] == '.' {
    } else {
        lemma_last_dot(name.drop_last());
        assert forall|j: int| last_dot(name) < j < name.len() implies name[j] != '.' by {
            if j < name.len() - 1 {
                assert(name.drop_last()[j] == name[j]);
            }
        }
    }
}

/// `name` holds a `.` somewhere.
pub open spec fn has_dot(name: Seq<char>) -> bool {
    last_dot(name) >= 0
}

/// The suffix of `name`: everything after its last `.`.
pub open spec fn ext_of(name: Seq<char>) -> Seq<char>
    recommends
        has_dot(name),
{
    name.subrange(last_dot(name) + 1, name.len() as int)
}

/// The position of the last dot of `s`, computed: `s.len()` stands for
/// "none".
pub fn find_last_dot(s: &Vec<char>) -> (r: usize)
    ensures
        r as int == if has_dot(s@) {
            last_dot(s@)
        } else {
            s@.len() as int
        },
{
    let mut i: usize = s.len();
    while i > 0
        invariant
            i <= s@.len(),
            forall|j: int| i <= j < s@.len() ==> s@[j] != '.',
        decreases i,
    {
        i -= 1;
        if s[i] == '.' {
            proof {
                lemma_last_dot(s@);
                assert(last_dot(s@) >= i as int) by {
                    if last_dot(s@) < i as int {
                        assert(s@[i as int] != '.');
                    }
                }
                assert(last_dot(s@) <= i as int) by {
                    if last_dot(s@) > i as int {
                        assert(s@[last_dot(s@)] == '.');
                        assert(s@[last_dot(s@)] != '.');
                    }
                }
            }
            return i;
        }
    }
    proof {
        lemma_last_dot(s@);
        assert(!has_dot(s@)) by {
            if last_dot(s@) >= 0 {
                assert(s@[last_dot(s@)] == '.');
                assert(s@[last_dot(s@)] != '.');
            }
        }
    }
    s.len()
}

/// The character of one decimal digit.
pub open spec fn digit_char(d: nat) -> char {
    if d == 0 {
        '0'
    } else if d == 1 {
        '1'
    } else if d == 2 {
        '2'
    } else if d == 3 {
        '3'
    } else if d == 4 {
        '4'
    } else if d == 5 {
        '5'
    } else if d == 6 {
        '6'
    } else if d == 7 {
        '7'
    } else if d == 8 {
        '8'
    } else {
        '9'
    }
}

/// The decimal representation of `n`, most significant digit first.
pub open spec fn dec_rep(n: nat) -> Seq<char>
    decreases n,
{
    if n < 10 {
        seq![digit_char(n)]
    } else {
        dec_rep(n / 10).push(digit_char(n % 10))
    }
}

/// One decimal digit as text.
fn digit_str(d: usize) -> (r: &'static str)
    requires
        d < 10,
    ensures
        r@ == seq![digit_char(d as nat)],
{
    proof {
        reveal_strlit("0");
        reveal_strlit("1");
        reveal_strlit("2");
        reveal_strlit("3");
        reveal_strlit("4");
        reveal_strlit("5");
        reveal_strlit("6");
        reveal_strlit("7");
        reveal_strlit("8");
        reveal_strlit("9");
    }
    if d == 0 {
        "0"
    } else if d == 1 {
        "1"
    } else if d == 2 {
        "2"
    } else if d == 3 {
        "3"
    } else if d == 4 {
        "4"
    } else if d == 5 {
        "5"
    } else if d == 6 {
        "6"
    } else if d == 7 {
        "7"
    } else if d == 8 {
        "8"
    } else {
        "9"
    }
}

/// Writes `n` in decimal.
pub fn dec_string(n: usize) -> (r: String)
    ensures
        r@ == dec_rep(n as nat),
    decreases n,
{
    if n < 10 {
        String::from_str(digit_str(n))
    } else {
        let mut s = dec_string(n / 10);
        s.append(digit_str(n % 10));
        proof {
            assert(s@ =~= dec_rep((n / 10) as nat).push(digit_char((n % 10) as nat)));
        }
        s
    }
}

} // verus!
