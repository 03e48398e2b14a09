//! Character-level scanning helpers: first and last occurrence of a
//! character in a sequence, string equality, and whitespace trimming.

use vstd::prelude::*;

verus! {

/// Index of the first occurrence of `c` in `s`, if any.
pub open spec fn find_from(s: Seq<char>, c: char) -> Option<int>
    decreases s.len(),
{
    if s.len() == 0 {
        None
    } else if s[0] == c {
        Some(0int)
    } else {
        match find_from(s.drop_first(), c) {
            Some(i) => Some(i + 1),
            None => None,
        }
    }
}

/// Index of the last occurrence of `c` in `s`, if any.
pub open spec fn rfind_from(s: Seq<char>, c: char) -> Option<int>
    decreases s.len(),
{
    if s.len() == 0 {
        None
    } else if s[s.len() - 1] == c {
        Some(s.len() - 1)
    } else {
        rfind_from(s.drop_last(), c)
    }
}

/// `find_from` returns the index of the first occurrence: the character
/// there is `c`, everything before it is not, and `None` means `c` does
/// not occur at all.
pub proof fn lemma_find_from(s: Seq<char>, c: char)
    ensures
        match find_from(s, c) {
            Some(i) => 0 <= i < s.len() && s[i] == c && (forall|k: int| 0 <= k < i ==> s[k] != c),
            None => forall|k: int| 0 <= k < s.len() ==> s[k] != c,
        },
    decreases s.len(),
{
    if s.len() > 0 && s[0] != c {
        let rest = s.drop_first();
        lemma_find_from(rest, c);
        assert(forall|k: int| 0 <= k < rest.len() ==> rest[k] == s[k + 1]);
        match find_from(rest, c) {
            Some(i) => {
                assert(find_from(s, c) == Some(i + 1));
                assert(s[i + 1] == rest[i]);
                assert forall|k: int| 0 <= k < i + 1 implies s[k] != c by {
                    if k > 0 {
                        assert(s[k] == rest[k - 1]);
                    }
                }
            },
            None => {
                assert forall|k: int| 0 <= k < s.len() implies s[k] != c by {
                    if k > 0 {
                        assert(s[k] == rest[k - 1]);
                    }
                }
            },
        }
    }
}

/// The first-occurrence index is unique, so any index with the same
/// properties is the one `find_from` returns.
pub proof fn lemma_find_from_is_first(s: Seq<char>, c: char, i: int)
    requires
        0 <= i < s.len(),
        s[i] == c,
        forall|k: int| 0 <= k < i ==> s[k] != c,
    ensures
        find_from(s, c) == Some(i),
{
    lemma_find_from(s, c);
    match find_from(s, c) {
        Some(j) => {
            if j < i {
                assert(s[j] != c);
            }
            if i < j {
                assert(s[i] != c);
            }
        },
        None => {
            assert(s[i] != c);
        },
    }
}

/// The last-occurrence index is unique in the same way.
pub proof fn lemma_rfind_from(s: Seq<char>, c: char)
    ensures
        match rfind_from(s, c) {
            Some(i) => 0 <= i < s.len() && s[i] == c && (forall|k: int|
                i < k < s.len() ==> s[k] != c),
            None => forall|k: int| 0 <= k < s.len() ==> s[k] != c,
        },
    decreases s.len(),
{
    if s.len() > 0 && s[s.len() - 1] != c {
        let rest = s.drop_last();
        lemma_rfind_from(rest, c);
        assert(forall|k: int| 0 <= k < rest.len() ==> rest[k] == s[k]);
        match rfind_from(rest, c) {
            Some(i) => {
                assert(rfind_from(s, c) == Some(i));
                assert(s[i] == rest[i]);
                assert forall|k: int| i < k < s.len() implies s[k] != c by {
                    if k < s.len() - 1 {
                        assert(s[k] == rest[k]);
                    }
                }
            },
            None => {
                assert forall|k: int| 0 <= k < s.len() implies s[k] != c by {
                    if k < s.len() - 1 {
                        assert(s[k] == rest[k]);
                    }
                }
            },
        }
    }
}

pub proof fn lemma_rfind_from_is_last(s: Seq<char>, c: char, i: int)
    requires
        0 <= i < s.len(),
        s[i] == c,
        forall|k: int| i < k < s.len() ==> s[k] != c,
    ensures
        rfind_from(s, c) == Some(i),
{
    lemma_rfind_from(s, c);
    match rfind_from(s, c) {
        Some(j) => {
            if j < i {
                assert(s[i] != c);
            }
            if i < j {
                assert(s[j] != c);
            }
        },
        None => {
            assert(s[i] != c);
        },
    }
}

/// First occurrence of `c` in `s` at or after position `from`, scanning
/// by character index.
pub fn find_char(s: &str, from: usize, c: char) -> (r: Option<usize>)
    requires
        from <= s@.len(),
    ensures
        match r {
            Some(j) => from <= j < s@.len() && find_from(s@.skip(from as int), c) == Some(
                j - from,
            ),
            None => find_from(s@.skip(from as int), c) is None,
        },
{
    let len = s.unicode_len();
    let mut i = from;
    while i < len
        invariant
            from <= i <= len,
            len == s@.len(),
            forall|k: int| from <= k < i ==> s@[k] != c,
        decreases len - i,
    {
        if s.get_char(i) == c {
            proof {
                let rest = s@.skip(from as int);
                assert(rest[i - from] == s@[i as int]);
                assert forall|k: int| 0 <= k < i - from implies rest[k] != c by {
                    assert(rest[k] == s@[k + from]);
                }
                lemma_find_from_is_first(rest, c, i - from);
            }
            return Some(i);
        }
        i = i + 1;
    }
    proof {
        let rest = s@.skip(from as int);
        assert forall|k: int| 0 <= k < rest.len() implies rest[k] != c by {
            assert(rest[k] == s@[k + from]);
        }
        lemma_find_from(rest, c);
        if find_from(rest, c) is Some {
            let j = find_from(rest, c)->Some_0;
            assert(rest[j] != c);
        }
    }
    None
}

/// Last occurrence of `c` in `s`, scanning backwards by character index.
pub fn rfind_char(s: &str, c: char) -> (r: Option<usize>)
    ensures
        match r {
            Some(i) => i < s@.len() && rfind_from(s@, c) == Some(i as int),
            None => rfind_from(s@, c) is None,
        },
{
    let len = s.unicode_len();
    let mut i = len;
    while i > 0
        invariant
            i <= len,
            len == s@.len(),
            forall|k: int| i <= k < len ==> s@[k] != c,
        decreases i,
    {
        i = i - 1;
        if s.get_char(i) == c {
            proof {
                lemma_rfind_from_is_last(s@, c, i as int);
            }
            return Some(i);
        }
    }
    proof {
        lemma_rfind_from(s@, c);
        if rfind_from(s@, c) is Some {
            let j = rfind_from(s@, c)->Some_0;
            assert(s@[j] != c);
        }
    }
    None
}

/// ASCII whitespace: the characters stripped from a resolved value
/// before it is spliced into the output.
pub open spec fn is_space(c: char) -> bool {
    c == ' ' || c == '\t' || c == '\n' || c == '\r' || c == '\u{c}'
}

/// `s` without its leading whitespace.
pub open spec fn trim_start(s: Seq<char>) -> Seq<char>
    decreases s.len(),
{
    if s.len() > 0 && is_space(s[0]) {
        trim_start(s.drop_first())
    } else {
        s
    }
}

/// `s` without its trailing whitespace.
pub open spec fn trim_end(s: Seq<char>) -> Seq<char>
    decreases s.len(),
{
    if s.len() > 0 && is_space(s[s.len() - 1]) {
        trim_end(s.drop_last())
    } else {
        s
    }
}

/// `s` without leading and trailing whitespace.
pub open spec fn trimmed(s: Seq<char>) -> Seq<char> {
    trim_end(trim_start(s))
}

/// Dropping a fully-whitespace prefix is what `trim_start` does.
proof fn lemma_trim_start_skip(s: Seq<char>, a: int)
    requires
        0 <= a <= s.len(),
        forall|k: int| 0 <= k < a ==> is_space(s[k]),
        a < s.len() ==> !is_space(s[a]),
    ensures
        trim_start(s) == s.skip(a),
    decreases a,
{
    if a == 0 {
        assert(s.skip(0) =~= s);
    } else {
        let rest = s.drop_first();
        assert(forall|k: int| 0 <= k < rest.len() ==> rest[k] == s[k + 1]);
        lemma_trim_start_skip(rest, a - 1);
        assert(rest.skip(a - 1) =~= s.skip(a));
    }
}

/// Dropping a fully-whitespace suffix is what `trim_end` does.
proof fn lemma_trim_end_take(s: Seq<char>, b: int)
    requires
        0 <= b <= s.len(),
        forall|k: int| b <= k < s.len() ==> is_space(s[k]),
        b > 0 ==> !is_space(s[b - 1]),
    ensures
        trim_end(s) == s.take(b),
    decreases s.len(),
{
    if b == s.len() {
        if b > 0 {
            assert(s.take(b) =~= s);
        } else {
            assert(s.take(0) =~= s);
        }
    } else {
        let rest = s.drop_last();
        assert(forall|k: int| 0 <= k < rest.len() ==> rest[k] == s[k]);
        lemma_trim_end_take(rest, b);
        assert(rest.take(b) =~= s.take(b));
    }
}

/// Whether `c` is ASCII whitespace.
pub fn space_char(c: char) -> (r: bool)
    ensures
        r == is_space(c),
{
    c == ' ' || c == '\t' || c == '\n' || c == '\r' || c == '\u{c}'
}

/// Index of the first character of `s` that is not whitespace, or the
/// length of `s` when every character is.
fn leading_spaces(s: &str) -> (a: usize)
    ensures
        a <= s@.len(),
        forall|k: int| 0 <= k < a ==> is_space(s@[k]),
        a < s@.len() ==> !is_space(s@[a as int]),
{
    let len = s.unicode_len();
    let mut a: usize = 0;
    while a < len
        invariant
            a <= len,
            len == s@.len(),
            forall|k: int| 0 <= k < a ==> is_space(s@[k]),
        decreases len - a,
    {
        if !space_char(s.get_char(a)) {
            return a;
        }
        a = a + 1;
    }
    a
}

/// Index just past the last character of `s` that is not whitespace, or
/// zero when every character is.
fn trailing_spaces(s: &str) -> (b: usize)
    ensures
        b <= s@.len(),
        forall|k: int| b <= k < s@.len() ==> is_space(s@[k]),
        b > 0 ==> !is_space(s@[b - 1]),
{
    let len = s.unicode_len();
    let mut b = len;
    while b > 0
        invariant
            b <= len,
            len == s@.len(),
            forall|k: int| b <= k < len ==> is_space(s@[k]),
        decreases b,
    {
        if !space_char(s.get_char(b - 1)) {
            return b;
        }
        b = b - 1;
    }
    b
}

/// A copy of `s` with leading and trailing whitespace removed.
pub fn trim(s: &str) -> (r: String)
    ensures
        r@ == trimmed(s@),
{
    let a = leading_spaces(s);
    let len = s.unicode_len();
    if a == len {
        proof {
            lemma_trim_start_skip(s@, a as int);
            assert(s@.skip(a as int) =~= Seq::<char>::empty());
        }
        return String::new();
    }
    let b = trailing_spaces(s);
    proof {
        assert(!is_space(s@[a as int]));
        assert(b > a);
        lemma_trim_start_skip(s@, a as int);
        let tail = s@.skip(a as int);
        assert(forall|k: int| 0 <= k < tail.len() ==> tail[k] == s@[k + a]);
        lemma_trim_end_take(tail, b - a);
        assert(tail.take(b - a) =~= s@.subrange(a as int, b as int));
    }
    s.substring_char(a, b).to_owned()
}

/// How many times `c` occurs in `s`.
pub open spec fn count_char(s: Seq<char>, c: char) -> nat
    decreases s.len(),
{
    if s.len() == 0 {
        0
    } else {
        count_char(s.drop_last(), c) + (if s[s.len() - 1] == c {
            1nat
        } else {
            0nat
        })
    }
}

/// Number of occurrences of `c` among the first `upto` characters of `s`.
pub fn count_occurrences(s: &str, upto: usize, c: char) -> (r: usize)
    requires
        upto <= s@.len(),
    ensures
        r as nat == count_char(s@.take(upto as int), c),
        r <= upto,
{
    let mut i: usize = 0;
    let mut r: usize = 0;
    while i < upto
        invariant
            i <= upto,
            upto <= s@.len(),
            r <= i,
            r as nat == count_char(s@.take(i as int), c),
        decreases upto - i,
    {
        proof {
            let next = s@.take(i + 1);
            assert(next.drop_last() =~= s@.take(i as int));
            assert(next[next.len() - 1] == s@[i as int]);
        }
        if s.get_char(i) == c {
            r = r + 1;
        }
        i = i + 1;
    }
    r
}

/// Character-for-character string equality.
pub fn str_eq(a: &str, b: &str) -> (r: bool)
    ensures
        r == (a@ == b@),
{
    let alen = a.unicode_len();
    let blen = b.unicode_len();
    if alen != blen {
        return false;
    }
    let mut i: usize = 0;
    while i < alen
        invariant
            i <= alen,
            alen == a@.len(),
            alen == b@.len(),
            forall|k: int| 0 <= k < i ==> a@[k] == b@[k],
        decreases alen - i,
    {
        if a.get_char(i) != b.get_char(i) {
            return false;
        }
        i = i + 1;
    }
    proof {
        assert(a@ =~= b@);
    }
    true
}

} // verus!
