use vstd::prelude::*;
use vstd::string::StrSliceExecFns;
use vstd::string::StringExecFns;

verus! {

/// Whitespace as it matters for line trimming: blank, tab, carriage return,
/// line feed.
pub open spec fn is_space_char(c: char) -> bool {
    c == ' ' || c == '\t' || c == '\r' || c == '\n'
}

/// `s` with leading whitespace removed.
pub open spec fn trim_front(s: Seq<char>) -> Seq<char>
    decreases s.len(),
{
    if s.len() > 0 && is_space_char(s.first()) {
        trim_front(s.drop_first())
    } else {
        s
    }
}

/// `s` with trailing whitespace removed.
pub open spec fn trim_back(s: Seq<char>) -> Seq<char>
    decreases s.len(),
{
    if s.len() > 0 && is_space_char(s.last()) {
        trim_back(s.drop_last())
    } else {
        s
    }
}

/// `s` with leading and trailing whitespace removed.
pub open spec fn trim_spec(s: Seq<char>) -> Seq<char> {
    trim_back(trim_front(s))
}

pub fn is_space(c: char) -> (r: bool)
    ensures
        r == is_space_char(c),
{
    c == ' ' || c == '\t' || c == '\r' || c == '\n'
}

/// Whether two string slices hold the same characters.
pub fn str_eq(a: &str, b: &str) -> (r: bool)
    ensures
        r == (a@ == b@),
{
    let sa = a.to_owned();
    let sb = b.to_owned();
    sa == sb
}

proof fn lemma_trim_front_skip(s: Seq<char>, k: int)
    requires
        0 <= k <= s.len(),
        forall|i: int| 0 <= i < k ==> is_space_char(s[i]),
        k < s.len() ==> !is_space_char(s[k]),
    ensures
        trim_front(s) == s.skip(k),
    decreases k,
{
    if k == 0 {
        assert(s.skip(0) =~= s);
    } else {
        assert(is_space_char(s.first()));
        lemma_trim_front_skip(s.drop_first(), k - 1);
        assert(s.drop_first().skip(k - 1) =~= s.skip(k));
    }
}

proof fn lemma_trim_back_take(s: Seq<char>, k: int)
    requires
        0 <= k <= s.len(),
        forall|i: int| k <= i < s.len() ==> is_space_char(s[i]),
        k > 0 ==> !is_space_char(s[k - 1]),
    ensures
        trim_back(s) == s.take(k),
    decreases s.len() - k,
{
    if k == s.len() {
        assert(s.take(k) =~= s);
    } else {
        assert(is_space_char(s.last()));
        lemma_trim_back_take(s.drop_last(), k);
        assert(s.drop_last().take(k) =~= s.take(k));
    }
}

/// Remove leading and trailing whitespace.
pub fn trim(s: &str) -> (r: String)
    ensures
        r@ == trim_spec(s@),
{
    let len = s.unicode_len();
    let mut start: usize = 0;
    while start < len && is_space(s.get_char(start))
        invariant
            0 <= start <= len,
            len == s@.len(),
            forall|i: int| 0 <= i < start ==> is_space_char(s@[i]),
        decreases len - start,
    {
        start += 1;
    }
    proof {
        lemma_trim_front_skip(s@, start as int);
    }
    let mut end: usize = len;
    while end > start && is_space(s.get_char(end - 1))
        invariant
            start <= end <= len,
            len == s@.len(),
            forall|i: int| 0 <= i < start ==> is_space_char(s@[i]),
            start < s@.len() ==> !is_space_char(s@[start as int]),
            forall|i: int| end <= i < len ==> is_space_char(s@[i]),
        decreases end,
    {
        end -= 1;
    }
    proof {
        lemma_trim_back_take(s@.skip(start as int), end - start);
        assert(s@.skip(start as int).take(end - start) =~= s@.subrange(
            start as int,
            end as int,
        ));
    }
    s.substring_char(start, end).to_owned()
}

/// The index of the first occurrence of `c` in `s`, if any.
pub open spec fn find_char_spec(s: Seq<char>, c: char) -> Option<int>
    decreases s.len(),
{
    if s.len() == 0 {
        None
    } else if s.first() == c {
        Some(0)
    } else {
        match find_char_spec(s.drop_first(), c) {
            Some(i) => Some(i + 1),
            None => None,
        }
    }
}

pub proof fn lemma_find_char_spec(s: Seq<char>, c: char)
    ensures
        match find_char_spec(s, c) {
            Some(i) => 0 <= i < s.len() && s[i] == c && forall|j: int| 0 <= j < i ==> s[j] != c,
            None => forall|j: int| 0 <= j < s.len() ==> s[j] != c,
        },
    decreases s.len(),
{
    if s.len() > 0 && s.first() != c {
        lemma_find_char_spec(s.drop_first(), c);
        match find_char_spec(s.drop_first(), c) {
            Some(i) => {
                assert(s[i + 1] == s.drop_first()[i]);
                assert forall|j: int| 0 <= j < i + 1 implies s[j] != c by {
                    if j > 0 {
                        assert(s.drop_first()[j - 1] != c);
                    }
                }
            },
            None => {
                assert forall|j: int| 0 <= j < s.len() implies s[j] != c by {
                    if j > 0 {
                        assert(s.drop_first()[j - 1] != c);
                    }
                }
            },
        }
    }
}

/// The index of the first occurrence of `c` in `s`, if any.
pub fn find_char(s: &str, c: char) -> (r: Option<usize>)
    ensures
        match r {
            Some(i) => find_char_spec(s@, c) == Some(i as int),
            None => find_char_spec(s@, c) is None,
        },
{
    proof {
        lemma_find_char_spec(s@, c);
    }
    let len = s.unicode_len();
    let mut i: usize = 0;
    while i < len
        invariant
            0 <= i <= len,
            len == s@.len(),
            forall|j: int| 0 <= j < i ==> s@[j] != c,
        decreases len - i,
    {
        if s.get_char(i) == c {
            proof {
                lemma_find_char_unique(s@, c, i as int);
            }
            return Some(i);
        }
        i += 1;
    }
    None
}

proof fn lemma_find_char_unique(s: Seq<char>, c: char, i: int)
    requires
        0 <= i < s.len(),
        s[i] == c,
        forall|j: int| 0 <= j < i ==> s[j] != c,
    ensures
        find_char_spec(s, c) == Some(i),
{
    lemma_find_char_spec(s, c);
}

/// Whether some string in `v` holds the characters `s`.
pub fn contains_str(v: &Vec<String>, s: &str) -> (r: bool)
    ensures
        r == exists|i: int| 0 <= i < v@.len() && v@[i]@ == s@,
{
    let mut i: usize = 0;
    while i < v.len()
        invariant
            0 <= i <= v@.len(),
            forall|j: int| 0 <= j < i ==> v@[j]@ != s@,
        decreases v@.len() - i,
    {
        if str_eq(v[i].as_str(), s) {
            return true;
        }
        i += 1;
    }
    false
}

} // verus!
