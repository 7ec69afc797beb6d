use vstd::prelude::*;

verus! {

/// The character sequence of a text, copied out into a vector.
pub fn chars_of(s: &str) -> (v: Vec<char>)
    ensures
        v@ == s@,
{
    let mut v: Vec<char> = Vec::new();
    for c in it: s.chars()
        invariant
            v@ == it.seq().take(it.index() as int),
    {
        v.push(c);
    }
    proof {
        vstd::string::axiom_spec_iter(s);
    }
    v
}

/// Builds an owned string from a sequence of characters.
///
/// Trusted: calls std's `FromIterator<char>` for `String` (through `collect`), which
/// std documents as concatenating the characters in order.
#[verifier::external_body]
pub(crate) fn string_from_chars(chars: &Vec<char>) -> (s: String)
    ensures
        s@ == chars@,
{
    chars.iter().collect()
}

/// Whether two character vectors hold the same characters.
pub fn chars_eq(a: &Vec<char>, b: &Vec<char>) -> (r: bool)
    ensures
        r == (a@ == b@),
{
    if a.len() != b.len() {
        return false;
    }
    let mut i: usize = 0;
    while i < a.len()
        invariant
            a.len() == b.len(),
            i <= a.len(),
            forall|j: int| 0 <= j < i ==> a@[j] == b@[j],
        decreases a.len() - i,
    {
        if a[i] != b[i] {
            return false;
        }
        i += 1;
    }
    assert(a@ =~= b@);
    true
}

/// Whether a character vector spells the given text.
pub fn chars_eq_str(a: &Vec<char>, s: &str) -> (r: bool)
    ensures
        r == (a@ == s@),
{
    let b = chars_of(s);
    chars_eq(a, &b)
}

/// Appends the characters of `s` to `v`.
pub fn push_str_chars(v: &mut Vec<char>, s: &str)
    ensures
        final(v)@ == old(v)@ + s@,
{
    let mut b = chars_of(s);
    v.append(&mut b);
}

/// Unicode `White_Space` property: the characters that `char::is_whitespace` accepts.
pub open spec fn is_white(c: char) -> bool {
    let u = c as u32;
    ||| 0x09 <= u <= 0x0D
    ||| u == 0x20
    ||| u == 0x85
    ||| u == 0xA0
    ||| u == 0x1680
    ||| 0x2000 <= u <= 0x200A
    ||| u == 0x2028
    ||| u == 0x2029
    ||| u == 0x202F
    ||| u == 0x205F
    ||| u == 0x3000
}

/// Executable form of [`is_white`].
pub fn is_whitespace_char(c: char) -> (r: bool)
    ensures
        r == is_white(c),
{
    let u = c as u32;
    (0x09 <= u && u <= 0x0D) || u == 0x20 || u == 0x85 || u == 0xA0 || u == 0x1680 || (0x2000
        <= u && u <= 0x200A) || u == 0x2028 || u == 0x2029 || u == 0x202F || u == 0x205F || u
        == 0x3000
}

/// Number of leading white-space characters of `s`.
pub open spec fn leading_white(s: Seq<char>) -> nat
    decreases s.len(),
{
    if s.len() > 0 && is_white(s[0]) {
        1 + leading_white(s.drop_first())
    } else {
        0
    }
}

/// Number of trailing white-space characters of `s`.
pub open spec fn trailing_white(s: Seq<char>) -> nat
    decreases s.len(),
{
    if s.len() > 0 && is_white(s.last()) {
        1 + trailing_white(s.drop_last())
    } else {
        0
    }
}

/// `s` with leading and trailing white space removed, as `str::trim` does.
pub open spec fn trimmed(s: Seq<char>) -> Seq<char> {
    let tail = s.subrange(leading_white(s) as int, s.len() as int);
    tail.subrange(0, tail.len() - trailing_white(tail))
}

proof fn lemma_leading_white_char(s: Seq<char>, k: int)
    requires
        0 <= k <= s.len(),
        forall|j: int| 0 <= j < k ==> is_white(#[trigger] s[j]),
        k < s.len() ==> !is_white(s[k]),
    ensures
        leading_white(s) == k,
    decreases s.len(),
{
    if k > 0 {
        assert(is_white(s[0]));
        assert forall|j: int| 0 <= j < k - 1 implies is_white(#[trigger] s.drop_first()[j]) by {
            assert(s.drop_first()[j] == s[j + 1]);
        }
        if k - 1 < s.drop_first().len() {
            assert(s.drop_first()[k - 1] == s[k]);
        }
        lemma_leading_white_char(s.drop_first(), k - 1);
    }
}

proof fn lemma_trailing_white_char(s: Seq<char>, k: int)
    requires
        0 <= k <= s.len(),
        forall|j: int| s.len() - k <= j < s.len() ==> is_white(#[trigger] s[j]),
        k < s.len() ==> !is_white(s[s.len() - k - 1]),
    ensures
        trailing_white(s) == k,
    decreases s.len(),
{
    if k > 0 {
        assert(is_white(s.last()));
        let d = s.drop_last();
        assert forall|j: int| d.len() - (k - 1) <= j < d.len() implies is_white(#[trigger] d[j]) by {
            assert(d[j] == s[j]);
        }
        if k - 1 < d.len() {
            assert(d[d.len() - (k - 1) - 1] == s[s.len() - k - 1]);
        }
        lemma_trailing_white_char(d, k - 1);
    }
}

/// `s` with leading and trailing white space removed.
pub fn trim_chars(s: &Vec<char>) -> (r: Vec<char>)
    ensures
        r@ == trimmed(s@),
{
    let n = s.len();
    let mut start: usize = 0;
    while start < n && is_whitespace_char(s[start])
        invariant
            n == s.len(),
            start <= n,
            forall|j: int| 0 <= j < start ==> is_white(#[trigger] s@[j]),
        decreases n - start,
    {
        start += 1;
    }
    proof {
        lemma_leading_white_char(s@, start as int);
    }
    let mut end: usize = n;
    while end > start && is_whitespace_char(s[end - 1])
        invariant
            n == s.len(),
            start <= end <= n,
            forall|j: int| end <= j < n ==> is_white(#[trigger] s@[j]),
        decreases end,
    {
        end -= 1;
    }
    let ghost tail = s@.subrange(start as int, n as int);
    proof {
        assert forall|j: int| tail.len() - (n - end) <= j < tail.len() implies is_white(
            #[trigger] tail[j],
        ) by {
            assert(tail[j] == s@[start + j]);
        }
        if n - end < tail.len() {
            assert(tail[tail.len() - (n - end) - 1] == s@[end - 1]);
        }
        lemma_trailing_white_char(tail, (n - end) as int);
    }
    let mut r: Vec<char> = Vec::new();
    let mut i: usize = start;
    while i < end
        invariant
            n == s.len(),
            start <= i <= end <= n,
            r@ == s@.subrange(start as int, i as int),
        decreases end - i,
    {
        r.push(s[i]);
        i += 1;
    }
    assert(r@ =~= trimmed(s@));
    r
}

} // verus!
