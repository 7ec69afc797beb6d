use vstd::prelude::*;

use crate::protocol::byte_char;
use crate::text::{chars_of, push_str_chars, string_from_chars};

verus! {

/// The regex crate's error type, carried as an opaque value.
#[verifier::external_type_specification]
#[verifier::external_body]
pub struct ExRegexError(regex::Error);

/// Semantic version pattern with the named groups `major`, `minor`, `patch`,
/// `prerelease` and `buildmetadata`.
pub const SEMVER_PATTERN: &'static str = r"^(?P<major>0|[1-9]\d*)\.(?P<minor>0|[1-9]\d*)\.(?P<patch>0|[1-9]\d*)(?:-(?P<prerelease>(?:0|[1-9]\d*|\d*[a-zA-Z-][0-9a-zA-Z-]*)(?:\.(?:0|[1-9]\d*|\d*[a-zA-Z-][0-9a-zA-Z-]*))*))?(?:\+(?P<buildmetadata>[0-9a-zA-Z-]+(?:\.[0-9a-zA-Z-]+)*))?$";

/// What the regex crate captures when `pattern` is matched against `text`: `None` when it
/// does not match, else the text of each named group in `groups` (`None` for a group that
/// took no part in the match).
pub uninterp spec fn regex_group_captures(
    pattern: Seq<char>,
    text: Seq<char>,
    groups: Seq<Seq<char>>,
) -> Option<Seq<Option<Seq<char>>>>;

/// Whether the regex crate accepts `pattern`: `Regex::new` builds a regex from it rather
/// than report an error.
pub uninterp spec fn regex_compiles(pattern: Seq<char>) -> bool;

/// The character sequences of optional strings.
pub open spec fn opt_strings_view(v: Seq<Option<String>>) -> Seq<Option<Seq<char>>> {
    v.map_values(
        |o: Option<String>|
            match o {
                Some(s) => Some(s@),
                None => None,
            },
    )
}

/// The character sequences of string slices.
pub open spec fn strs_view(v: Seq<&str>) -> Seq<Seq<char>> {
    v.map_values(|s: &str| s@)
}

/// Matches `text` against `pattern` and reads out the named groups.
///
/// Trusted: calls the regex crate's `Regex::new(pattern)` and then `Regex::captures(text)`,
/// and copies out `Captures::name(group)` for each group as an owned string. The contract
/// claims that the call fails exactly when `Regex::new` refuses the pattern (the only
/// fallible step), and that a successful result is the named capture of the arguments, with
/// one entry per group as the source's per-group copy gives.
#[verifier::external_body]
fn captures_named(pattern: &str, text: &str, groups: &Vec<&str>) -> (r: Result<
    Option<Vec<Option<String>>>,
    regex::Error,
>)
    ensures
        r is Ok <==> regex_compiles(pattern@),
        r matches Ok(c) ==> match c {
            Some(v) => regex_group_captures(pattern@, text@, strs_view(groups@)) == Some(
                opt_strings_view(v@),
            ) && v@.len() == groups@.len(),
            None => regex_group_captures(pattern@, text@, strs_view(groups@)) is None,
        },
{
    let re = regex::Regex::new(pattern)?;
    Ok(
        re.captures(text).map(
            |caps| groups.iter().map(|g| caps.name(g).map(|m| m.as_str().to_string())).collect(),
        ),
    )
}

/// Character of a decimal digit.
pub open spec fn digit_char(d: int) -> char {
    byte_char((48 + d) as u8)
}

/// Decimal digits of a number, without leading zeros.
pub open spec fn decimal(n: nat) -> Seq<char>
    decreases n,
{
    if n < 10 {
        seq![digit_char(n as int)]
    } else {
        decimal(n / 10).push(digit_char((n % 10) as int))
    }
}

/// Whether a character is an ASCII decimal digit.
pub open spec fn is_digit(c: char) -> bool {
    '0' <= c <= '9'
}

/// Value of a string of decimal digits.
pub open spec fn digits_value(s: Seq<char>) -> int
    decreases s.len(),
{
    if s.len() == 0 {
        0
    } else {
        digits_value(s.drop_last()) * 10 + (s.last() as int - 48)
    }
}

/// The digits of a number text, after an optional leading '+'.
pub open spec fn unsigned_body(s: Seq<char>) -> Seq<char> {
    if s.len() > 0 && s[0] == '+' {
        s.drop_first()
    } else {
        s
    }
}

/// Whether every character is an ASCII decimal digit.
pub open spec fn all_digits(s: Seq<char>) -> bool {
    forall|i: int| 0 <= i < s.len() ==> is_digit(#[trigger] s[i])
}

/// What `u16::from_str` gives for a text: an optional '+' and then at least one ASCII digit,
/// with a value that fits in 16 bits.
pub open spec fn parsed_u16(s: Seq<char>) -> Option<u16> {
    let body = unsigned_body(s);
    if body.len() == 0 || !all_digits(body) || digits_value(body) > u16::MAX {
        None
    } else {
        Some(digits_value(body) as u16)
    }
}

proof fn lemma_digits_value_grows(s: Seq<char>, k: int)
    requires
        0 <= k <= s.len(),
        forall|i: int| 0 <= i < s.len() ==> is_digit(#[trigger] s[i]),
    ensures
        digits_value(s.take(k)) <= digits_value(s),
        0 <= digits_value(s.take(k)),
    decreases s.len() - k,
{
    if k < s.len() {
        lemma_digits_value_grows(s, k + 1);
        assert(s.take(k + 1).drop_last() =~= s.take(k));
        assert(is_digit(s[k]));
        lemma_digits_value_nonneg(s.take(k));
    } else {
        assert(s.take(k) =~= s);
        lemma_digits_value_nonneg(s);
    }
}

proof fn lemma_digits_value_nonneg(s: Seq<char>)
    requires
        forall|i: int| 0 <= i < s.len() ==> is_digit(#[trigger] s[i]),
    ensures
        0 <= digits_value(s),
    decreases s.len(),
{
    if s.len() > 0 {
        assert(is_digit(s.last()));
        lemma_digits_value_nonneg(s.drop_last());
    }
}

/// Parses a decimal `u16` as `str::parse` does.
pub fn parse_u16(s: &String) -> (r: Option<u16>)
    ensures
        r == parsed_u16(s@),
{
    let chars = chars_of(s.as_str());
    let n = chars.len();
    let start: usize = if n > 0 && chars[0] == '+' {
        1
    } else {
        0
    };
    let ghost body = unsigned_body(chars@);
    assert(body =~= chars@.subrange(start as int, n as int));
    if start == n {
        return None;
    }
    let mut value: u32 = 0;
    let mut i: usize = start;
    while i < n
        invariant
            n == chars.len(),
            chars@ == s@,
            start < n,
            start <= i <= n,
            body == unsigned_body(chars@),
            body =~= chars@.subrange(start as int, n as int),
            forall|j: int| 0 <= j < i - start ==> is_digit(#[trigger] body[j]),
            value == digits_value(body.take(i - start)),
            value <= u16::MAX,
        decreases n - i,
    {
        let c = chars[i];
        if !('0' <= c && c <= '9') {
            assert(!is_digit(body[i - start]));
            return None;
        }
        let d = (c as u32) - 48;
        assert(body.take(i - start + 1).drop_last() =~= body.take(i - start));
        let next = value * 10 + d;
        if next > 65535 {
            proof {
                if all_digits(body) {
                    lemma_digits_value_grows(body, i - start + 1);
                }
            }
            return None;
        }
        value = next;
        i += 1;
    }
    assert(body.take(n - start) =~= body);
    Some(value as u16)
}

/// Appends the decimal digits of a number.
pub fn push_decimal(v: &mut Vec<char>, n: u16)
    ensures
        final(v)@ == old(v)@ + decimal(n as nat),
    decreases n,
{
    if n >= 10 {
        push_decimal(v, n / 10);
    }
    let d = (n % 10) as u8;
    v.push((48u8 + d) as char);
    assert(final(v)@ =~= old(v)@ + decimal(n as nat));
}

/// The text of a version: `major.minor.patch`, then `-prerelease` and `+build` when present.
pub open spec fn version_text(
    major: u16,
    minor: u16,
    patch: u16,
    prerelease: Seq<char>,
    build: Seq<char>,
) -> Seq<char> {
    decimal(major as nat) + seq!['.'] + decimal(minor as nat) + seq!['.'] + decimal(patch as nat)
        + if prerelease.len() > 0 {
        seq!['-'] + prerelease
    } else {
        Seq::empty()
    } + if build.len() > 0 {
        seq!['+'] + build
    } else {
        Seq::empty()
    }
}

/// A semantic version.
#[derive(Debug, Clone, PartialEq, Eq)]
pub struct Version {
    pub major: u16,
    pub minor: u16,
    pub patch: u16,
    pub prerelease: String,
    pub build: String,
}

/// Why a version text was refused.
#[derive(Debug, Clone, Copy, PartialEq, Eq, Structural)]
pub enum VersionError {
    /// The version pattern could not be compiled.
    RegexFailed,
    /// The text is no semantic version.
    Invalid,
    /// A number of the version does not fit in 16 bits.
    NumberTooLarge,
}

/// The names of the groups of [`SEMVER_PATTERN`], in order.
pub open spec fn semver_groups() -> Seq<Seq<char>> {
    seq!["major"@, "minor"@, "patch"@, "prerelease"@, "buildmetadata"@]
}

/// An optional capture, or the empty text.
pub open spec fn or_empty(o: Option<Seq<char>>) -> Seq<char> {
    match o {
        Some(s) => s,
        None => Seq::empty(),
    }
}

/// Whether captured groups give a version: the three numbers are present and parse.
pub open spec fn numbers_parse(c: Seq<Option<Seq<char>>>) -> bool {
    &&& c.len() == 5
    &&& c[0] is Some && parsed_u16(c[0]->0) is Some
    &&& c[1] is Some && parsed_u16(c[1]->0) is Some
    &&& c[2] is Some && parsed_u16(c[2]->0) is Some
}

/// The version that captured groups describe.
pub open spec fn version_of(v: Version, c: Seq<Option<Seq<char>>>) -> bool {
    &&& Some(v.major) == parsed_u16(c[0]->0)
    &&& Some(v.minor) == parsed_u16(c[1]->0)
    &&& Some(v.patch) == parsed_u16(c[2]->0)
    &&& v.prerelease@ == or_empty(c[3])
    &&& v.build@ == or_empty(c[4])
}

fn owned_or_empty(o: &Option<String>) -> (s: String)
    ensures
        s@ == or_empty(
            match o {
                Some(s) => Some(s@),
                None => None,
            },
        ),
{
    match o {
        Some(s) => s.clone(),
        None => String::new(),
    }
}

impl Version {
    /// The version text, as semantic versions are written.
    pub fn display(&self) -> (s: String)
        ensures
            s@ == version_text(self.major, self.minor, self.patch, self.prerelease@, self.build@),
    {
        let chars = self.display_chars();
        string_from_chars(&chars)
    }

    /// The version text as characters.
    pub fn display_chars(&self) -> (v: Vec<char>)
        ensures
            v@ == version_text(self.major, self.minor, self.patch, self.prerelease@, self.build@),
    {
        let mut v: Vec<char> = Vec::new();
        push_decimal(&mut v, self.major);
        v.push('.');
        push_decimal(&mut v, self.minor);
        v.push('.');
        push_decimal(&mut v, self.patch);
        let pre = chars_of(self.prerelease.as_str());
        if pre.len() > 0 {
            v.push('-');
            push_str_chars(&mut v, self.prerelease.as_str());
        }
        let build = chars_of(self.build.as_str());
        if build.len() > 0 {
            v.push('+');
            push_str_chars(&mut v, self.build.as_str());
        }
        assert(v@ =~= version_text(
            self.major,
            self.minor,
            self.patch,
            self.prerelease@,
            self.build@,
        ));
        v
    }

    /// The version that the captured groups of a semantic version describe; the three
    /// numbers must be present and fit in 16 bits.
    pub fn from_captures(c: &Vec<Option<String>>) -> (v: Version)
        requires
            numbers_parse(opt_strings_view(c@)),
        ensures
            version_of(v, opt_strings_view(c@)),
    {
        let ghost cv = opt_strings_view(c@);
        assert(cv[0] == match c@[0] { Some(s) => Some(s@), None => None::<Seq<char>> });
        assert(cv[1] == match c@[1] { Some(s) => Some(s@), None => None::<Seq<char>> });
        assert(cv[2] == match c@[2] { Some(s) => Some(s@), None => None::<Seq<char>> });
        assert(cv[3] == match c@[3] { Some(s) => Some(s@), None => None::<Seq<char>> });
        assert(cv[4] == match c@[4] { Some(s) => Some(s@), None => None::<Seq<char>> });
        let major = match &c[0] {
            Some(s) => parse_u16(s),
            None => None,
        };
        let minor = match &c[1] {
            Some(s) => parse_u16(s),
            None => None,
        };
        let patch = match &c[2] {
            Some(s) => parse_u16(s),
            None => None,
        };
        match (major, minor, patch) {
            (Some(major), Some(minor), Some(patch)) => Version {
                major,
                minor,
                patch,
                prerelease: owned_or_empty(&c[3]),
                build: owned_or_empty(&c[4]),
            },
            _ => {
                assert(false);
                Version {
                    major: 0,
                    minor: 0,
                    patch: 0,
                    prerelease: String::new(),
                    build: String::new(),
                }
            },
        }
    }

    /// Reads a semantic version. Text that is no semantic version is refused as invalid;
    /// one whose numbers do not fit in 16 bits is refused as too large.
    pub fn parse(version_string: String) -> (r: Result<Version, VersionError>)
        ensures
            !regex_compiles(SEMVER_PATTERN@) ==> r == Err::<Version, VersionError>(
                VersionError::RegexFailed,
            ),
            regex_compiles(SEMVER_PATTERN@) ==> match regex_group_captures(
                SEMVER_PATTERN@,
                version_string@,
                semver_groups(),
            ) {
                None => r == Err::<Version, VersionError>(VersionError::Invalid),
                Some(c) => if numbers_parse(c) {
                    r matches Ok(v) && version_of(v, c)
                } else {
                    r == Err::<Version, VersionError>(VersionError::NumberTooLarge)
                },
            },
    {
        let mut groups: Vec<&str> = Vec::new();
        groups.push("major");
        groups.push("minor");
        groups.push("patch");
        groups.push("prerelease");
        groups.push("buildmetadata");
        assert(strs_view(groups@) =~= semver_groups());
        let captures = match captures_named(SEMVER_PATTERN, version_string.as_str(), &groups) {
            Ok(c) => c,
            Err(_) => return Err(VersionError::RegexFailed),
        };
        let c = match captures {
            Some(c) => c,
            None => return Err(VersionError::Invalid),
        };
        let ghost cv = opt_strings_view(c@);
        assert(cv[0] == match c@[0] { Some(s) => Some(s@), None => None::<Seq<char>> });
        assert(cv[1] == match c@[1] { Some(s) => Some(s@), None => None::<Seq<char>> });
        assert(cv[2] == match c@[2] { Some(s) => Some(s@), None => None::<Seq<char>> });
        let ok0 = match &c[0] {
            Some(s) => parse_u16(s).is_some(),
            None => false,
        };
        let ok1 = match &c[1] {
            Some(s) => parse_u16(s).is_some(),
            None => false,
        };
        let ok2 = match &c[2] {
            Some(s) => parse_u16(s).is_some(),
            None => false,
        };
        if ok0 && ok1 && ok2 {
            Ok(Version::from_captures(&c))
        } else {
            Err(VersionError::NumberTooLarge)
        }
    }
}

/// The numbers a version shows read back as the same numbers.
pub proof fn lemma_decimal_roundtrip(n: nat)
    requires
        n <= u16::MAX,
    ensures
        parsed_u16(decimal(n)) == Some(n as u16),
{
    lemma_decimal_digits(n);
    assert(decimal(n)[0] != '+');
}

proof fn lemma_decimal_digits(n: nat)
    ensures
        decimal(n).len() > 0,
        forall|i: int| 0 <= i < decimal(n).len() ==> is_digit(#[trigger] decimal(n)[i]),
        digits_value(decimal(n)) == n,
        decimal(n)[0] != '+',
    decreases n,
{
    if n < 10 {
        assert(digits_value(decimal(n)) == digits_value(decimal(n).drop_last()) * 10 + (decimal(
            n,
        ).last() as int - 48));
        assert(decimal(n).drop_last() =~= Seq::<char>::empty());
    } else {
        lemma_decimal_digits(n / 10);
        let d = decimal(n);
        assert(d.drop_last() =~= decimal(n / 10));
        assert forall|i: int| 0 <= i < d.len() implies is_digit(#[trigger] d[i]) by {
            if i < d.len() - 1 {
                assert(d[i] == decimal(n / 10)[i]);
            }
        }
        assert(d[0] == decimal(n / 10)[0]);
    }
}

/// Who made an extension, under which name and version.
#[derive(Debug, Clone, PartialEq, Eq)]
pub struct ExtensionMetadata {
    pub name: String,
    pub author: String,
    pub version: Version,
}

impl ExtensionMetadata {
    pub fn new(name: String, author: String, version: Version) -> (m: ExtensionMetadata)
        ensures
            m.name == name,
            m.author == author,
            m.version == version,
    {
        ExtensionMetadata { name, author, version }
    }
}

} // verus!
