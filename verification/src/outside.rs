//! Calls into other crates and into std.  Nothing here is proved: each function
//! states what the function that it calls is documented to do.

use crate::patterns;
use crate::text;
use crate::text::Class;
use vstd::prelude::*;

verus! {

// ──────────────────────────── regular expressions ────────────────────────────

/// The texts that the groups of a match hold.
pub open spec fn groups(v: Seq<Option<String>>) -> Seq<Option<Seq<char>>> {
    Seq::new(v.len(), |i: int| text::opt_text(v[i]))
}

/// The texts that the groups of several matches hold.
pub open spec fn all_groups(v: Seq<Vec<Option<String>>>) -> Seq<Seq<Option<Seq<char>>>> {
    Seq::new(v.len(), |i: int| groups(v[i]@))
}

/// The text of a group, or nothing where the group took no part in the match.
pub open spec fn group(g: Seq<Option<Seq<char>>>, i: int) -> Seq<char> {
    if 0 <= i < g.len() {
        match g[i] {
            Some(t) => t,
            None => Seq::empty(),
        }
    } else {
        Seq::empty()
    }
}

/// Whether a pattern is valid and matches somewhere in a text.
pub uninterp spec fn regex_is_match(pattern: Seq<char>, text: Seq<char>) -> bool;

/// The groups of the leftmost match of a pattern in a text, the whole match
/// first; none if the pattern is not valid or does not match.
pub uninterp spec fn regex_captures(
    pattern: Seq<char>,
    text: Seq<char>,
) -> Option<Seq<Option<Seq<char>>>>;

/// The groups of the successive matches of a pattern in a text; none if the
/// pattern is not valid.
pub uninterp spec fn regex_captures_iter(
    pattern: Seq<char>,
    text: Seq<char>,
) -> Option<Seq<Seq<Option<Seq<char>>>>>;

/// What stands before the leftmost match of a pattern in a text, and the match;
/// none if the pattern is not valid or does not match.
pub uninterp spec fn regex_find(
    pattern: Seq<char>,
    text: Seq<char>,
) -> Option<(Seq<char>, Seq<char>)>;

/// A full git commit hash: forty digits in lower case.
pub open spec fn is_commit_hash(s: Seq<char>) -> bool {
    s.len() == 40 && text::all_in(s, Class::LowerHex)
}

/// A commit hash, perhaps cut short: twelve to forty digits in lower case.
pub open spec fn is_hash(s: Seq<char>) -> bool {
    12 <= s.len() <= 40 && text::all_in(s, Class::LowerHex)
}

/// Ten characters: a year, a month and a day in digits, with a separator of the
/// class between them.
pub open spec fn is_date_with(s: Seq<char>, k: Class) -> bool {
    &&& s.len() == 10
    &&& text::all_in(s.take(4), Class::Digit)
    &&& k.has(s[4])
    &&& text::all_in(s.subrange(5, 7), Class::Digit)
    &&& k.has(s[7])
    &&& text::all_in(s.skip(8), Class::Digit)
}

/// A calendar date: `YYYY-MM-DD` or `YYYYMMDD`.
pub open spec fn is_calendar_date(s: Seq<char>) -> bool {
    is_date_with(s, Class::Is('-')) || (s.len() == 8 && text::all_in(s, Class::Digit))
}

/// A text that starts with a digit, perhaps after a `v`.
pub open spec fn starts_numeric(s: Seq<char>) -> bool {
    text::starts_in(s, Class::Digit) || (s.len() > 1 && s[0] == 'v' && text::is_digit(s[1]))
}

/// The groups of a variable assignment: the line, its name, its operator and
/// its value without leading white space.
pub open spec fn assignment(line: Seq<char>) -> Option<Seq<Option<Seq<char>>>> {
    let n = text::span(line, Class::Ident) as int;
    let rest = text::trim_start_of(line.skip(n), Class::Space);
    let op = if rest.len() > 0 && rest[0] == '=' {
        1
    } else if rest.len() > 1 && rest[1] == '=' && (rest[0] == ':' || rest[0] == '?' || rest[0]
        == '+') {
        2int
    } else {
        0
    };
    if n == 0 || text::is_digit(line[0]) || op == 0 {
        None
    } else {
        Some(
            seq![
                Some(line),
                Some(line.take(n)),
                Some(rest.take(op)),
                Some(text::trim_start_of(rest.skip(op), Class::Space)),
            ],
        )
    }
}

/// Whether a version text is a calendar date.
pub open spec fn date_matches(s: Seq<char>) -> bool {
    if text::all_in(s, Class::Ascii) {
        is_calendar_date(s)
    } else if text::starts_in(s, Class::Is('(')) {
        false
    } else {
        regex_is_match(patterns::FORMAT_DATE@, s)
    }
}

/// Whether a version text starts with a number.
pub open spec fn numeric_matches(s: Seq<char>) -> bool {
    if text::all_in(s, Class::Ascii) {
        starts_numeric(s)
    } else if text::starts_in(s, Class::Is('(')) {
        false
    } else {
        regex_is_match(patterns::FORMAT_NUMERIC@, s)
    }
}

/// Whether a version is a date with dots or dashes.
pub open spec fn date_version_matches(s: Seq<char>) -> bool {
    if text::all_in(s, Class::Ascii) {
        is_date_with(s, Class::Either('.', '-'))
    } else {
        regex_is_match(patterns::DATE_VERSION@, s)
    }
}

/// Whether a text starts with a word in lower case, whatever the case of its own
/// letters.
pub open spec fn starts_with_word(s: Seq<char>, word: Seq<char>) -> bool {
    word.is_prefix_of(s.map_values(|c: char| ascii_lower(c)))
}

/// The length of the pre-release keyword that a text starts with, or zero.  What
/// starts with `preview` starts with `pre`.
pub open spec fn keyword_length(s: Seq<char>) -> int {
    if starts_with_word(s, "alpha"@) {
        5
    } else if starts_with_word(s, "beta"@) {
        4
    } else if starts_with_word(s, "rc"@) {
        2
    } else if starts_with_word(s, "dev"@) {
        3
    } else if starts_with_word(s, "pre"@) {
        3
    } else if starts_with_word(s, "nightly"@) {
        7
    } else if starts_with_word(s, "snapshot"@) {
        8
    } else if starts_with_word(s, "next"@) {
        4
    } else {
        0
    }
}

/// Where the keyword stands in a text that starts with a marker: behind one
/// separator at most.
pub open spec fn keyword_start(s: Seq<char>) -> int {
    if text::starts_in(s, Class::Separator) {
        1
    } else {
        0
    }
}

/// Whether a text starts with a pre-release marker.
pub open spec fn starts_with_marker(s: Seq<char>) -> bool {
    keyword_length(s.skip(keyword_start(s))) > 0
}

/// The position of the first pre-release marker.
pub open spec fn marker_at(s: Seq<char>) -> Option<int>
    decreases s.len(),
{
    if starts_with_marker(s) {
        Some(0int)
    } else if s.len() == 0 {
        None
    } else {
        match marker_at(s.skip(1)) {
            Some(i) => Some(i + 1),
            None => None,
        }
    }
}

/// The groups of the marker that a text starts with: the whole, the keyword, and,
/// where a number follows, the number with the separators before it and without.
pub open spec fn marker_groups(s: Seq<char>) -> Seq<Option<Seq<char>>> {
    let a = keyword_start(s);
    let b = a + keyword_length(s.skip(a));
    let rest = s.skip(b);
    let g = text::span(rest, Class::Separator) as int;
    let d = text::span(rest.skip(g), Class::Digit) as int;
    if d > 0 {
        seq![
            Some(s.take(b + g + d)),
            Some(s.subrange(a, b)),
            Some(rest.take(g + d)),
            Some(rest.subrange(g, g + d)),
        ]
    } else {
        seq![Some(s.take(b)), Some(s.subrange(a, b)), None, None]
    }
}

/// The groups of the first pre-release marker in a text.
pub open spec fn marker_in(s: Seq<char>) -> Option<Seq<Option<Seq<char>>>> {
    match marker_at(s) {
        Some(i) => Some(marker_groups(s.skip(i))),
        None => None,
    }
}

/// What stands before the first pre-release marker.
pub open spec fn before_marker(s: Seq<char>) -> Option<Seq<char>> {
    if text::all_in(s, Class::Ascii) {
        match marker_at(s) {
            Some(i) => Some(s.take(i)),
            None => None,
        }
    } else {
        match regex_find(patterns::PRERELEASE@, s) {
            Some(found) => Some(found.0),
            None => None,
        }
    }
}

/// The groups of the first pre-release marker.
pub open spec fn marker_captured(s: Seq<char>) -> Option<Seq<Option<Seq<char>>>> {
    if text::all_in(s, Class::Ascii) {
        marker_in(s)
    } else {
        regex_captures(patterns::PRERELEASE@, s)
    }
}

/// `regex::Regex::is_match` on the pattern that `regex::Regex::new` compiles; an
/// invalid pattern matches nothing.  The patterns for commit hashes, dates and
/// numeric versions match exactly the texts that they spell out;
/// `\d` also takes digits beyond ASCII, so what it takes is said of ASCII texts
/// only.  Dates and numeric versions do not start with a bracket.
#[verifier::external_body]
pub(crate) fn is_match(pattern: &str, text: &str) -> (r: bool)
    ensures
        r == regex_is_match(pattern@, text@),
        pattern@ == patterns::COMMIT_HASH@ ==> r == is_commit_hash(text@),
        pattern@ == patterns::FORMAT_HASH@ ==> r == is_hash(text@),
        pattern@ == patterns::FORMAT_DATE@ && text::all_in(text@, Class::Ascii) ==> r
            == is_calendar_date(text@),
        pattern@ == patterns::FORMAT_NUMERIC@ && text::all_in(text@, Class::Ascii) ==> r
            == starts_numeric(text@),
        pattern@ == patterns::DATE_VERSION@ && text::all_in(text@, Class::Ascii) ==> r
            == is_date_with(text@, Class::Either('.', '-')),
        (pattern@ == patterns::FORMAT_DATE@ || pattern@ == patterns::FORMAT_NUMERIC@)
            && text::starts_in(text@, Class::Is('(')) ==> !r,
{
    match regex::Regex::new(pattern) {
        Ok(re) => re.is_match(text),
        Err(_) => false,
    }
}

/// `regex::Regex::captures` on the pattern that `regex::Regex::new` compiles.
/// The pattern of variable assignments takes a line apart as `assignment` says,
/// the pre-release pattern an ASCII text as `marker_in` says.
#[verifier::external_body]
pub(crate) fn captures(pattern: &str, text: &str) -> (r: Option<Vec<Option<String>>>)
    ensures
        (match r {
            Some(v) => Some(groups(v@)),
            None => None,
        }) == regex_captures(pattern@, text@),
        pattern@ == patterns::VAR_ASSIGN@ && text::all_in(text@, Class::Not('\n')) ==> (match r {
            Some(v) => Some(groups(v@)),
            None => None,
        }) == assignment(text@),
        pattern@ == patterns::PRERELEASE@ && text::all_in(text@, Class::Ascii) ==> (match r {
            Some(v) => Some(groups(v@)),
            None => None,
        }) == marker_in(text@),
{
    let re = regex::Regex::new(pattern).ok()?;
    let caps = re.captures(text)?;
    Some(caps.iter().map(|m| m.map(|m| m.as_str().to_string())).collect())
}

/// `regex::Regex::captures_iter` on the pattern that `regex::Regex::new`
/// compiles.
#[verifier::external_body]
pub(crate) fn captures_iter(pattern: &str, text: &str) -> (r: Option<Vec<Vec<Option<String>>>>)
    ensures
        (match r {
            Some(v) => Some(all_groups(v@)),
            None => None,
        }) == regex_captures_iter(pattern@, text@),
{
    let re = regex::Regex::new(pattern).ok()?;
    let found = re.captures_iter(text);
    Some(
        found.map(
            |c| c.iter().map(|m| m.map(|m| m.as_str().to_string())).collect(),
        ).collect(),
    )
}

/// `regex::Regex::find` on the pattern that `regex::Regex::new` compiles: what
/// stands before the first match, and the match.  In an ASCII text the
/// pre-release pattern finds the marker that `marker_at` and `marker_groups` tell.
#[verifier::external_body]
pub(crate) fn find(pattern: &str, text: &str) -> (r: Option<(String, String)>)
    ensures
        (match r {
            Some(p) => Some((p.0@, p.1@)),
            None => None,
        }) == regex_find(pattern@, text@),
        pattern@ == patterns::PRERELEASE@ && text::all_in(text@, Class::Ascii) ==> (match (
            r,
            marker_at(text@),
        ) {
            (Some(p), Some(i)) => p.0@ == text@.take(i) && Some(p.1@) == marker_groups(
                text@.skip(i),
            )[0],
            (None, None) => true,
            _ => false,
        }),
{
    let re = regex::Regex::new(pattern).ok()?;
    let m = re.find(text)?;
    Some((text[..m.start()].to_string(), m.as_str().to_string()))
}

// ─────────────────────────────────── texts ───────────────────────────────────

/// An ASCII capital letter turned into its lower case; other characters stay.
pub open spec fn ascii_lower(c: char) -> char {
    if 'A' <= c <= 'Z' {
        (c as u32 + 32) as char
    } else {
        c
    }
}

/// An ASCII small letter turned into its upper case; other characters stay.
pub open spec fn ascii_upper(c: char) -> char {
    if 'a' <= c <= 'z' {
        (c as u32 - 32) as char
    } else {
        c
    }
}

/// The lower case of a text.
pub uninterp spec fn lowercase(s: Seq<char>) -> Seq<char>;

/// The upper case of a character, which may be several characters.
pub uninterp spec fn uppercase(c: char) -> Seq<char>;

/// The lower case of a text: of an ASCII text, character by character.
pub open spec fn lower(s: Seq<char>) -> Seq<char> {
    if text::all_in(s, Class::Ascii) {
        s.map_values(|c: char| ascii_lower(c))
    } else {
        lowercase(s)
    }
}

/// The upper case of a character: of an ASCII character, one character.
pub open spec fn upper(c: char) -> Seq<char> {
    if Class::Ascii.has(c) {
        seq![ascii_upper(c)]
    } else {
        uppercase(c)
    }
}

/// `str::to_lowercase`.  An ASCII text is turned character by character.
#[verifier::external_body]
pub(crate) fn to_lowercase(s: &str) -> (r: String)
    ensures
        r@ == lowercase(s@),
        text::all_in(s@, Class::Ascii) ==> r@ == s@.map_values(|c: char| ascii_lower(c)),
{
    s.to_lowercase()
}

/// `char::to_uppercase`.  An ASCII character is turned into one character.
#[verifier::external_body]
pub(crate) fn to_uppercase(c: char) -> (r: String)
    ensures
        r@ == uppercase(c),
        Class::Ascii.has(c) ==> r@ == seq![ascii_upper(c)],
{
    c.to_uppercase().to_string()
}

/// The host of a URL, if the text is a URL that has one.
pub uninterp spec fn url_host(url: Seq<char>) -> Option<Seq<char>>;

/// `url::Url::host_str` of what `url::Url::parse` reads.
#[verifier::external_body]
pub(crate) fn host_of(url: &str) -> (r: Option<String>)
    ensures
        text::opt_text(r) == url_host(url@),
{
    url::Url::parse(url).ok()?.host_str().map(|h| h.to_string())
}

/// The upper case hexadecimal digit of a number below sixteen.
pub open spec fn hex_digit(n: int) -> char {
    if n < 10 {
        (n + '0' as u32) as char
    } else {
        (n - 10 + 'A' as u32) as char
    }
}

/// A byte as it stands in a percent-encoded text.
pub open spec fn percent_byte(b: u8) -> Seq<char> {
    if ('0' as u32 <= b <= '9' as u32) || ('A' as u32 <= b <= 'Z' as u32) || ('a' as u32 <= b
        <= 'z' as u32) || b == '-' as u32 || b == '_' as u32 || b == '.' as u32 || b == '~' as u32 {
        seq![b as char]
    } else {
        seq!['%', hex_digit(b as int / 16), hex_digit(b as int % 16)]
    }
}

/// Bytes as they stand in a percent-encoded text.
pub open spec fn percent_bytes(bytes: Seq<u8>) -> Seq<char>
    decreases bytes.len(),
{
    if bytes.len() == 0 {
        Seq::empty()
    } else {
        percent_bytes(bytes.drop_last()) + percent_byte(bytes.last())
    }
}

/// A text in percent encoding.
pub open spec fn percent_encoded(s: Seq<char>) -> Seq<char> {
    percent_bytes(vstd::utf8::encode_utf8(s))
}

/// `urlencoding::encode`: every UTF-8 byte in percent form but ASCII letters,
/// digits, `-`, `_`, `.` and `~`.
#[verifier::external_body]
pub(crate) fn percent_encode(s: &str) -> (r: String)
    ensures
        r@ == percent_encoded(s@),
{
    urlencoding::encode(s).into_owned()
}

/// The SHA-256 digest of bytes in hexadecimal.
pub uninterp spec fn sha256_hex(bytes: Seq<u8>) -> Seq<char>;

/// `sha2::Sha256` over the bytes, in hexadecimal: sixty-four digits in lower
/// case.
#[verifier::external_body]
pub(crate) fn sha256(bytes: &[u8]) -> (r: String)
    ensures
        r@ == sha256_hex(bytes@),
        r@.len() == 64,
        text::all_in(r@, Class::LowerHex),
{
    let digest = <sha2::Sha256 as sha2::Digest>::digest(bytes);
    format!("{:x}", digest)
}

// ────────────────────────────── semantic versions ────────────────────────────

/// A number without leading zeros that fits in sixty-four bits.
pub open spec fn is_plain_number(s: Seq<char>) -> bool {
    &&& s.len() > 0
    &&& text::all_in(s, Class::Digit)
    &&& s.len() == 1 || s[0] != '0'
    &&& text::digits_value(s) <= u64::MAX
}

/// The three numbers of a release `major.minor.patch`.
pub open spec fn release_of(s: Seq<char>) -> Option<(nat, nat, nat)> {
    let p = text::split_on(s, '.');
    if p.len() == 3 && is_plain_number(p[0]) && is_plain_number(p[1]) && is_plain_number(p[2]) {
        Some((text::digits_value(p[0]), text::digits_value(p[1]), text::digits_value(p[2])))
    } else {
        None
    }
}

/// The sign of a difference.
pub open spec fn sign_between(a: int, b: int) -> int {
    if a > b {
        1
    } else if a < b {
        -1
    } else {
        0
    }
}

/// The order of two releases: by major, then minor, then patch number.
pub open spec fn release_sign(a: (nat, nat, nat), b: (nat, nat, nat)) -> int {
    if a.0 != b.0 {
        sign_between(a.0 as int, b.0 as int)
    } else if a.1 != b.1 {
        sign_between(a.1 as int, b.1 as int)
    } else {
        sign_between(a.2 as int, b.2 as int)
    }
}

/// Whether a text is a release with a dash and more behind it.
pub open spec fn is_prerelease_of(s: Seq<char>, release: Seq<char>) -> bool {
    release_of(release) is Some && (release + seq!['-']).is_prefix_of(s)
}

/// A release with a dash, letters, a dot and a plain number behind it.
pub open spec fn is_marked_release(s: Seq<char>) -> bool {
    let marker = text::after(s, "-"@);
    let letters = text::before(marker, "."@);
    &&& release_of(text::before(s, "-"@)) is Some
    &&& letters.len() > 0
    &&& text::all_in(letters, Class::Letter)
    &&& is_plain_number(text::after(marker, "."@))
}

/// Whether a text is a semantic version.
pub uninterp spec fn semver_parses(s: Seq<char>) -> bool;

/// The order of two semantic versions: 1, 0 or -1 as the first is greater than,
/// equal to or less than the second.
pub uninterp spec fn semver_sign(a: Seq<char>, b: Seq<char>) -> int;

/// `semver::Version::parse`, as far as whether it succeeds.  It reads every
/// release of three plain numbers, also with a pre-release of letters and a number
/// behind it.
#[verifier::external_body]
pub(crate) fn is_semver(s: &str) -> (r: bool)
    ensures
        r == semver_parses(s@),
        release_of(s@) is Some ==> r,
        is_marked_release(s@) ==> r,
{
    semver::Version::parse(s).is_ok()
}

/// The order of `semver::Version`s.  It is the same from both sides; equal
/// texts are equal; plain releases are ordered by their numbers; a plain release
/// is newer than its pre-releases.
#[verifier::external_body]
pub(crate) fn semver_order(a: &str, b: &str) -> (r: i8)
    requires
        semver_parses(a@),
        semver_parses(b@),
    ensures
        r == semver_sign(a@, b@),
        r == -semver_sign(b@, a@),
        -1 <= r <= 1,
        a@ == b@ ==> r == 0,
        release_of(a@) is Some && release_of(b@) is Some ==> r == release_sign(
            release_of(a@)->0,
            release_of(b@)->0,
        ),
        is_prerelease_of(b@, a@) ==> r == 1,
        is_prerelease_of(a@, b@) ==> r == -1,
{
    let (x, y) = (semver::Version::parse(a).unwrap(), semver::Version::parse(b).unwrap());
    match x.cmp(&y) {
        std::cmp::Ordering::Less => -1,
        std::cmp::Ordering::Equal => 0,
        std::cmp::Ordering::Greater => 1,
    }
}

} // verus!
