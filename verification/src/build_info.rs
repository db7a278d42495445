//! Metadata about a build.
use vstd::prelude::*;
use vstd::utf8::encode_utf8;
use vstd::utf8::decode_utf8;
use vstd::utf8::is_char_boundary;
use vstd::utf8::is_ascii_chars;
use crate::decimal::zero_padded;
use crate::decimal::decimal;
use crate::decimal::push_all;
use crate::decimal::push_char;
use crate::decimal::digits_value;
use crate::decimal::all_digits;
use crate::decimal::pow10;
use crate::decimal::zero_padded_digits;
use crate::decimal::digits_to_i32;
use crate::decimal::lemma_zero_padded;
use crate::decimal::lemma_digits_value_concat;

verus! {

/// Build information.
#[derive(Debug, Clone, PartialEq, Eq)]
pub struct BuildInfo {
    /// The version number of the build.
    pub version: &'static str,
    /// The 40-character SHA-1 hash identifying the Git commit of the build.
    pub sha: &'static str,
    /// The time of the build in UTC as an ISO 8601-compliant string.
    pub time: &'static str,
}

/// Dummy build information.
///
/// Intended for use in contexts where getting the correct build information is
/// impossible or unnecessary, like in tests.
pub fn dummy_build_info() -> (r: BuildInfo)
    ensures
        r.version@ == "0.0.0+dummy"@,
        r.sha@ == "0000000000000000000000000000000000000000"@,
        r.time@ == ""@,
{
    BuildInfo { version: "0.0.0+dummy", sha: "0000000000000000000000000000000000000000", time: "" }
}

/// The characters encoded by the first nine bytes of the UTF-8 encoding of `sha`.
pub open spec fn short_sha(sha: Seq<char>) -> Seq<char> {
    decode_utf8(encode_utf8(sha).subrange(0, 9))
}

/// `v<version> (<first nine bytes of sha>)`.
pub open spec fn human_version_text(version: Seq<char>, sha: Seq<char>) -> Seq<char> {
    seq!['v'] + version + seq![' ', '('] + short_sha(sha) + seq![')']
}

/// Slicing `sha` at byte nine is allowed exactly when byte nine starts a character
/// (or ends the string) of its UTF-8 encoding.
pub open spec fn sha_prefix_cuttable(sha: Seq<char>) -> bool {
    is_char_boundary(encode_utf8(sha), 9)
}

impl BuildInfo {
    /// Constructs a human-readable version string.
    pub fn human_version(&self) -> (r: String)
        requires
            sha_prefix_cuttable(self.sha@),
        ensures
            r@ == human_version_text(self.version@, self.sha@),
    {
        broadcast use vstd::utf8::group_utf8_lib;
        let (head, _tail) = self.sha.split_at(9);
        proof {
            vstd::utf8::encode_utf8_decode_utf8(head@);
        }
        let mut s = String::from_str("v");
        s.append(self.version);
        s.append(" (");
        s.append(head);
        s.append(")");
        proof {
            reveal_strlit("v");
            reveal_strlit(" (");
            reveal_strlit(")");
        }
        s
    }

    /// Returns the version as a semantic version.
    ///
    /// The version must be a valid semantic version.
    pub fn semver_version(&self) -> (r: SemVer)
        requires
            semver_parse(self.version@) is Some,
        ensures
            semver_parse(self.version@) == Some(r@),
    {
        parse_semver(self.version).unwrap()
    }

    /// Returns the version as a semantic version, or `None` when the version is not
    /// a valid semantic version.
    pub fn try_semver_version(&self) -> (r: Option<SemVer>)
        ensures
            match r {
                Some(v) => semver_parse(self.version@) == Some(v@),
                None => semver_parse(self.version@) is None,
            },
    {
        match parse_semver(self.version) {
            Some(_) => Some(self.semver_version()),
            None => None,
        }
    }

    /// Returns the version as an integer along the lines of Pg's server_version_num:
    /// the major, minor and patch numbers zero-padded to two, three and two digits,
    /// read as one decimal number.
    ///
    /// The version must be a valid semantic version whose number fits in an `i32`.
    pub fn version_num(&self) -> (r: i32)
        requires
            semver_parse(self.version@) is Some,
            semver_version_num(semver_parse(self.version@).unwrap()) <= i32::MAX,
        ensures
            r == semver_version_num(semver_parse(self.version@).unwrap()),
    {
        let v = self.semver_version();
        proof {
            lemma_version_num_text_digits(v.major as nat, v.minor as nat, v.patch as nat);
        }
        version_num_from_parts(v.major, v.minor, v.patch).unwrap()
    }

    /// `version_num`, or `None` when the version is not a valid semantic version or
    /// its number does not fit in an `i32`.
    pub fn try_version_num(&self) -> (r: Option<i32>)
        ensures
            r == (match semver_parse(self.version@) {
                Some(p) => if semver_version_num(p) <= i32::MAX {
                    Some(semver_version_num(p) as i32)
                } else {
                    None
                },
                None => None,
            }),
    {
        match parse_semver(self.version) {
            None => None,
            Some(v) => match version_num_from_parts(v.major, v.minor, v.patch) {
                None => None,
                Some(_) => Some(self.version_num()),
            },
        }
    }
}

/// A semantic version: the numeric major, minor and patch parts, and the
/// pre-release and build-metadata strings (empty when absent).
#[derive(Debug, Clone, PartialEq, Eq)]
pub struct SemVer {
    pub major: u64,
    pub minor: u64,
    pub patch: u64,
    pub pre: String,
    pub build: String,
}

impl View for SemVer {
    type V = (u64, u64, u64, Seq<char>, Seq<char>);

    open spec fn view(&self) -> (u64, u64, u64, Seq<char>, Seq<char>) {
        (self.major, self.minor, self.patch, self.pre@, self.build@)
    }
}

/// The text of a semantic version as semver displays it:
/// `major.minor.patch`, then `-pre` and `+build` when they are not empty.
pub open spec fn semver_text(v: (u64, u64, u64, Seq<char>, Seq<char>)) -> Seq<char> {
    decimal(v.0 as nat) + seq!['.'] + decimal(v.1 as nat) + seq!['.'] + decimal(v.2 as nat) + (
    if v.3.len() == 0 {
        Seq::empty()
    } else {
        seq!['-'] + v.3
    }) + (if v.4.len() == 0 {
        Seq::empty()
    } else {
        seq!['+'] + v.4
    })
}

impl SemVer {
    /// The version's text, `major.minor.patch[-pre][+build]`.
    pub fn to_text(&self) -> (r: String)
        ensures
            r@ == semver_text(self@),
    {
        let mut text = String::new();
        push_all(&mut text, &zero_padded_digits(self.major, 0));
        push_char(&mut text, '.');
        push_all(&mut text, &zero_padded_digits(self.minor, 0));
        push_char(&mut text, '.');
        push_all(&mut text, &zero_padded_digits(self.patch, 0));
        if !self.pre.as_str().is_empty() {
            push_char(&mut text, '-');
            text.append(self.pre.as_str());
        }
        if !self.build.as_str().is_empty() {
            push_char(&mut text, '+');
            text.append(self.build.as_str());
        }
        proof {
            assert(zero_padded(self.major as nat, 0) == decimal(self.major as nat));
            assert(zero_padded(self.minor as nat, 0) == decimal(self.minor as nat));
            assert(zero_padded(self.patch as nat, 0) == decimal(self.patch as nat));
            assert(text@ =~= semver_text(self@));
        }
        text
    }
}

/// What `semver::Version::from_str` makes of a string: `None` where it reports an
/// error, else the major, minor and patch numbers and the pre-release and build
/// strings of the version.
pub uninterp spec fn semver_parse(text: Seq<char>) -> Option<(u64, u64, u64, Seq<char>, Seq<char>)>;

/// Parses `text` with `semver::Version::from_str`. The contract claims only that the
/// result is the one `semver_parse` names for `text`, converted field by field.
#[verifier::external_body]
fn parse_semver(text: &str) -> (r: Option<SemVer>)
    ensures
        match r {
            Some(v) => semver_parse(text@) == Some(v@),
            None => semver_parse(text@) is None,
        },
{
    match text.parse::<semver::Version>() {
        Ok(v) => Some(SemVer {
            major: v.major,
            minor: v.minor,
            patch: v.patch,
            pre: v.pre.as_str().to_string(),
            build: v.build.as_str().to_string(),
        }),
        Err(_) => None,
    }
}

/// The digit string `{:0>2}{:0>3}{:0>2}` of major, minor and patch.
pub open spec fn version_num_text(major: nat, minor: nat, patch: nat) -> Seq<char> {
    zero_padded(major, 2) + zero_padded(minor, 3) + zero_padded(patch, 2)
}

/// The number that `version_num_text` spells.
pub open spec fn version_num_value(major: nat, minor: nat, patch: nat) -> int {
    digits_value(version_num_text(major, minor, patch))
}

/// `version_num_value` of a parsed semantic version.
pub open spec fn semver_version_num(p: (u64, u64, u64, Seq<char>, Seq<char>)) -> int {
    version_num_value(p.0 as nat, p.1 as nat, p.2 as nat)
}

/// Formats major, minor and patch as `{:0>2}{:0>3}{:0>2}` and reads the digits as an
/// `i32`; `None` when the number exceeds `i32::MAX`.
pub fn version_num_from_parts(major: u64, minor: u64, patch: u64) -> (r: Option<i32>)
    ensures
        r == (if version_num_value(major as nat, minor as nat, patch as nat) <= i32::MAX {
            Some(version_num_value(major as nat, minor as nat, patch as nat) as i32)
        } else {
            None
        }),
{
    let mut text = zero_padded_digits(major, 2);
    let mut middle = zero_padded_digits(minor, 3);
    let mut tail = zero_padded_digits(patch, 2);
    text.append(&mut middle);
    text.append(&mut tail);
    proof {
        lemma_zero_padded(major as nat, 2);
        lemma_zero_padded(minor as nat, 3);
        lemma_zero_padded(patch as nat, 2);
        assert(text@ =~= version_num_text(major as nat, minor as nat, patch as nat));
        assert(all_digits(text@));
    }
    digits_to_i32(&text)
}

/// For minor below 1000 and patch below 100 (and any major), the version number is
/// `major * 100000 + minor * 100 + patch`, the layout of Pg's server_version_num.
pub proof fn lemma_version_num_layout(major: nat, minor: nat, patch: nat)
    requires
        minor < 1000,
        patch < 100,
    ensures
        version_num_value(major, minor, patch) == major * 100000 + minor * 100 + patch,
{
    assert(pow10(2) == 100) by {
        reveal_with_fuel(pow10, 3);
    }
    assert(pow10(3) == 1000) by {
        reveal_with_fuel(pow10, 4);
    }
    assert(pow10(5) == 100000) by {
        reveal_with_fuel(pow10, 6);
    }
    lemma_zero_padded(major, 2);
    lemma_zero_padded(minor, 3);
    lemma_zero_padded(patch, 2);
    let a = zero_padded(major, 2);
    let b = zero_padded(minor, 3);
    let c = zero_padded(patch, 2);
    assert(b.len() == 3 && c.len() == 2);
    lemma_digits_value_concat(a + b, c);
    lemma_digits_value_concat(a, b);
    assert(digits_value(a + b) == major * 1000 + minor);
    assert(digits_value(a + b + c) == (major * 1000 + minor) * 100 + patch);
    assert(a + b + c == version_num_text(major, minor, patch));
}

/// The version-number text is a digit string, so its value is never negative.
proof fn lemma_version_num_text_digits(major: nat, minor: nat, patch: nat)
    ensures
        all_digits(version_num_text(major, minor, patch)),
        version_num_value(major, minor, patch) >= 0,
{
    lemma_zero_padded(major, 2);
    lemma_zero_padded(minor, 3);
    lemma_zero_padded(patch, 2);
    let t = version_num_text(major, minor, patch);
    assert(all_digits(t));
    crate::decimal::lemma_digits_value_nonneg(t);
}

/// Within the ranges of `lemma_version_num_layout`, version numbers order versions
/// as major, then minor, then patch do.
pub proof fn lemma_version_num_order(
    major1: nat,
    minor1: nat,
    patch1: nat,
    major2: nat,
    minor2: nat,
    patch2: nat,
)
    requires
        minor1 < 1000,
        patch1 < 100,
        minor2 < 1000,
        patch2 < 100,
    ensures
        version_num_value(major1, minor1, patch1) < version_num_value(major2, minor2, patch2)
            <==> (major1 < major2 || (major1 == major2 && (minor1 < minor2 || (minor1 == minor2
            && patch1 < patch2)))),
{
    lemma_version_num_layout(major1, minor1, patch1);
    lemma_version_num_layout(major2, minor2, patch2);
}

/// For an ASCII hash of at least nine characters, the human-readable version shows
/// its first nine characters.
pub proof fn lemma_human_version_ascii(version: Seq<char>, sha: Seq<char>)
    requires
        is_ascii_chars(sha),
        sha.len() >= 9,
    ensures
        sha_prefix_cuttable(sha),
        human_version_text(version, sha) == seq!['v'] + version + seq![' ', '('] + sha.take(9)
            + seq![')'],
{
    broadcast use vstd::utf8::group_utf8_lib;
    let bytes = encode_utf8(sha);
    let head = sha.take(9);
    vstd::utf8::is_ascii_chars_encode_utf8(sha);
    assert(is_ascii_chars(head));
    vstd::utf8::is_ascii_chars_encode_utf8(head);
    assert(bytes.subrange(0, 9) =~= encode_utf8(head));
    vstd::utf8::encode_utf8_decode_utf8(head);
    vstd::utf8::encode_utf8_valid_utf8(sha);
    if sha.len() == 9 {
        vstd::utf8::is_char_boundary_start_end_of_seq(bytes);
    } else {
        let c = sha[9];
        assert((c as nat) < 128);
        assert(bytes[9] == c as u8);
        assert(vstd::utf8::is_leading_byte_width_1(bytes[9]));
        vstd::utf8::is_char_boundary_iff_is_leading_byte(bytes, 9);
    }
}

} // verus!
